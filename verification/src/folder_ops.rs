//! Moving a folder to the recycle bin: which one, whether it may go, and where the viewer goes.

use vstd::prelude::*;

use crate::path::MediaPath;
use crate::text::copy_text;

verus! {

use crate::path::{file_name_of, joined_text, lemma_lies_under_order, lies_under, parent_of, PathView};

/// A folder that is to be moved to the recycle bin, and the one to show afterwards.
pub struct FolderDeleteRequest {
    pub target_dir: MediaPath,
    pub next_dir: MediaPath,
}

/// What is found at a path: the path in its canonical form, or why it has none, and what is there.
pub struct FolderLook {
    pub resolved: Result<MediaPath, String>,
    pub exists: bool,
    pub is_dir: bool,
}

/// The name under which a folder is shown: its own where it has one, else its path, as the system
/// writes it.
pub open spec fn shown_name(dir: PathView, separator: Seq<char>) -> Seq<char> {
    match file_name_of(dir) {
        Some(name) => if name.len() > 0 {
            name
        } else {
            joined_text(dir, 0, separator)
        },
        None => joined_text(dir, 0, separator),
    }
}

impl FolderDeleteRequest {
    /// The name of the folder that is to be moved. `separator` is what the system writes between the
    /// components of a path.
    pub fn target_name(&self, separator: &str) -> (r: String)
        ensures
            r@ == shown_name(self.target_dir@, separator@),
    {
        match self.target_dir.file_name() {
            Some(name) => {
                if name.unicode_len() > 0 {
                    copy_text(name)
                } else {
                    self.target_dir.display(separator)
                }
            },
            None => self.target_dir.display(separator),
        }
    }
}

/// Why a folder may not be deleted, if it may not.
pub open spec fn target_refusal(dir: PathView, exists: bool, is_dir: bool) -> Option<Seq<char>> {
    if !exists {
        Some("削除対象フォルダが存在しません。"@)
    } else if !is_dir {
        Some("削除対象がフォルダではありません。"@)
    } else if parent_of(dir) is None {
        Some("ファイルシステムのルートは削除できません。"@)
    } else {
        None
    }
}

/// Checks that a folder exists, is one, and is not the root of a file system.
pub fn validate_delete_target(target_dir: &MediaPath, exists: bool, is_dir: bool) -> (r: Result<
    (),
    String,
>)
    ensures
        match r {
            Ok(_) => target_refusal(target_dir@, exists, is_dir) is None,
            Err(e) => target_refusal(target_dir@, exists, is_dir) == Some(e@),
        },
{
    if !exists {
        return Err(copy_text("削除対象フォルダが存在しません。"));
    }
    if !is_dir {
        return Err(copy_text("削除対象がフォルダではありません。"));
    }
    match target_dir.parent() {
        Some(_) => Ok(()),
        None => Err(copy_text("ファイルシステムのルートは削除できません。")),
    }
}

/// Whether a path is another or lies below it.
pub fn is_same_or_descendant(path: &MediaPath, base: &MediaPath) -> (r: bool)
    ensures
        r == lies_under(path@, base@),
{
    path.starts_with(base)
}

/// Why there can be no request to delete the folder of `current_file`, if there cannot: `target`
/// is what is found at that folder, `next` what is found where the viewer would go.
pub open spec fn request_refusal(
    current_file: PathView,
    target: FolderLook,
    next: Option<FolderLook>,
) -> Option<Seq<char>> {
    if parent_of(current_file) is None {
        Some("現在のファイルの親フォルダを特定できません。"@)
    } else if target.resolved is Err {
        Some("削除対象フォルダを確認できません: "@ + target.resolved->Err_0@)
    } else if target_refusal(target.resolved->Ok_0@, target.exists, target.is_dir) is Some {
        target_refusal(target.resolved->Ok_0@, target.exists, target.is_dir)
    } else if next is None {
        Some("次に表示するフォルダが見つからないため、このフォルダは削除できません。"@)
    } else if next->0.resolved is Err {
        Some("削除後の移動先フォルダを確認できません: "@ + next->0.resolved->Err_0@)
    } else if !next->0.is_dir {
        Some("削除後の移動先がフォルダではありません。"@)
    } else if lies_under(next->0.resolved->Ok_0@, target.resolved->Ok_0@) {
        Some(
            "削除後の移動先も同じフォルダ配下になるため、このフォルダは削除できません。"@,
        )
    } else {
        None
    }
}

/// Prepares to delete the folder of `current_file`, given what is found at that folder and at the
/// one to show afterwards.
pub fn prepare_folder_delete_request(
    current_file: &MediaPath,
    target: FolderLook,
    next: Option<FolderLook>,
) -> (r: Result<FolderDeleteRequest, String>)
    ensures
        match r {
            Ok(request) => {
                &&& request_refusal(current_file@, target, next) is None
                &&& request.target_dir@ == target.resolved->Ok_0@
                &&& request.next_dir@ == next->0.resolved->Ok_0@
            },
            Err(e) => request_refusal(current_file@, target, next) == Some(e@),
        },
{
    if current_file.parent().is_none() {
        return Err(copy_text("現在のファイルの親フォルダを特定できません。"));
    }
    let target_dir = match target.resolved {
        Ok(dir) => dir,
        Err(e) => {
            let mut message = copy_text("削除対象フォルダを確認できません: ");
            message.append(e.as_str());
            return Err(message);
        },
    };
    match validate_delete_target(&target_dir, target.exists, target.is_dir) {
        Ok(_) => {},
        Err(e) => {
            return Err(e);
        },
    }
    let look = match next {
        Some(look) => look,
        None => {
            return Err(
                copy_text(
                    "次に表示するフォルダが見つからないため、このフォルダは削除できません。",
                ),
            );
        },
    };
    let next_dir = match look.resolved {
        Ok(dir) => dir,
        Err(e) => {
            let mut message = copy_text(
                "削除後の移動先フォルダを確認できません: ",
            );
            message.append(e.as_str());
            return Err(message);
        },
    };
    if !look.is_dir {
        return Err(copy_text("削除後の移動先がフォルダではありません。"));
    }
    if is_same_or_descendant(&next_dir, &target_dir) {
        return Err(
            copy_text(
                "削除後の移動先も同じフォルダ配下になるため、このフォルダは削除できません。",
            ),
        );
    }
    Ok(FolderDeleteRequest { target_dir, next_dir })
}

/// A request that was granted leaves a place to go: the folder to show is neither the one that is
/// deleted nor below it, nor is anything it lies in below it; and no root is deleted.
pub proof fn lemma_request_leaves_next(
    current_file: PathView,
    target: FolderLook,
    next: Option<FolderLook>,
)
    requires
        request_refusal(current_file, target, next) is None,
    ensures
        ({
            let target_dir = target.resolved->Ok_0@;
            let next_dir = next->0.resolved->Ok_0@;
            &&& target_dir != next_dir
            &&& forall|p: PathView| #[trigger]
                lies_under(next_dir, p) ==> !lies_under(p, target_dir)
            &&& parent_of(target_dir) is Some
        }),
{
    let target_dir = target.resolved->Ok_0@;
    let next_dir = next->0.resolved->Ok_0@;
    lemma_lies_under_order(next_dir, next_dir, next_dir);
    assert forall|p: PathView| #[trigger] lies_under(next_dir, p) implies !lies_under(
        p,
        target_dir,
    ) by {
        lemma_lies_under_order(next_dir, p, target_dir);
    }
}

/// What is said where there is no recycle bin to move a folder to.
pub open spec fn unsupported_text() -> Seq<char> {
    "フォルダのごみ箱移動は Windows でのみサポートされています。"@
}

/// The steps of moving a folder to the recycle bin.
#[derive(Clone, Copy, Debug, PartialEq, Eq, Structural)]
pub enum RecycleStep {
    Initialize,
    OpenItem,
    CreateOperation,
    SetFlags,
    DeleteItem,
    Perform,
    CheckAborted,
}

/// What the shell made of a request to move a folder to the recycle bin.
pub enum RecycleOutcome {
    /// The step failed for the given reason.
    Failed(RecycleStep, String),
    /// The work broke off unexpectedly.
    Broken,
    /// All steps were taken; the operation may have been aborted, and the folder may remain.
    Done { aborted: bool, remains: bool },
}

/// What is said of a step that failed.
pub open spec fn step_text(step: RecycleStep) -> Seq<char> {
    match step {
        RecycleStep::Initialize => "ごみ箱処理を初期化できませんでした: "@,
        RecycleStep::OpenItem => "削除対象フォルダをシェルで開けませんでした: "@,
        RecycleStep::CreateOperation => "ごみ箱処理を開始できませんでした: "@,
        RecycleStep::SetFlags => "ごみ箱処理を設定できませんでした: "@,
        RecycleStep::DeleteItem => "フォルダの削除を予約できませんでした: "@,
        RecycleStep::Perform => "フォルダをごみ箱へ移動できませんでした: "@,
        RecycleStep::CheckAborted => "ごみ箱処理の完了状態を確認できませんでした: "@,
    }
}

/// Why a folder is not in the recycle bin, if it is not.
pub open spec fn recycle_failure(outcome: RecycleOutcome) -> Option<Seq<char>> {
    match outcome {
        RecycleOutcome::Failed(step, e) => Some(step_text(step) + e@),
        RecycleOutcome::Broken => Some(
            "ごみ箱処理中に予期しないエラーが発生しました。"@,
        ),
        RecycleOutcome::Done { aborted, remains } => if aborted {
            Some("フォルダ削除がキャンセルされました。"@)
        } else if remains {
            Some(
                "フォルダをごみ箱へ移動できませんでした。削除対象が残っています。"@,
            )
        } else {
            None
        },
    }
}

/// Whether the folder was moved, or what to say if it was not.
pub fn recycle_result(outcome: RecycleOutcome) -> (r: Result<(), String>)
    ensures
        match r {
            Ok(_) => recycle_failure(outcome) is None,
            Err(e) => recycle_failure(outcome) == Some(e@),
        },
{
    match outcome {
        RecycleOutcome::Failed(step, e) => {
            let text = match step {
                RecycleStep::Initialize => "ごみ箱処理を初期化できませんでした: ",
                RecycleStep::OpenItem => "削除対象フォルダをシェルで開けませんでした: ",
                RecycleStep::CreateOperation => "ごみ箱処理を開始できませんでした: ",
                RecycleStep::SetFlags => "ごみ箱処理を設定できませんでした: ",
                RecycleStep::DeleteItem => "フォルダの削除を予約できませんでした: ",
                RecycleStep::Perform => "フォルダをごみ箱へ移動できませんでした: ",
                RecycleStep::CheckAborted => {
                    "ごみ箱処理の完了状態を確認できませんでした: "
                },
            };
            let mut message = copy_text(text);
            message.append(e.as_str());
            Err(message)
        },
        RecycleOutcome::Broken => Err(
            copy_text("ごみ箱処理中に予期しないエラーが発生しました。"),
        ),
        RecycleOutcome::Done { aborted, remains } => {
            if aborted {
                Err(copy_text("フォルダ削除がキャンセルされました。"))
            } else if remains {
                Err(
                    copy_text(
                        "フォルダをごみ箱へ移動できませんでした。削除対象が残っています。",
                    ),
                )
            } else {
                Ok(())
            }
        },
    }
}

/// Why a folder was not moved to the recycle bin, if it was not: it must not be deleted, or there
/// is no recycle bin, or the shell did not do it.
pub open spec fn move_failure(
    target_dir: PathView,
    exists: bool,
    is_dir: bool,
    shell: Option<RecycleOutcome>,
) -> Option<Seq<char>> {
    match target_refusal(target_dir, exists, is_dir) {
        Some(refusal) => Some(refusal),
        None => match shell {
            Some(outcome) => recycle_failure(outcome),
            None => Some(unsupported_text()),
        },
    }
}

/// What came of moving a folder to the recycle bin. `shell` is what the shell made of it, `None`
/// where there is no recycle bin; a folder that must not be deleted is never handed to the shell.
pub fn move_folder_to_recycle_bin(
    target_dir: &MediaPath,
    exists: bool,
    is_dir: bool,
    shell: Option<RecycleOutcome>,
) -> (r: Result<(), String>)
    ensures
        match r {
            Ok(_) => move_failure(target_dir@, exists, is_dir, shell) is None,
            Err(e) => move_failure(target_dir@, exists, is_dir, shell) == Some(e@),
        },
{
    match validate_delete_target(target_dir, exists, is_dir) {
        Ok(_) => match shell {
            Some(outcome) => recycle_result(outcome),
            None => Err(
                copy_text("フォルダのごみ箱移動は Windows でのみサポートされています。"),
            ),
        },
        Err(e) => Err(e),
    }
}

/// A folder that must not be deleted is refused, whatever the shell would make of it; and a folder
/// counts as moved only where the shell took every step, was not aborted, and left nothing behind.
pub proof fn lemma_moved_is_gone(
    target_dir: PathView,
    exists: bool,
    is_dir: bool,
    shell: Option<RecycleOutcome>,
)
    ensures
        target_refusal(target_dir, exists, is_dir) is Some ==> move_failure(
            target_dir,
            exists,
            is_dir,
            shell,
        ) == target_refusal(target_dir, exists, is_dir),
        move_failure(target_dir, exists, is_dir, shell) is None ==> shell == Some(
            (RecycleOutcome::Done { aborted: false, remains: false }),
        ),
{
}

} // verus!
