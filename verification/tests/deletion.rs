use std::path::{Component, Path, MAIN_SEPARATOR, MAIN_SEPARATOR_STR};
use visual_media_viewer::folder_ops::{
    move_folder_to_recycle_bin, prepare_folder_delete_request, recycle_result,
    validate_delete_target, FolderDeleteRequest, FolderLook, RecycleOutcome, RecycleStep,
};
use visual_media_viewer::path::{MediaPath, PathPart};

fn media_path(text: &str) -> MediaPath {
    let mut parts: Vec<PathPart> = Vec::new();
    for part in Path::new(text).components() {
        parts.push(match part {
            Component::Prefix(p) => PathPart::Prefix(p.as_os_str().to_string_lossy().into_owned()),
            Component::RootDir => PathPart::Root,
            Component::CurDir => PathPart::Current,
            Component::ParentDir => PathPart::Above,
            Component::Normal(n) => PathPart::Name(n.to_string_lossy().into_owned()),
        });
    }
    MediaPath::new(parts)
}

fn join(root: &str, rest: &str) -> MediaPath {
    media_path(&format!("{}/{}", root, rest))
}

fn seen(path: MediaPath) -> FolderLook {
    FolderLook { resolved: Ok(path), exists: true, is_dir: true }
}

fn unresolved() -> FolderLook {
    FolderLook { resolved: Err("gone".to_string()), exists: false, is_dir: false }
}

fn error_of(result: Result<FolderDeleteRequest, String>) -> String {
    match result {
        Ok(_) => panic!("granted"),
        Err(e) => e,
    }
}

#[test]
fn test_prepare_folder_delete_request_captures_target_and_next_dir() {
    let root = "/tmp/vmv-folder-ops-request-1";
    let current_file = join(root, "alpha/current/file.jpg");
    let next_dir = join(root, "beta/next");

    let target = current_file.parent().unwrap();
    let request = match prepare_folder_delete_request(
        &current_file,
        seen(target),
        Some(seen(next_dir.copied())),
    ) {
        Ok(request) => request,
        Err(e) => panic!("{}", e),
    };

    assert_eq!(request.target_dir, join(root, "alpha/current"));
    assert_eq!(request.next_dir, next_dir);
    assert_eq!(request.target_name(MAIN_SEPARATOR_STR), "current");
}

#[test]
fn test_prepare_folder_delete_request_rejects_missing_next_dir() {
    let root = "/tmp/vmv-folder-ops-missing-next-1";
    let current_file = join(root, "alpha/current/file.jpg");

    let target = current_file.parent().unwrap();
    let err = error_of(prepare_folder_delete_request(&current_file, seen(target), None));

    assert!(err.contains("次に表示するフォルダが見つからない"));
}

#[test]
fn test_prepare_folder_delete_request_rejects_next_dir_inside_target() {
    let root = "/tmp/vmv-folder-ops-nested-next-1";
    let current_file = join(root, "alpha/current/file.jpg");
    let nested_next = join(root, "alpha/current/child");

    let target = current_file.parent().unwrap();
    let err = error_of(prepare_folder_delete_request(
        &current_file,
        seen(target),
        Some(seen(nested_next)),
    ));

    assert!(err.contains("移動先も同じフォルダ配下"));
}

#[test]
fn test_move_folder_to_recycle_bin_rejects_root_path() {
    let root = if MAIN_SEPARATOR == '\\' { media_path(r"C:\") } else { media_path("/") };

    let err = move_folder_to_recycle_bin(&root, true, true, None).unwrap_err();
    assert!(err.contains("ルート"));
}

#[test]
fn a_request_tells_why_it_is_refused() {
    let file = media_path("/a/b/file.jpg");
    let dir = media_path("/a/b");
    let next = media_path("/a/c");
    assert_eq!(
        error_of(prepare_folder_delete_request(
            &media_path("/"),
            seen(dir.copied()),
            Some(seen(next.copied()))
        )),
        "現在のファイルの親フォルダを特定できません。"
    );
    assert_eq!(
        error_of(prepare_folder_delete_request(&file, unresolved(), Some(seen(next.copied())))),
        "削除対象フォルダを確認できません: gone"
    );
    assert_eq!(
        error_of(prepare_folder_delete_request(
            &file,
            FolderLook { resolved: Ok(dir.copied()), exists: false, is_dir: false },
            None
        )),
        "削除対象フォルダが存在しません。"
    );
    assert_eq!(
        error_of(prepare_folder_delete_request(&file, seen(dir.copied()), Some(unresolved()))),
        "削除後の移動先フォルダを確認できません: gone"
    );
    assert_eq!(
        error_of(prepare_folder_delete_request(
            &file,
            seen(dir.copied()),
            Some(FolderLook { resolved: Ok(next.copied()), exists: true, is_dir: false })
        )),
        "削除後の移動先がフォルダではありません。"
    );
    assert_eq!(
        error_of(prepare_folder_delete_request(
            &file,
            seen(dir.copied()),
            Some(seen(dir.copied()))
        )),
        "削除後の移動先も同じフォルダ配下になるため、このフォルダは削除できません。"
    );
}

#[test]
fn a_folder_beside_one_with_the_same_beginning_is_not_inside_it() {
    let file = media_path("/a/b/file.jpg");
    let granted = prepare_folder_delete_request(
        &file,
        seen(media_path("/a/b")),
        Some(seen(media_path("/a/bc"))),
    );
    assert!(granted.is_ok());
}

#[test]
fn a_target_is_a_folder_that_exists() {
    let dir = media_path("/a");
    assert_eq!(validate_delete_target(&dir, true, true), Ok(()));
    assert_eq!(
        validate_delete_target(&dir, false, false).unwrap_err(),
        "削除対象フォルダが存在しません。"
    );
    assert_eq!(
        validate_delete_target(&dir, true, false).unwrap_err(),
        "削除対象がフォルダではありません。"
    );
}

#[test]
fn there_is_no_recycle_bin_here() {
    assert_eq!(
        move_folder_to_recycle_bin(&media_path("/a"), true, true, None).unwrap_err(),
        "フォルダのごみ箱移動は Windows でのみサポートされています。"
    );
}

#[test]
fn a_folder_is_moved_where_the_shell_moves_it() {
    let moved = |aborted: bool, exists: bool| {
        move_folder_to_recycle_bin(
            &media_path("/a"),
            exists,
            exists,
            Some(RecycleOutcome::Done { aborted, remains: false }),
        )
    };
    assert_eq!(moved(false, true), Ok(()));
    assert_eq!(moved(true, true).unwrap_err(), "フォルダ削除がキャンセルされました。");
    assert!(moved(false, false).is_err());
}

#[test]
fn a_folder_without_a_name_is_shown_by_its_path() {
    let request =
        FolderDeleteRequest { target_dir: media_path("/"), next_dir: media_path("/a") };
    assert_eq!(request.target_name("/"), "/");
    let drive = FolderDeleteRequest {
        target_dir: MediaPath::new(vec![PathPart::Prefix("C:".to_string()), PathPart::Root]),
        next_dir: media_path("/a"),
    };
    assert_eq!(drive.target_name("\\"), "C:\\");
}

#[test]
fn what_the_shell_did_is_told() {
    let failed =
        |step: RecycleStep| recycle_result(RecycleOutcome::Failed(step, "x".to_string())).unwrap_err();
    assert_eq!(failed(RecycleStep::Initialize), "ごみ箱処理を初期化できませんでした: x");
    assert_eq!(failed(RecycleStep::OpenItem), "削除対象フォルダをシェルで開けませんでした: x");
    assert_eq!(failed(RecycleStep::CreateOperation), "ごみ箱処理を開始できませんでした: x");
    assert_eq!(failed(RecycleStep::SetFlags), "ごみ箱処理を設定できませんでした: x");
    assert_eq!(failed(RecycleStep::DeleteItem), "フォルダの削除を予約できませんでした: x");
    assert_eq!(failed(RecycleStep::Perform), "フォルダをごみ箱へ移動できませんでした: x");
    assert_eq!(
        failed(RecycleStep::CheckAborted),
        "ごみ箱処理の完了状態を確認できませんでした: x"
    );
    assert_eq!(
        recycle_result(RecycleOutcome::Broken).unwrap_err(),
        "ごみ箱処理中に予期しないエラーが発生しました。"
    );
    assert_eq!(
        recycle_result(RecycleOutcome::Done { aborted: true, remains: true }).unwrap_err(),
        "フォルダ削除がキャンセルされました。"
    );
    assert_eq!(
        recycle_result(RecycleOutcome::Done { aborted: false, remains: true }).unwrap_err(),
        "フォルダをごみ箱へ移動できませんでした。削除対象が残っています。"
    );
    assert_eq!(recycle_result(RecycleOutcome::Done { aborted: false, remains: false }), Ok(()));
}
