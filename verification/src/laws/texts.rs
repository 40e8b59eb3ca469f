//! What names, numbers and titles read like.

use vstd::prelude::*;

verus! {

use crate::file_list::{has_extension, is_image_path, is_video_path};
use crate::image_decode::{is_heic_path, is_jpeg_path};
use crate::path::{file_name_of, is_extension_of, joined_text, parent_of, PartView, PathView};
use crate::folder_ops::{
    move_failure, recycle_failure, request_refusal, shown_name, target_refusal, FolderLook,
    RecycleOutcome, RecycleStep,
};
use crate::ipc::{address_text, request_text};
use crate::text::{decimal, is_trimmed, is_white_space, lowered, two_digits};
use crate::title::{
    file_title, minutes_text, place_text, root_after, seconds_text, slideshow_suffix, tenths_text,
    video_suffix, window_title,
};
use crate::video_player::PlaybackState;
use crate::viewer::{diagnosis, shown_title, AppView};

/// A text made of decimal digits.
pub open spec fn is_number(s: Seq<char>) -> bool {
    forall|i: int| 0 <= i < s.len() ==> '0' <= #[trigger] s[i] <= '9'
}

/// The number that a text of decimal digits stands for.
pub open spec fn number_of(s: Seq<char>) -> int
    decreases s.len(),
{
    if s.len() == 0 {
        0
    } else {
        10 * number_of(s.drop_last()) + (s.last() as u32 - '0' as u32)
    }
}

/// A number is written with decimal digits that stand for it, and without a leading zero; with at
/// least two digits where that is asked for.
pub proof fn law_decimal(n: nat)
    ensures
        is_number(decimal(n)),
        number_of(decimal(n)) == n,
        decimal(n).len() >= 1,
        decimal(n).len() > 1 ==> decimal(n)[0] != '0',
        is_number(two_digits(n)),
        number_of(two_digits(n)) == n,
        two_digits(n).len() >= 2,
        n < 100 ==> two_digits(n).len() == 2,
    decreases n,
{
    let s = decimal(n);
    if n < 10 {
        let none = s.drop_last();
        assert(none =~= Seq::empty());
        assert(number_of(none) == 0);
        let t = two_digits(n);
        assert(t.drop_last() =~= seq!['0']);
        assert(seq!['0'].drop_last() =~= Seq::empty());
        assert(number_of(seq!['0'].drop_last()) == 0);
        assert(number_of(seq!['0']) == 0);
    } else {
        law_decimal(n / 10);
        assert(s.drop_last() =~= decimal(n / 10));
        assert(s[0] == decimal(n / 10)[0]);
        assert forall|i: int| 0 <= i < s.len() implies '0' <= #[trigger] s[i] <= '9' by {
            if i < s.len() - 1 {
                assert(s[i] == decimal(n / 10)[i]);
            }
        }
        if n / 10 < 10 {
            assert(decimal(n / 10).len() == 1);
            if n / 10 > 0 {
                assert(number_of(decimal(n / 10)) == n / 10);
                assert(decimal(n / 10).drop_last() =~= Seq::empty());
                assert(number_of(decimal(n / 10).drop_last()) == 0);
            }
        }
    }
}

/// The extension of a name is what follows its last dot, letter case aside; a dot at the beginning
/// of a name makes none.
pub proof fn law_extension(p: PathView, stem: Seq<char>, ext: Seq<char>, lower: Seq<char>)
    requires
        p.len() > 0,
        p.last() == PartView::Name(stem + seq!['.'] + ext),
        stem.len() > 0,
        !ext.contains('.'),
    ensures
        has_extension(p, lower) <==> lowered(ext) == lower,
{
    let name = stem + seq!['.'] + ext;
    let dot = stem.len() as int;
    assert(file_name_of(p) == Some(name));
    assert(name[dot] == '.');
    assert(name.subrange(dot + 1, name.len() as int) =~= ext);
    assert(is_extension_of(ext, name));
    if has_extension(p, lower) {
        let e = choose|e: Seq<char>| #[trigger] is_extension_of(e, name) && lowered(e) == lower;
        let other = choose|d: int|
            {
                &&& 0 < d < name.len()
                &&& name[d] == '.'
                &&& e == #[trigger] name.subrange(d + 1, name.len() as int)
                &&& !e.contains('.')
            };
        if other < dot {
            assert(e[dot - other - 1] == '.');
        }
        if dot < other {
            assert(ext[other - dot - 1] == '.');
        }
        assert(e =~= ext);
    }
    if lowered(ext) =~= lower {
        assert(lowered(ext) == lower);
        assert(file_name_of(p)->0 == name);
        assert(is_extension_of(ext, file_name_of(p)->0) && lowered(ext) == lower);
        assert(has_extension(p, lower));
    }
}

/// A name without a dot, or with none but at its beginning, has no extension; and neither has what
/// is no name.
pub proof fn law_no_extension(p: PathView, lower: Seq<char>)
    requires
        p.len() == 0 || !(p.last() is Name) || forall|i: int|
            1 <= i < p.last()->Name_0.len() ==> #[trigger] p.last()->Name_0[i] != '.',
    ensures
        !has_extension(p, lower),
{
    if has_extension(p, lower) {
        let name = p.last()->Name_0;
        let e = choose|e: Seq<char>| #[trigger] is_extension_of(e, name) && lowered(e) == lower;
        let d = choose|d: int|
            {
                &&& 0 < d < name.len()
                &&& name[d] == '.'
                &&& e == #[trigger] name.subrange(d + 1, name.len() as int)
                &&& !e.contains('.')
            };
        assert(name[d] == '.');
    }
}

/// Letters from `A` to `Z` count as those from `a` to `z`, and every other character as itself.
pub proof fn law_letter_case(s: Seq<char>, i: int)
    requires
        0 <= i < s.len(),
    ensures
        lowered(s).len() == s.len(),
        65 <= s[i] as u32 <= 90 ==> lowered(s)[i] as u32 == s[i] as u32 + 32,
        !(65 <= s[i] as u32 <= 90) ==> lowered(s)[i] == s[i],
{
}

/// The files that are shown and played are told by their extensions.
pub proof fn law_kinds_of_files(p: PathView, stem: Seq<char>, ext: Seq<char>)
    requires
        p.len() > 0,
        p.last() == PartView::Name(stem + seq!['.'] + ext),
        stem.len() > 0,
        !ext.contains('.'),
    ensures
        ({
            let e = lowered(ext);
            &&& is_image_path(p) <==> (e == "jpg"@ || e == "jpeg"@ || e == "png"@ || e == "gif"@ || e
                == "bmp"@ || e == "webp"@ || e == "tiff"@ || e == "tif"@ || e == "heic"@ || e
                == "heif"@)
            &&& is_video_path(p) <==> (e == "mp4"@ || e == "webm"@ || e == "mkv"@ || e == "avi"@ || e
                == "mov"@ || e == "wmv"@)
            &&& is_heic_path(p) <==> (e == "heic"@ || e == "heif"@)
            &&& is_jpeg_path(p) <==> (e == "jpg"@ || e == "jpeg"@)
        }),
{
    law_extension(p, stem, ext, "jpg"@);
    law_extension(p, stem, ext, "jpeg"@);
    law_extension(p, stem, ext, "png"@);
    law_extension(p, stem, ext, "gif"@);
    law_extension(p, stem, ext, "bmp"@);
    law_extension(p, stem, ext, "webp"@);
    law_extension(p, stem, ext, "tiff"@);
    law_extension(p, stem, ext, "tif"@);
    law_extension(p, stem, ext, "heic"@);
    law_extension(p, stem, ext, "heif"@);
    law_extension(p, stem, ext, "mp4"@);
    law_extension(p, stem, ext, "webm"@);
    law_extension(p, stem, ext, "mkv"@);
    law_extension(p, stem, ext, "avi"@);
    law_extension(p, stem, ext, "mov"@);
    law_extension(p, stem, ext, "wmv"@);
}

/// The parent of a path is the path without its last name; a root has none, nor has an empty path.
/// The name of a path is its last name.
pub proof fn law_parent(dir: PathView, name: Seq<char>)
    ensures
        parent_of(dir.push(PartView::Name(name))) == Some(dir),
        file_name_of(dir.push(PartView::Name(name))) == Some(name),
        parent_of(dir.push(PartView::Root)) is None,
        file_name_of(dir.push(PartView::Root)) is None,
        parent_of(PathView::empty()) is None,
{
    assert(dir.push(PartView::Name(name)).drop_last() =~= dir);
}

/// The root of a title and a new folder share their first `n` names and no more: then the title
/// starts from the last of these, if it is a name, and else from the new folder.
pub proof fn law_title_root(root: PathView, dir: PathView, n: int)
    requires
        0 <= n <= root.len(),
        n <= dir.len(),
        forall|i: int| 0 <= i < n ==> #[trigger] root[i] == dir[i],
        n < root.len() && n < dir.len() ==> root[n] != dir[n],
    ensures
        n > 0 && root[n - 1] is Name ==> root_after(Some(root), dir) == dir.take(n),
        n == 0 || !(root[n - 1] is Name) ==> root_after(Some(root), dir) == dir,
        root_after(None, dir) == dir,
{
    crate::path::lemma_common_len(root, dir);
    let m = crate::path::common_len(root, dir) as int;
    if m < n {
        assert(root[m] == dir[m]);
    }
    if n < m {
        assert(root[n] == dir[n]);
    }
    assert(root.take(n) =~= dir.take(n));
}

/// A time is shown in minutes and seconds that make it up, the seconds with two digits and below
/// sixty; a time before the start is shown as none.
pub proof fn law_minutes(micros: int, mins: nat, secs: nat)
    requires
        secs < 60,
        micros > 0 ==> (mins * 60 + secs) * 1_000_000 <= micros < (mins * 60 + secs + 1) * 1_000_000,
        micros <= 0 ==> mins == 0 && secs == 0,
    ensures
        minutes_text(micros) == decimal(mins) + ":"@ + two_digits(secs),
{
    if micros > 0 {
        assert(micros / 1_000_000 == mins * 60 + secs);
    }
}

/// Tenths are shown after the whole number and a point.
pub proof fn law_tenths(whole: nat, tenth: nat)
    requires
        tenth < 10,
    ensures
        tenths_text(10 * whole + tenth) == decimal(whole) + "."@ + decimal(tenth),
        slideshow_suffix(10 * whole + tenth) == " <自動: "@ + (decimal(whole) + "."@ + decimal(tenth))
            + "s>"@,
{
}

/// A time in seconds is shown with three decimals, to the nearest.
pub proof fn law_seconds(secs: nat, millis: nat, micros: int)
    requires
        millis < 1000,
        (secs * 1000 + millis) * 1000 - 500 <= micros < (secs * 1000 + millis) * 1000 + 500,
        micros >= 0,
    ensures
        seconds_text(micros) == ""@ + decimal(secs) + "."@ + (decimal(millis / 100) + two_digits(
            millis % 100,
        )),
        micros > 0 ==> seconds_text(-micros) == "-"@ + decimal(secs) + "."@ + (decimal(millis / 100)
            + two_digits(millis % 100)),
{
    let n = secs * 1000 + millis;
    assert((micros + 500) / 1000 == n);
}

/// What stands below the root is shown as the names on the way, with slashes between them.
pub proof fn law_way_below(dir: PathView, from: int, name: Seq<char>)
    requires
        0 <= from <= dir.len(),
        forall|i: int| from <= i < dir.len() ==> #[trigger] dir[i] is Name,
    ensures
        joined_text(dir, dir.len() as int, "/"@) == Seq::<char>::empty(),
        from == dir.len() ==> joined_text(dir.push(PartView::Name(name)), from, "/"@) == name,
        from < dir.len() ==> joined_text(dir.push(PartView::Name(name)), from, "/"@) == joined_text(
            dir,
            from,
            "/"@,
        ) + "/"@ + name,
    decreases dir.len() - from,
{
    let longer = dir.push(PartView::Name(name));
    assert(longer.len() == dir.len() + 1);
    assert(joined_text(longer, dir.len() as int + 1, "/"@) =~= Seq::empty());
    assert(longer[dir.len() as int] == PartView::Name(name));
    assert(joined_text(longer, dir.len() as int, "/"@) =~= name);
    if from < dir.len() {
        law_way_below(dir, from + 1, name);
        assert(longer[from] == dir[from]);
        assert(dir[from] is Name);
        let own = dir[from]->Name_0;
        if from + 1 == dir.len() {
            assert(joined_text(dir, from, "/"@) =~= own);
            assert(joined_text(longer, from, "/"@) =~= own + "/"@ + name);
        } else {
            assert(joined_text(dir, from, "/"@) == own + "/"@ + joined_text(dir, from + 1, "/"@));
            assert(joined_text(longer, from, "/"@) == own + "/"@ + joined_text(
                longer,
                from + 1,
                "/"@,
            ));
            assert(joined_text(longer, from, "/"@) =~= joined_text(dir, from, "/"@) + "/"@ + name);
        }
    }
}

/// A title shows the name of its root, the way from there to the folder of the file, if there is
/// one, and the name of the file, with slashes between them; then which of how many files it is.
pub proof fn law_file_title(
    root: PathView,
    top: Seq<char>,
    folder: Seq<char>,
    name: Seq<char>,
    place: nat,
    count: nat,
)
    requires
        root.len() > 0,
        root.last() == PartView::Name(top),
        folder.len() > 0,
    ensures
        ({
            let below = root.push(PartView::Name(folder));
            let rest = " ("@ + decimal(place) + " / "@ + decimal(count) + ")"@;
            &&& file_title(root, root, root.push(PartView::Name(name)), place, count) == top + "/"@
                + name + rest
            &&& file_title(root, below, below.push(PartView::Name(name)), place, count) == top + "/"@
                + folder + "/"@ + name + rest
        }),
{
    reveal_strlit("/");
    reveal_strlit("");
    let below = root.push(PartView::Name(folder));
    law_way_below(root, root.len() as int, folder);
    let rest = " ("@ + decimal(place) + " / "@ + decimal(count) + ")"@;
    let file = root.push(PartView::Name(name));
    let deeper = below.push(PartView::Name(name));
    law_parent(root, name);
    law_parent(below, name);
    assert(place_text(root, root, file) =~= top + "/"@ + name);
    assert(place_text(root, below, deeper) =~= top + "/"@ + folder + "/"@ + name);
    assert(file_title(root, root, file, place, count) =~= top + "/"@ + name + rest);
    assert(file_title(root, below, deeper, place, count) =~= top + "/"@ + folder + "/"@ + name
        + rest);
}

/// What a title says of a video is whether it plays, is paused or has ended, how loud it is, where
/// it stands and how long it is.
pub proof fn law_video_title(volume: nat, pos: int, duration: int)
    ensures
        ({
            let rest = |word: Seq<char>|
                " ["@ + word + " Vol:"@ + decimal(volume) + "%] ["@ + minutes_text(pos) + " / "@
                    + minutes_text(duration) + "]"@;
            &&& video_suffix(PlaybackState::Playing, volume, pos, duration) == rest("再生中"@)
            &&& video_suffix(PlaybackState::Paused, volume, pos, duration) == rest("一時停止"@)
            &&& video_suffix(PlaybackState::Finished, volume, pos, duration) == rest("終了"@)
        }),
{
}

/// The title of the viewer tells the current file and its place, counted from one, and then of the
/// video where it stands, or of a slideshow that runs its interval.
pub proof fn law_title(a: AppView, audio: Option<i64>, now: i64)
    requires
        a.list is Some,
        0 <= a.list->0.index < a.list->0.files.len(),
        a.root is Some,
    ensures
        ({
            let l = a.list->0;
            let title = file_title(
                a.root->0,
                l.dir,
                l.files[l.index],
                (l.index + 1) as nat,
                l.files.len(),
            );
            &&& a.video is Some ==> shown_title(a, audio, now) == title + video_suffix(
                a.video->0.state,
                a.video->0.volume as nat,
                a.video->0.position(audio, now),
                a.video->0.duration as int,
            )
            &&& a.video is None && a.slideshow.active ==> shown_title(a, audio, now) == title
                + slideshow_suffix(a.slideshow.tenths as nat)
            &&& a.video is None && !a.slideshow.active ==> shown_title(a, audio, now) == title
        }),
{
    reveal_strlit("");
    let l = a.list->0;
    let title = file_title(a.root->0, l.dir, l.files[l.index], (l.index + 1) as nat, l.files.len());
    assert(title + ""@ =~= title);
}

/// The window of a viewer that was started with a file is named after it.
pub proof fn law_window_title(dir: PathView, name: Seq<char>)
    ensures
        window_title(Some(dir.push(PartView::Name(name)))) == name + " - Visual Media Viewer"@,
        dir.len() == 0 || !(dir.last() is Name) ==> window_title(Some(dir))
            == "Visual Media Viewer"@ + " - Visual Media Viewer"@,
        window_title(None) == "Visual Media Viewer"@,
{
}

/// A request for a file is its path on a line, and it is sent to the viewer on this machine.
pub proof fn law_request(path: Seq<char>)
    ensures
        request_text(path) == path + "\n"@,
        address_text() == "127.0.0.1:"@ + decimal(52384),
{
}

/// A text is trimmed of the white space at its ends, and of nothing else: what stands between two
/// characters that are no white space stays.
pub proof fn law_trimmed(inner: Seq<char>, before: Seq<char>, after: Seq<char>)
    requires
        inner.len() > 0,
        !is_white_space(inner[0]) && !is_white_space(inner.last()),
        forall|i: int| 0 <= i < before.len() ==> is_white_space(#[trigger] before[i]),
        forall|i: int| 0 <= i < after.len() ==> is_white_space(#[trigger] after[i]),
    ensures
        is_trimmed(inner, before + inner + after),
{
    let s = before + inner + after;
    let (from, to) = (before.len() as int, (before.len() + inner.len()) as int);
    assert(s.subrange(from, to) =~= inner);
    assert forall|i: int| 0 <= i < from implies is_white_space(#[trigger] s[i]) by {
        assert(s[i] == before[i]);
    }
    assert forall|i: int| to <= i < s.len() implies is_white_space(#[trigger] s[i]) by {
        assert(s[i] == after[i - to]);
    }
}

/// Blanks, tabs and the ends of lines are white space; what can be seen in ASCII is not.
pub proof fn law_white_space(c: char)
    ensures
        c == ' ' || c == '\t' || c == '\n' || c == '\r' ==> is_white_space(c),
        33 <= c as u32 <= 126 ==> !is_white_space(c),
{
}

/// Why a folder is not deleted is told by the first of these that holds: it does not exist, it is no
/// folder, it lies in no other; there is no folder to go to, it is no folder, or it lies in the one
/// to be deleted.
pub proof fn law_deletion_is_explained(file: PathView, target: FolderLook, next: Option<FolderLook>)
    requires
        parent_of(file) is Some,
        target.resolved is Ok,
    ensures
        !target.exists ==> request_refusal(file, target, next) == Some(
            "削除対象フォルダが存在しません。"@,
        ),
        target.exists && !target.is_dir ==> request_refusal(file, target, next) == Some(
            "削除対象がフォルダではありません。"@,
        ),
        target.exists && target.is_dir && parent_of(target.resolved->Ok_0@) is None
            ==> request_refusal(file, target, next) == Some(
            "ファイルシステムのルートは削除できません。"@,
        ),
        target.exists && target.is_dir && parent_of(target.resolved->Ok_0@) is Some && next is None
            ==> request_refusal(file, target, next) == Some(
            "次に表示するフォルダが見つからないため、このフォルダは削除できません。"@,
        ),
        target_refusal(target.resolved->Ok_0@, target.exists, target.is_dir) is None <==> {
            target.exists && target.is_dir && parent_of(target.resolved->Ok_0@) is Some
        },
{
}

/// A diagnosis of a video tells its file, what is known of it, whether it plays, and where it stands
/// of how long it is.
pub proof fn law_diagnosis(a: AppView, file: Seq<char>, audio: Option<i64>, now: i64)
    requires
        a.list is Some,
        0 <= a.list->0.index < a.list->0.files.len(),
    ensures
        a.video matches Some(player) ==> ({
            let word = match player.state {
                PlaybackState::Playing => "\"Playing\""@,
                PlaybackState::Paused => "\"Paused\""@,
                PlaybackState::Finished => "\"Finished\""@,
            };
            diagnosis(a, file, audio, now) == "File: "@ + file + "\n"@ + (player.diag_info@
                + "\nState: "@ + word + "\nPTS: "@ + seconds_text(player.position(audio, now))
                + "\nDuration: "@ + seconds_text(player.duration as int))
        }),
        a.video is None ==> diagnosis(a, file, audio, now) == "File: "@ + file + "\n"@
            + "No video player active\n"@,
{
}

/// A path is written as its components, with a separator before each name but one that stands first
/// or after a root. The folder itself is a dot, and the one above it two.
pub proof fn law_path_text(drive: Seq<char>, name: Seq<char>, separator: Seq<char>)
    ensures
        joined_text(seq![PartView::Name(name)], 0, separator) == name,
        joined_text(seq![PartView::Root], 0, separator) == separator,
        joined_text(seq![PartView::Root, PartView::Name(name)], 0, separator) == separator + name,
        joined_text(seq![PartView::Prefix(drive), PartView::Root], 0, separator) == drive + separator,
        joined_text(seq![PartView::Above, PartView::Name(name)], 0, separator) == ".."@ + separator
            + name,
        joined_text(seq![PartView::Current, PartView::Name(name)], 0, separator) == "."@ + separator
            + name,
{
    reveal_with_fuel(joined_text, 3);
    assert(name + Seq::empty() =~= name);
    assert(separator + Seq::empty() =~= separator);
}

/// A folder is shown by its name, and by its whole path where it has none.
pub proof fn law_shown_name(dir: PathView, name: Seq<char>, separator: Seq<char>)
    ensures
        name.len() > 0 ==> shown_name(dir.push(PartView::Name(name)), separator) == name,
        shown_name(seq![PartView::Root], separator) == separator,
{
    reveal_with_fuel(joined_text, 2);
    assert(separator + Seq::empty() =~= separator);
}

/// Which step of moving a folder failed is told, and for what reason. Only a folder that is gone, by
/// an operation that was not aborted, has been moved.
pub proof fn law_recycling_is_explained(e: String, aborted: bool, remains: bool)
    ensures
        ({
            let told = |step: RecycleStep| recycle_failure(RecycleOutcome::Failed(step, e));
            &&& told(RecycleStep::Initialize) == Some(
                "ごみ箱処理を初期化できませんでした: "@ + e@,
            )
            &&& told(RecycleStep::OpenItem) == Some(
                "削除対象フォルダをシェルで開けませんでした: "@ + e@,
            )
            &&& told(RecycleStep::CreateOperation) == Some(
                "ごみ箱処理を開始できませんでした: "@ + e@,
            )
            &&& told(RecycleStep::SetFlags) == Some("ごみ箱処理を設定できませんでした: "@ + e@)
            &&& told(RecycleStep::DeleteItem) == Some(
                "フォルダの削除を予約できませんでした: "@ + e@,
            )
            &&& told(RecycleStep::Perform) == Some(
                "フォルダをごみ箱へ移動できませんでした: "@ + e@,
            )
            &&& told(RecycleStep::CheckAborted) == Some(
                "ごみ箱処理の完了状態を確認できませんでした: "@ + e@,
            )
        }),
        recycle_failure(RecycleOutcome::Broken) == Some(
            "ごみ箱処理中に予期しないエラーが発生しました。"@,
        ),
        aborted ==> recycle_failure(RecycleOutcome::Done { aborted, remains }) == Some(
            "フォルダ削除がキャンセルされました。"@,
        ),
        !aborted && remains ==> recycle_failure(RecycleOutcome::Done { aborted, remains }) == Some(
            "フォルダをごみ箱へ移動できませんでした。削除対象が残っています。"@,
        ),
        !aborted && !remains ==> recycle_failure(RecycleOutcome::Done { aborted, remains }) is None,
{
}

/// A folder has been moved only where it may be deleted and the shell moved it. Where there is no
/// recycle bin, that is told.
pub proof fn law_moving_is_explained(dir: PathView, shell: RecycleOutcome)
    requires
        parent_of(dir) is Some,
    ensures
        move_failure(dir, true, true, None) == Some(
            "フォルダのごみ箱移動は Windows でのみサポートされています。"@,
        ),
        move_failure(dir, true, true, Some(shell)) is None <==> (shell
            == RecycleOutcome::Done { aborted: false, remains: false }),
        move_failure(dir, false, false, Some(shell)) == Some("削除対象フォルダが存在しません。"@),
        move_failure(dir, true, false, Some(shell)) == Some("削除対象がフォルダではありません。"@),
{
}

/// There is but one text without the white space at the ends of another: it neither begins nor ends
/// with white space, and holds every character of the other that is none.
pub proof fn law_trimmed_is_all(t: Seq<char>, s: Seq<char>)
    requires
        is_trimmed(t, s),
    ensures
        t.len() > 0 ==> !is_white_space(t[0]) && !is_white_space(t[t.len() - 1]),
        forall|i: int| 0 <= i < s.len() && !is_white_space(#[trigger] s[i]) ==> t.contains(s[i]),
        t.len() <= s.len(),
        s.len() > 0 && !is_white_space(s[0]) && !is_white_space(s[s.len() - 1]) ==> t == s,
{
    let (from, to) = choose|from: int, to: int|
        {
            &&& 0 <= from <= to <= s.len()
            &&& #[trigger] s.subrange(from, to) == t
            &&& forall|i: int| 0 <= i < from ==> is_white_space(#[trigger] s[i])
            &&& forall|i: int| to <= i < s.len() ==> is_white_space(#[trigger] s[i])
            &&& t.len() > 0 ==> !is_white_space(t[0]) && !is_white_space(t.last())
        };
    assert forall|i: int| 0 <= i < s.len() && !is_white_space(#[trigger] s[i]) implies t.contains(
        s[i],
    ) by {
        assert(from <= i < to);
        assert(t[i - from] == s[i]);
    }
    if s.len() > 0 && !is_white_space(s[0]) && !is_white_space(s[s.len() - 1]) {
        assert(from == 0 && to == s.len());
        assert(t =~= s);
    }
}

} // verus!
