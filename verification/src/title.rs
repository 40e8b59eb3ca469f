//! What the title bar shows, and the folder from which it shows it.

use vstd::prelude::*;

use crate::path::{MediaPath, PathPart};
use crate::text::{copy_text, decimal_text, two_digit_text};
use crate::video_player::PlaybackState;

verus! {

use crate::path::{
    common_ancestor, file_name_or_empty, joined_text, lemma_common_ancestor, lemma_lies_under_order,
    lies_under, PathView,
};
use crate::text::{decimal, two_digits};

/// A folder can serve as the root of a title if it has a name.
pub open spec fn is_usable_root(p: PathView) -> bool {
    p.len() > 0 && p.last() is Name
}

/// The root of the title after the viewer has gone to the folder `dir`: the nearest folder that
/// both the old root and `dir` lie in, or `dir` where there is no usable one.
pub open spec fn root_after(root: Option<PathView>, dir: PathView) -> PathView {
    match root {
        Some(r) => if is_usable_root(common_ancestor(r, dir)) {
            common_ancestor(r, dir)
        } else {
            dir
        },
        None => dir,
    }
}

/// The root of the title after the viewer has gone to the folder `dir`.
pub fn next_title_root(root: Option<&MediaPath>, dir: &MediaPath) -> (r: MediaPath)
    ensures
        r@ == root_after(
            match root {
                Some(p) => Some(p@),
                None => None,
            },
            dir@,
        ),
{
    if let Some(old_root) = root {
        let shared = old_root.common_ancestor(dir);
        let n: usize = shared.parts.len();
        if n > 0 {
            assert(shared@.last() == shared.parts@[n - 1]@);
            if let PathPart::Name(_) = &shared.parts[n - 1] {
                return shared;
            }
        }
    }
    dir.copied()
}

/// Wherever the viewer goes, the folder it shows lies in the root of its title.
pub proof fn lemma_root_holds_folder(root: Option<PathView>, dir: PathView)
    ensures
        lies_under(dir, root_after(root, dir)),
        root is None ==> root_after(root, dir) == dir,
{
    lemma_lies_under_order(dir, dir, dir);
    if let Some(r) = root {
        lemma_common_ancestor(r, dir);
    }
}

/// Going about within the root leaves it as it is, and so does going to where the viewer is.
pub proof fn lemma_root_is_kept(root: PathView, dir: PathView)
    requires
        is_usable_root(root),
        lies_under(dir, root),
    ensures
        root_after(Some(root), dir) == root,
{
    lemma_common_ancestor(root, dir);
    lemma_lies_under_order(root, root, root);
    let shared = common_ancestor(root, dir);
    assert(lies_under(shared, root));
    assert(lies_under(root, shared));
    assert(shared =~= root) by {
        assert(shared.take(root.len() as int) == root);
        assert(shared.take(root.len() as int) =~= shared);
    }
}

/// The roots along a way through folders.
pub open spec fn root_along(root: PathView, dirs: Seq<PathView>) -> PathView
    decreases dirs.len(),
{
    if dirs.len() == 0 {
        root
    } else {
        root_after(Some(root_along(root, dirs.drop_last())), dirs.last())
    }
}

proof fn lemma_named_prefix(root: PathView, p: PathView, top: PathView)
    requires
        is_usable_root(top),
        lies_under(root, p),
        lies_under(p, top),
        forall|k: int| top.len() <= k < root.len() ==> #[trigger] root[k] is Name,
    ensures
        is_usable_root(p),
{
    let n = p.len() as int;
    assert(root.take(n)[n - 1] == root[n - 1]);
    if n == top.len() {
        assert(p.take(n) =~= p);
    }
}

/// The root is cumulative: as long as all folders of a way, and the root at its beginning, lie in
/// one folder `top` that has a name, so does the root at its end; and it holds all of them. (Below
/// `top`, the root at the beginning is made of names, as every path is that has been resolved.)
pub proof fn lemma_root_is_cumulative(root: PathView, dirs: Seq<PathView>, top: PathView)
    requires
        is_usable_root(top),
        lies_under(root, top),
        forall|i: int| 0 <= i < dirs.len() ==> lies_under(#[trigger] dirs[i], top),
        forall|k: int| top.len() <= k < root.len() ==> #[trigger] root[k] is Name,
    ensures
        is_usable_root(root_along(root, dirs)),
        lies_under(root_along(root, dirs), top),
        lies_under(root, root_along(root, dirs)),
        forall|i: int|
            0 <= i < dirs.len() ==> lies_under(#[trigger] dirs[i], root_along(root, dirs)),
    decreases dirs.len(),
{
    lemma_lies_under_order(root, root, root);
    lemma_named_prefix(root, root, top);
    if dirs.len() > 0 {
        let front = dirs.drop_last();
        assert forall|i: int| 0 <= i < front.len() implies lies_under(#[trigger] front[i], top) by {
            assert(front[i] == dirs[i]);
        }
        lemma_root_is_cumulative(root, front, top);
        let before = root_along(root, front);
        let dir = dirs.last();
        assert(lies_under(dirs[dirs.len() - 1], top));
        let shared = common_ancestor(before, dir);
        lemma_common_ancestor(before, dir);
        assert(lies_under(shared, top));
        lemma_lies_under_order(root, before, shared);
        lemma_named_prefix(root, shared, top);
        assert forall|i: int| 0 <= i < dirs.len() implies lies_under(
            #[trigger] dirs[i],
            root_along(root, dirs),
        ) by {
            if i < front.len() {
                assert(front[i] == dirs[i]);
                assert(lies_under(front[i], before));
                lemma_lies_under_order(dirs[i], before, shared);
            }
        }
    }
}

/// A time in minutes and seconds; before the start, none has passed.
pub open spec fn minutes_text(micros: int) -> Seq<char> {
    let secs = if micros > 0 {
        (micros / 1_000_000) as nat
    } else {
        0
    };
    decimal(secs / 60) + ":"@ + two_digits(secs % 60)
}

/// A time in minutes and seconds.
pub fn time_text(micros: i64) -> (r: String)
    ensures
        r@ == minutes_text(micros as int),
{
    let secs: u64 = if micros > 0 {
        micros as u64 / 1_000_000
    } else {
        0
    };
    let mut r = decimal_text(secs / 60);
    r.append(":");
    r.append(two_digit_text(secs % 60).as_str());
    r
}

/// A number of tenths, as a number with one decimal.
pub open spec fn tenths_text(tenths: nat) -> Seq<char> {
    decimal(tenths / 10) + "."@ + decimal(tenths % 10)
}

/// A number of tenths, as a number with one decimal.
pub fn one_decimal_text(tenths: u64) -> (r: String)
    ensures
        r@ == tenths_text(tenths as nat),
{
    let mut r = decimal_text(tenths / 10);
    r.append(".");
    r.append(decimal_text(tenths % 10).as_str());
    r
}

/// The word for whether a video plays.
pub open spec fn state_text(state: PlaybackState) -> Seq<char> {
    match state {
        PlaybackState::Playing => "再生中"@,
        PlaybackState::Paused => "一時停止"@,
        PlaybackState::Finished => "終了"@,
    }
}

/// What a title says of a video: whether it plays, how loud, and where it stands.
pub open spec fn video_suffix(state: PlaybackState, volume: nat, pos: int, duration: int) -> Seq<
    char,
> {
    " ["@ + state_text(state) + " Vol:"@ + decimal(volume) + "%] ["@ + minutes_text(pos) + " / "@
        + minutes_text(duration) + "]"@
}

/// What a title says of a video.
pub fn video_suffix_text(state: PlaybackState, volume: u16, pos: i64, duration: i64) -> (r: String)
    ensures
        r@ == video_suffix(state, volume as nat, pos as int, duration as int),
{
    let mut r = copy_text(" [");
    r.append(
        match state {
            PlaybackState::Playing => "再生中",
            PlaybackState::Paused => "一時停止",
            PlaybackState::Finished => "終了",
        },
    );
    r.append(" Vol:");
    r.append(decimal_text(volume as u64).as_str());
    r.append("%] [");
    r.append(time_text(pos).as_str());
    r.append(" / ");
    r.append(time_text(duration).as_str());
    r.append("]");
    r
}

/// What a title says of a slideshow that runs.
pub open spec fn slideshow_suffix(tenths: nat) -> Seq<char> {
    " <自動: "@ + tenths_text(tenths) + "s>"@
}

/// What a title says of a slideshow that runs.
pub fn slideshow_suffix_text(tenths: u16) -> (r: String)
    ensures
        r@ == slideshow_suffix(tenths as nat),
{
    let mut r = copy_text(" <自動: ");
    r.append(one_decimal_text(tenths as u64).as_str());
    r.append("s>");
    r
}

/// Where a file is: the name of the root, the folders below it down to that of the file, and the
/// name of the file.
pub open spec fn place_text(root: PathView, dir: PathView, file: PathView) -> Seq<char> {
    let below = joined_text(dir, root.len() as int, "/"@);
    file_name_or_empty(root) + "/"@ + below + (if below.len() > 0 {
        "/"@
    } else {
        ""@
    }) + file_name_or_empty(file)
}

/// The title of a file that is the `place`th of `count`.
pub open spec fn file_title(root: PathView, dir: PathView, file: PathView, place: nat, count: nat) -> Seq<
    char,
> {
    place_text(root, dir, file) + " ("@ + decimal(place) + " / "@ + decimal(count) + ")"@
}

/// The title of a file that is the `place`th of `count`.
pub fn file_title_text(
    root: &MediaPath,
    dir: &MediaPath,
    file: &MediaPath,
    place: u64,
    count: u64,
) -> (r: String)
    ensures
        r@ == file_title(root@, dir@, file@, place as nat, count as nat),
{
    let below = dir.text_from(root.parts.len(), "/");
    let mut r = root.file_name_text();
    r.append("/");
    r.append(below.as_str());
    if below.as_str().unicode_len() > 0 {
        r.append("/");
    } else {
        r.append("");
    }
    r.append(file.file_name_text().as_str());
    r.append(" (");
    r.append(decimal_text(place).as_str());
    r.append(" / ");
    r.append(decimal_text(count).as_str());
    r.append(")");
    r
}

/// The title of a viewer that shows no file.
pub open spec fn empty_title() -> Seq<char> {
    "Visual Media Viewer"@
}

/// The title of the window of a viewer that was started with the given path.
pub open spec fn window_title(path: Option<PathView>) -> Seq<char> {
    match path {
        Some(p) => match crate::path::file_name_of(p) {
            Some(name) => name + " - Visual Media Viewer"@,
            None => empty_title() + " - Visual Media Viewer"@,
        },
        None => empty_title(),
    }
}

/// The title of the window of a viewer that was started with the given path.
pub fn window_title_text(path: Option<&MediaPath>) -> (r: String)
    ensures
        r@ == window_title(
            match path {
                Some(p) => Some(p@),
                None => None,
            },
        ),
{
    match path {
        Some(p) => {
            let mut r = match p.file_name() {
                Some(name) => copy_text(name),
                None => copy_text("Visual Media Viewer"),
            };
            r.append(" - Visual Media Viewer");
            r
        },
        None => copy_text("Visual Media Viewer"),
    }
}

/// A number below a thousand with three digits.
pub open spec fn three_digits(n: nat) -> Seq<char> {
    crate::text::decimal(n / 100) + two_digits(n % 100)
}

/// A time in seconds with three decimals, to the nearest of them.
pub open spec fn seconds_text(micros: int) -> Seq<char> {
    let size = if micros < 0 {
        -micros
    } else {
        micros
    };
    let millis = ((size + 500) / 1000) as nat;
    (if micros < 0 {
        "-"@
    } else {
        ""@
    }) + decimal(millis / 1000) + "."@ + three_digits(millis % 1000)
}

/// A time in seconds with three decimals.
pub fn precise_time_text(micros: i64) -> (r: String)
    ensures
        r@ == seconds_text(micros as int),
{
    let size: u64 = if micros < 0 {
        (-(micros as i128)) as u64
    } else {
        micros as u64
    };
    let millis: u64 = (size + 500) / 1000;
    let mut r = if micros < 0 {
        copy_text("-")
    } else {
        copy_text("")
    };
    r.append(decimal_text(millis / 1000).as_str());
    r.append(".");
    let mut digits = decimal_text(millis % 1000 / 100);
    digits.append(two_digit_text(millis % 1000 % 100).as_str());
    r.append(digits.as_str());
    r
}

} // verus!
