//! What keys lead to: another file, another place of a video, another folder.

use vstd::prelude::*;

verus! {

use crate::cache::holds;
use crate::controls::{moved, pressed};
use crate::file_list::{is_video_path, PageKey};
use crate::keys::{interval_change, move_of, KeyInput, Move};
use crate::video_player::VideoPlayer;
use crate::viewer::{gone_next, gone_prev, seek_plan, AppView, PlanView, SeekPlan};

/// The time at which a video stands while frames are shown: that of the frame on the screen; and
/// before the first frame, where playback will begin.
pub proof fn law_position(player: VideoPlayer, audio: Option<i64>, now: i64)
    ensures
        player.awaiting_first_frame ==> player.position(audio, now) == player.playback_start_pts,
        !player.awaiting_first_frame && player.current_frame is Some ==> player.position(audio, now)
            == player.current_frame->0.pts,
{
}

/// The time since playback began, without the pauses, from where it began.
pub open spec fn played_to(player: VideoPlayer, now: i64) -> int {
    player.playback_start_pts + player.paused_elapsed + if now > player.playback_start {
        now - player.playback_start
    } else {
        0
    }
}

/// Without a frame on the screen, a video stands where the audio is, if it is heard and less than
/// half a second behind; else where it must be by the time that has passed.
pub proof fn law_clock(player: VideoPlayer, audio: Option<i64>, now: i64)
    requires
        !player.awaiting_first_frame,
        player.current_frame is None,
        i64::MIN <= played_to(player, now) <= i64::MAX,
    ensures
        ({
            let heard = player.session && player.has_audio && audio is Some;
            let wall = played_to(player, now);
            player.position(audio, now) == if heard && wall - audio->0 < 500_000 {
                audio->0 as int
            } else {
                wall
            }
        }),
{
}

/// A seek moves a video by just the distance that was asked for, from where it stands. The file
/// beside the video is gone to only where the seek leads before its start or to its end or beyond:
/// the next one where it was to go on, the previous one where it was to go back.
pub proof fn law_seek(a: AppView, delta: i64, audio: Option<i64>, now: i64)
    requires
        a.video is Some,
        i64::MIN <= a.video->0.position(audio, now) + delta <= i64::MAX,
    ensures
        ({
            let player = a.video->0;
            let target = player.position(audio, now) + delta;
            let inside = 0 <= target && (player.duration <= 0 || target < player.duration);
            match seek_plan(a, delta, audio, now) {
                SeekPlan::PlayFrom(t) => inside && t == target,
                SeekPlan::NextFile => !inside && delta >= 0,
                SeekPlan::PrevFile => !inside && delta < 0,
                SeekPlan::Nothing => false,
            }
        }),
        !a.video->0.awaiting_first_frame && a.video->0.current_frame is Some ==> (seek_plan(
            a,
            delta,
            audio,
            now,
        ) matches SeekPlan::PlayFrom(t) ==> t == a.video->0.current_frame->0.pts + delta),
{
}

/// The place one on in a list of `n` files, the first after the last.
pub open spec fn one_on(i: int, n: int) -> int {
    if i == n - 1 {
        0
    } else {
        i + 1
    }
}

/// The place one back in a list of `n` files, the last before the first.
pub open spec fn one_back(i: int, n: int) -> int {
    if i == 0 {
        n - 1
    } else {
        i - 1
    }
}

/// The viewer is at one of several files.
pub open spec fn is_among_files(a: AppView) -> bool {
    a.list is Some && 0 <= a.list->0.index < a.list->0.files.len() && a.list->0.files.len() > 1
}

/// `plan` loads the file at place `i` of the viewer's list: a video is opened, an image decoded,
/// unless it is cached.
pub open spec fn loads_file_at(a: AppView, i: int, plan: Option<PlanView>) -> bool {
    let file = a.list->0.files[i];
    match plan {
        Some(PlanView::Video(p)) => p == file && is_video_path(file),
        Some(PlanView::Decode(p)) => p == file && !is_video_path(file) && !holds(
            a.cache.cached,
            file,
        ),
        Some(PlanView::Cached) => !is_video_path(file) && holds(a.cache.cached, file),
        _ => false,
    }
}

/// `after` shows the file at place `i` of the list that `a` has, and nothing of what was shown.
pub open spec fn has_gone_to(a: AppView, after: AppView, i: int, plan: Option<PlanView>) -> bool {
    &&& after.list is Some
    &&& after.list->0.index == i
    &&& after.list->0.files == a.list->0.files
    &&& after.list->0.dir == a.list->0.dir
    &&& after.list->0.rule == a.list->0.rule
    &&& after.list->0.file_key == a.list->0.file_key
    &&& after.list->0.file_order == a.list->0.file_order
    &&& after.video is None
    &&& after.error is None
    &&& loads_file_at(a, i, plan)
}

/// At an image, the right arrow key goes to the next file and the left one to the previous, from
/// the last to the first and back; at a video they do so together with control.
pub proof fn law_arrow_keys(a: AppView, k: KeyInput, audio: Option<i64>, now: i64)
    requires
        is_among_files(a),
        a.video is None || k.ctrl,
    ensures
        ({
            let n = a.list->0.files.len() as int;
            let i = a.list->0.index;
            let (after, plan, play_from, folder) = pressed(a, k, audio, now);
            &&& k.right ==> has_gone_to(a, after, one_on(i, n), plan)
            &&& k.left && !k.right ==> has_gone_to(a, after, one_back(i, n), plan)
            &&& k.right || k.left ==> {
                &&& play_from is None && folder is None
                &&& after.list->0.edge is None
                &&& !after.slideshow.end_handled
                &&& after.slideshow.last_advance == now
            }
        }),
{
}

/// The left arrow key after the right one brings back the file that was shown, and so does the
/// right one after the left.
pub proof fn law_arrow_keys_undo(
    a: AppView,
    there: KeyInput,
    back: KeyInput,
    audio: Option<i64>,
    now: i64,
    later: i64,
)
    requires
        is_among_files(a),
        a.video is None || there.ctrl,
        there.right || there.left,
        back.right || back.left,
        there.right == !back.right,
    ensures
        ({
            let away = pressed(a, there, audio, now).0;
            let home = pressed(away, back, audio, later).0;
            &&& away.list->0.index != a.list->0.index
            &&& home.list->0.index == a.list->0.index
            &&& home.list->0.files == a.list->0.files
        }),
{
    law_arrow_keys(a, there, audio, now);
    law_arrow_keys(pressed(a, there, audio, now).0, back, audio, later);
}

/// At an image, page keys go five files back or on, or as far as there are files. At the first or
/// the last file they stay, unless the same key has just brought the viewer there, or kept it
/// there: then they go to the other end.
pub proof fn law_page_keys(a: AppView, k: KeyInput, audio: Option<i64>, now: i64)
    requires
        is_among_files(a),
        a.video is None,
        !k.right && !k.left && !k.up,
        k.page_up || (k.page_down && !k.down),
    ensures
        ({
            let n = a.list->0.files.len() as int;
            let i = a.list->0.index;
            let (after, plan, play_from, folder) = pressed(a, k, audio, now);
            let j = after.list->0.index;
            let up_again = a.list->0.edge == Some(PageKey::Up);
            let down_again = a.list->0.edge == Some(PageKey::Down);
            &&& play_from is None && folder is None
            &&& k.page_up ==> j == if i == 0 && up_again {
                n - 1
            } else if i <= 5 {
                0
            } else {
                i - 5
            }
            &&& !k.page_up ==> j == if i == n - 1 && down_again {
                0
            } else if i + 5 >= n - 1 {
                n - 1
            } else {
                i + 5
            }
            &&& j != i ==> has_gone_to(a, after, j, plan) && after.slideshow.last_advance == now
            &&& j == i ==> plan is None && after.video == a.video && after.image_size
                == a.image_size && after.slideshow.last_advance == if k.s && !k.shift
                && !a.slideshow.active {
                now
            } else {
                a.slideshow.last_advance
            }
            &&& k.page_up ==> after.list->0.edge == if j == 0 && !(i == 0 && up_again) {
                Some(PageKey::Up)
            } else {
                None
            }
            &&& !k.page_up ==> after.list->0.edge == if j == n - 1 && !(i == n - 1 && down_again) {
                Some(PageKey::Down)
            } else {
                None
            }
        }),
{
}

/// Keys that turn, pace or reset leave the place in the list and the video as they are.
proof fn lemma_keys_after_move(a: AppView, k: KeyInput, audio: Option<i64>, now: i64)
    ensures
        ({
            let (after, plan, play_from, folder) = pressed(a, k, audio, now);
            let (there, load, from) = match move_of(k, a.video is Some) {
                Some(m) => moved(a, m, audio, now),
                None => (a, None, None),
            };
            &&& after.list == there.list && after.video == there.video && after.error == there.error
            &&& plan == load && play_from == from
        }),
{
}

proof fn lemma_seek_move(a: AppView, micros: i64, audio: Option<i64>, now: i64)
    requires
        is_among_files(a),
        a.video is Some,
        micros != 0,
        i64::MIN <= a.video->0.position(audio, now) + micros <= i64::MAX,
    ensures
        ({
            let n = a.list->0.files.len() as int;
            let i = a.list->0.index;
            let target = a.video->0.position(audio, now) + micros;
            let inside = 0 <= target && (a.video->0.duration <= 0 || target < a.video->0.duration);
            let (after, plan, play_from) = moved(a, Move::SeekBy(micros), audio, now);
            &&& inside ==> play_from == Some(target as i64) && plan is None && after == a
            &&& !inside && micros > 0 ==> play_from is None && has_gone_to(
                a,
                after,
                one_on(i, n),
                plan,
            )
            &&& !inside && micros < 0 ==> play_from is None && has_gone_to(
                a,
                after,
                one_back(i, n),
                plan,
            )
        }),
{
    law_seek(a, micros, audio, now);
    let next = gone_next(a, now);
    let prev = gone_prev(a, now);
    assert(has_gone_to(a, next.0, one_on(a.list->0.index, a.list->0.files.len() as int), next.1));
    assert(has_gone_to(a, prev.0, one_back(a.list->0.index, a.list->0.files.len() as int), prev.1));
}

/// At a video, arrow keys seek ten seconds, and page keys five minutes: the right arrow and page
/// down on, the left arrow and page up back. Where that leads out of the video, the file beside it
/// is gone to.
pub proof fn law_seek_keys(a: AppView, k: KeyInput, audio: Option<i64>, now: i64, micros: i64)
    requires
        is_among_files(a),
        a.video is Some,
        !k.ctrl,
        micros == if k.right {
            10_000_000i64
        } else if k.left {
            -10_000_000i64
        } else if k.page_up {
            -300_000_000i64
        } else {
            300_000_000i64
        },
        k.right || k.left || (!k.up && (k.page_up || (!k.down && k.page_down))),
        i64::MIN <= a.video->0.position(audio, now) + micros <= i64::MAX,
    ensures
        ({
            let n = a.list->0.files.len() as int;
            let i = a.list->0.index;
            let target = a.video->0.position(audio, now) + micros;
            let inside = 0 <= target && (a.video->0.duration <= 0 || target < a.video->0.duration);
            let (after, plan, play_from, folder) = pressed(a, k, audio, now);
            &&& folder is None
            &&& inside ==> {
                &&& play_from is Some && play_from->0 == target
                &&& plan is None
                &&& after.list == a.list
                &&& after.video == a.video
            }
            &&& !inside && micros > 0 ==> play_from is None && has_gone_to(
                a,
                after,
                one_on(i, n),
                plan,
            )
            &&& !inside && micros < 0 ==> play_from is None && has_gone_to(
                a,
                after,
                one_back(i, n),
                plan,
            )
        }),
{
    assert(move_of(k, true) == Some(Move::SeekBy(micros)));
    lemma_seek_move(a, micros, audio, now);
    lemma_keys_after_move(a, k, audio, now);
}

/// The arrow keys up and down leave the file and ask for the previous and the next folder with
/// images; with shift, for one in a branch beside.
pub proof fn law_folder_keys(a: AppView, k: KeyInput, audio: Option<i64>, now: i64)
    requires
        !k.right && !k.left,
        k.up || (k.down && !k.page_up),
    ensures
        ({
            let (after, plan, play_from, folder) = pressed(a, k, audio, now);
            &&& plan is None && play_from is None
            &&& after.list == a.list && after.video == a.video
            &&& folder == Some(
                if k.up && k.shift {
                    Move::PrevBranch
                } else if k.up {
                    Move::PrevFolder
                } else if k.shift {
                    Move::NextBranch
                } else {
                    Move::NextFolder
                },
            )
        }),
{
}

/// Without a key that moves, nothing moves: the file, the video and the folder stay.
pub proof fn law_no_move(a: AppView, k: KeyInput, audio: Option<i64>, now: i64)
    requires
        !k.right && !k.left && !k.up && !k.down && !k.page_up && !k.page_down,
    ensures
        ({
            let (after, plan, play_from, folder) = pressed(a, k, audio, now);
            &&& plan is None && play_from is None && folder is None
            &&& after.list == a.list && after.video == a.video && after.image_size == a.image_size
            &&& after.cache == a.cache && after.error == a.error
            &&& after.fit_mode == a.fit_mode && after.maximized == a.maximized
        }),
{
}

/// Whatever else is pressed: `R` turns the image by a quarter, clockwise, or with shift the other
/// way; `S` starts the slideshow and with shift stops it; plus and minus, or `D` and `F` with `S`
/// held, make its interval a tenth of a second longer or shorter, between one second and thirty;
/// `N` makes the current folder the root of the title. What was turned or paced is in the settings.
pub proof fn law_other_keys(a: AppView, k: KeyInput, audio: Option<i64>, now: i64)
    requires
        a.slideshow.wf(),
    ensures
        ({
            let after = pressed(a, k, audio, now).0;
            let longer = k.plus || k.equals || (k.s_held && k.d);
            let shorter = !longer && (k.minus || (k.s_held && k.f));
            let tenths = a.slideshow.tenths as int;
            &&& after.rotation == if k.r && k.shift {
                (a.rotation + 270) % 360
            } else if k.r {
                (a.rotation + 90) % 360
            } else {
                a.rotation as int
            }
            &&& after.slideshow.active == if k.s {
                !k.shift
            } else {
                a.slideshow.active
            }
            &&& longer ==> after.slideshow.tenths == if tenths < 300 {
                tenths + 1
            } else {
                300
            }
            &&& shorter ==> after.slideshow.tenths == if tenths > 10 {
                tenths - 1
            } else {
                10
            }
            &&& !longer && !shorter ==> after.slideshow.tenths == tenths
            &&& interval_change(k) is Some <==> longer || shorter
            &&& k.n && a.list is Some ==> after.root == Some(a.list->0.dir)
            &&& !k.n || a.list is None ==> after.root == a.root
            &&& k.r || longer || shorter ==> after.settings.rotation == after.rotation
            &&& longer || shorter ==> after.settings.slideshow_tenths == after.slideshow.tenths
            &&& !k.r && !longer && !shorter ==> after.settings == a.settings
            &&& after.settings.volume == a.settings.volume
            &&& after.settings.audio_offset_ms == a.settings.audio_offset_ms
            &&& after.settings.maximized == a.settings.maximized
        }),
{
}

/// A slideshow that is started by a key, where none ran, shows the current file for a whole
/// interval.
pub proof fn law_started_slideshow_waits(a: AppView, k: KeyInput, audio: Option<i64>, now: i64)
    requires
        k.s && !k.shift,
        !a.slideshow.active,
    ensures
        pressed(a, k, audio, now).0.slideshow.last_advance == now,
{
}

/// Where there is no other file, or nothing is listed, keys lead to no other: what is shown stays,
/// and nothing is loaded.
pub proof fn law_single_file(a: AppView, k: KeyInput, audio: Option<i64>, now: i64)
    requires
        a.list is None || a.list->0.files.len() <= 1,
        a.video is None || k.ctrl,
        k.right || k.left || (a.video is None && !k.up && !k.down && (k.page_up || k.page_down)),
    ensures
        ({
            let (after, plan, play_from, folder) = pressed(a, k, audio, now);
            &&& plan is None && play_from is None && folder is None
            &&& after.list == a.list && after.video == a.video && after.image_size == a.image_size
            &&& after.error == a.error && after.cache == a.cache
            &&& !k.s ==> after.slideshow.last_advance == a.slideshow.last_advance
        }),
{
}

/// A place behind the end of the list, where files have gone, is left for the first file by going
/// on, and by one place by going back.
pub proof fn law_behind_the_end(a: AppView, k: KeyInput, audio: Option<i64>, now: i64)
    requires
        a.list is Some,
        a.list->0.files.len() > 1,
        a.list->0.index >= a.list->0.files.len(),
        a.video is None,
    ensures
        ({
            let (after, plan, play_from, folder) = pressed(a, k, audio, now);
            &&& k.right ==> has_gone_to(a, after, 0, plan)
            &&& k.left && !k.right ==> after.list->0.index == a.list->0.index - 1
                && after.list->0.files == a.list->0.files && plan is Some
        }),
{
}

/// A file that is chosen is waited for anew by the slideshow, which stays on or off and as fast as it
/// was: its time begins, and the end of a video, should it be one, has not been seen yet.
pub proof fn law_chosen_file_is_waited_for(a: AppView, now: i64)
    requires
        a.list is Some,
        a.list->0.files.len() > 1,
    ensures
        ({
            let (next, prev) = (gone_next(a, now).0.slideshow, gone_prev(a, now).0.slideshow);
            &&& next == prev
            &&& next.last_advance == now && !next.end_handled
            &&& next.active == a.slideshow.active && next.tenths == a.slideshow.tenths
        }),
{
}

} // verus!
