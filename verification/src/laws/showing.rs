//! What is loaded and shown, in which folder, and what is remembered.

use vstd::prelude::*;

verus! {

use crate::cache::{distinct, place};
use crate::controls::folder_of;
use crate::file_list::{is_image_path, EntryView};
use crate::folder_tree::{
    folders_of, is_tree, lemma_branches_in_order, lemma_neighbours, visited_in, with_images,
};
use crate::folders::{extends, lemma_search_sound, lookup, NodeView, SearchView};
use crate::keys::Move;
use crate::laws::moving::{has_gone_to, is_among_files, loads_file_at, one_on};
use crate::path::{parent_of, PathView};
use crate::slideshow::Slideshow;
use crate::image_decode::ColorImage;
use crate::menu::{
    file_key, file_order, folder_key, folder_order, grouping, with_offset, with_size_switched,
};
use crate::settings::{grouping_of, key_of, order_of, Settings};
use crate::slideshow::{left_to_wait, switched, ticked, with_interval, VideoStatus};
use crate::video_player::VideoPlayer;
use crate::viewer::{
    fit_of, loaded, recorded, scrolled, slid, stepped_volume, with_image, with_video,
    AppView,
};

/// In a tree of folders that has been read, no more than ten levels deep, the way on from any folder
/// leads to the first folder with images that comes after it, and the way back to the last one
/// before it, where each folder comes before those that it holds, and those in their listed order.
/// At the two ends of a tree that lies in no other folder, there is no such way.
pub proof fn law_folder_moves(
    a: AppView,
    known: Seq<NodeView>,
    root: PathView,
    height: nat,
    i: int,
)
    requires
        is_tree(known, root, height),
        height <= 10,
        0 <= i < folders_of(known, root, height).len(),
        a.list is Some,
        a.list->0.dir == folders_of(known, root, height)[i],
    ensures
        ({
            let all = folders_of(known, root, height);
            let after = with_images(known, all.skip(i + 1));
            let before = with_images(known, all.take(i));
            &&& after.len() > 0 ==> folder_of(a, Move::NextFolder, known) == SearchView::Found(
                after[0],
            )
            &&& before.len() > 0 ==> folder_of(a, Move::PrevFolder, known) == SearchView::Found(
                before[before.len() - 1],
            )
            &&& parent_of(root) is None && after.len() == 0 ==> folder_of(
                a,
                Move::NextFolder,
                known,
            ) is NotFound
            &&& parent_of(root) is None && before.len() == 0 ==> folder_of(
                a,
                Move::PrevFolder,
                known,
            ) is NotFound
        }),
{
    lemma_neighbours(known, root, height, i);
}

/// The way to the next branch leads to the first folder with images in the branches that come after
/// that of the parent, and the way to the previous one to the last in the branches before it. Where
/// there is none, there is no way: it does not go round.
pub proof fn law_branch_moves(
    a: AppView,
    known: Seq<NodeView>,
    above: PathView,
    height: nat,
    j: int,
)
    requires
        is_tree(known, above, height),
        0 < height <= 10,
        0 <= j < lookup(known, above)->0.children.len(),
        a.list is Some,
        parent_of(a.list->0.dir) == Some(lookup(known, above)->0.children[j]),
    ensures
        ({
            let branches = lookup(known, above)->0.children;
            let after = visited_in(known, branches.skip(j + 1), (height - 1) as nat);
            let before = visited_in(known, branches.take(j), (height - 1) as nat);
            &&& folder_of(a, Move::NextBranch, known) == if after.len() > 0 {
                SearchView::Found(after[0])
            } else {
                SearchView::NotFound
            }
            &&& folder_of(a, Move::PrevBranch, known) == if before.len() > 0 {
                SearchView::Found(before[before.len() - 1])
            } else {
                SearchView::NotFound
            }
        }),
{
    lemma_branches_in_order(known, above, height, j, a.list->0.dir);
}

/// A folder counts as one with images if one of its files is an image; videos do not count, nor do
/// folders that are named like images.
pub proof fn law_folder_with_images(entries: Seq<EntryView>)
    ensures
        crate::file_list::holds_image(entries) <==> exists|i: int|
            0 <= i < entries.len() && entries[i].is_file && is_image_path(
                (#[trigger] entries[i]).path,
            ),
{
    if crate::file_list::holds_image(entries) {
        let i = choose|i: int|
            0 <= i < entries.len() && crate::file_list::is_image_entry(#[trigger] entries[i]);
        assert(entries[i].is_file && is_image_path(entries[i].path));
    }
    if exists|i: int|
        0 <= i < entries.len() && entries[i].is_file && is_image_path(
            (#[trigger] entries[i]).path,
        ) {
        let i = choose|i: int|
            0 <= i < entries.len() && entries[i].is_file && is_image_path(
                (#[trigger] entries[i]).path,
            );
        assert(crate::file_list::is_image_entry(entries[i]));
    }
}

/// Loading shows the current file and nothing else: a video is opened, a cached image is shown at
/// its size, any other image is decoded, and where there is no file, nothing is loaded. What was
/// shown before is gone, and all else stays.
pub proof fn law_load(a: AppView)
    requires
        distinct(a.cache.cached),
    ensures
        ({
            let (after, plan) = loaded(a);
            let at_file = a.list is Some && 0 <= a.list->0.index < a.list->0.files.len();
            &&& !at_file ==> plan is Nothing && after.image_size is None
            &&& at_file ==> loads_file_at(a, a.list->0.index, Some(plan))
            &&& plan is Cached ==> exists|i: int|
                0 <= i < a.cache.cached.len() && (#[trigger] a.cache.cached[i]).0
                    == a.list->0.files[a.list->0.index] && after.image_size == Some(
                    (a.cache.cached[i].1.size[0], a.cache.cached[i].1.size[1]),
                )
            &&& !(plan is Cached) ==> after.image_size is None && after.cache == a.cache
            &&& after.video is None && after.error is None
            &&& after.list == a.list && after.root == a.root
            &&& after.settings == a.settings && after.rotation == a.rotation
            &&& after.fit_mode == a.fit_mode && after.maximized == a.maximized
            &&& after.max_bytes == a.max_bytes && after.cache.awaited == a.cache.awaited
            &&& after.slideshow == (Slideshow { end_handled: false, ..a.slideshow })
        }),
{
    let (after, plan) = loaded(a);
    if plan is Cached {
        let file = a.list->0.files[a.list->0.index];
        let i = place(a.cache.cached, file);
        assert(a.cache.cached[i].0 == file);
    }
}

/// A slideshow that runs goes to the next file, the first after the last: at an image when its
/// interval has passed since the last move, at a video when the video has come to its end, and not
/// a second time for the same end. Otherwise it stays where it is.
pub proof fn law_slideshow(a: AppView, now: i64)
    requires
        is_among_files(a),
    ensures
        ({
            let n = a.list->0.files.len() as int;
            let i = a.list->0.index;
            let (after, plan) = slid(a, now);
            let due = a.slideshow.active && match a.video {
                None => now - a.slideshow.last_advance >= a.slideshow.tenths * 100_000,
                Some(player) => player.state is Finished && !a.slideshow.end_handled,
            };
            &&& due ==> has_gone_to(a, after, one_on(i, n), plan)
            &&& due ==> after.slideshow.last_advance == now && !after.slideshow.end_handled
            &&& !due ==> plan is None && after.list == a.list && after.video == a.video
            &&& !due ==> after.slideshow.last_advance == a.slideshow.last_advance
            &&& !due && a.video is Some && a.video->0.state is Finished ==> after.slideshow.end_handled
                == a.slideshow.end_handled
            &&& after.slideshow.active == a.slideshow.active
            &&& after.slideshow.tenths == a.slideshow.tenths
            &&& after.settings == a.settings && after.root == a.root && after.rotation == a.rotation
        }),
{
}

/// A notch of the wheel makes a video five percent louder or quieter, between silence and 200
/// percent.
pub proof fn law_volume(volume: int, louder: bool)
    requires
        0 <= volume <= 200,
    ensures
        louder && volume <= 195 ==> stepped_volume(volume, louder) == volume + 5,
        louder && volume > 195 ==> stepped_volume(volume, louder) == 200,
        !louder && volume >= 5 ==> stepped_volume(volume, louder) == volume - 5,
        !louder && volume < 5 ==> stepped_volume(volume, louder) == 0,
{
}

/// What the settings record is what the viewer shows: how the image is turned and fitted, how fast
/// the slideshow is, and how folders and files are sorted. Volume, audio offset and the size of the
/// window are recorded elsewhere and stay, and whether the slideshow runs is not recorded.
pub proof fn law_recorded(a: AppView)
    ensures
        ({
            let s = recorded(a);
            &&& s.rotation == a.rotation
            &&& s.fit_mode is OriginalSize <==> a.fit_mode is OriginalSize
            &&& s.slideshow_tenths == a.slideshow.tenths
            &&& s.volume == a.settings.volume
            &&& s.audio_offset_ms == a.settings.audio_offset_ms
            &&& s.maximized == a.settings.maximized
            &&& a.list is Some ==> {
                let l = a.list->0;
                &&& s.sort_key is ModifiedDate <==> l.rule.sort_key is ModifiedDate
                &&& s.sort_order is Descending <==> l.rule.sort_order is Descending
                &&& s.group_by is ModifiedDate <==> l.rule.group_by is ModifiedDate
                &&& s.file_sort_key is ModifiedDate <==> l.file_key is ModifiedDate
                &&& s.file_sort_order is Descending <==> l.file_order is Descending
            }
            &&& a.list is None ==> s.sort_key == a.settings.sort_key && s.sort_order
                == a.settings.sort_order && s.group_by == a.settings.group_by && s.file_sort_key
                == a.settings.file_sort_key && s.file_sort_order == a.settings.file_sort_order
        }),
{
}

/// An image that was decoded is shown at its size and kept, to be the last to leave; it is awaited no
/// longer. Where it could not be decoded, the reason is told. All else stays.
pub proof fn law_image_decoded(a: AppView, path: PathView, result: Result<ColorImage, String>)
    ensures
        ({
            let after = with_image(a, path, result);
            &&& result matches Ok(image) ==> {
                &&& after.image_size == Some((image.size[0], image.size[1]))
                &&& after.cache.cached.len() > 0
                &&& after.cache.cached.last() == (path, image)
                &&& !after.cache.awaited.contains(path)
                &&& after.error == a.error
            }
            &&& result matches Err(e) ==> after.error == Some(e@) && after.image_size == a.image_size
                && after.cache == a.cache
            &&& after.list == a.list && after.video == a.video && after.settings == a.settings
            &&& after.root == a.root && after.slideshow == a.slideshow
        }),
{
}

/// A video that was opened is shown at its size and is as loud as the settings say, and no louder
/// than 200 percent. Where it could not be opened, the reason is told.
pub proof fn law_video_opened(a: AppView, result: Result<VideoPlayer, String>)
    ensures
        ({
            let after = with_video(a, result);
            &&& result matches Ok(player) ==> {
                let shown = after.video->0;
                &&& after.video is Some
                &&& after.image_size == Some(
                    (player.video_size[0] as usize, player.video_size[1] as usize),
                )
                &&& a.settings.volume <= 200 ==> shown.volume == a.settings.volume
                &&& a.settings.volume > 200 ==> shown.volume == 200
                &&& shown == (VideoPlayer { volume: shown.volume, ..player })
                &&& after.error == a.error
            }
            &&& result matches Err(e) ==> after.error == Some(e@) && after.video == a.video
            &&& after.list == a.list && after.cache == a.cache && after.settings == a.settings
        }),
{
}

/// The wheel changes the volume of the video by five percent, and the settings remember it. Without
/// a video it changes nothing.
pub proof fn law_scroll(a: AppView, louder: bool)
    requires
        a.video matches Some(player) ==> player.volume <= 200,
    ensures
        ({
            let after = scrolled(a, louder);
            &&& a.video is None ==> after == a
            &&& a.video matches Some(player) ==> {
                let v = player.volume as int;
                let to = after.video->0.volume as int;
                &&& after.video is Some
                &&& louder ==> to == v + 5 || (v > 195 && to == 200)
                &&& !louder ==> to == v - 5 || (v < 5 && to == 0)
                &&& after.settings.volume == to
                &&& after.video->0.state == player.state
                &&& after.settings == (Settings { volume: after.settings.volume, ..a.settings })
            }
            &&& after.list == a.list && after.slideshow == a.slideshow
        }),
{
}

/// A slideshow that is switched on shows the current file for its whole interval, unless it ran
/// already; switching it off and pacing it change nothing else. The interval lies between one second
/// and thirty.
pub proof fn law_slideshow_switches(s: Slideshow, on: bool, tenths: int, now: i64)
    ensures
        switched(s, on, now).active == on,
        on && !s.active ==> switched(s, on, now).last_advance == now,
        !on || s.active ==> switched(s, on, now).last_advance == s.last_advance,
        switched(s, on, now).tenths == s.tenths,
        10 <= tenths <= 300 ==> with_interval(s, tenths).tenths == tenths,
        tenths < 10 ==> with_interval(s, tenths).tenths == 10,
        tenths > 300 ==> with_interval(s, tenths).tenths == 300,
        with_interval(s, tenths).active == s.active,
        with_interval(s, tenths).last_advance == s.last_advance,
{
}

/// Until a slideshow moves on, there is the rest of its interval to wait, and at least a hundredth
/// of a second.
pub proof fn law_time_left(s: Slideshow, now: i64)
    requires
        now >= s.last_advance,
    ensures
        ({
            let rest = s.tenths * 100_000 - (now - s.last_advance);
            left_to_wait(s, now) == if rest > 10_000 {
                rest
            } else {
                10_000
            }
        }),
{
}

/// The menu shows by what is sorted, and sorting by name, ascending and ungrouped where nothing is
/// listed.
pub proof fn law_menu_shows(a: AppView)
    ensures
        a.list matches Some(l) ==> folder_key(a) == l.rule.sort_key && folder_order(a)
            == l.rule.sort_order && grouping(a) == l.rule.group_by && file_key(a) == l.file_key
            && file_order(a) == l.file_order,
        a.list is None ==> folder_key(a) is Name && folder_order(a) is Ascending && grouping(a) is Off
            && file_key(a) is Name && file_order(a) is Ascending,
{
}

/// The audio offset can be set to a fifth of a second either way, and a window is switched between
/// its own size and that of the screen.
pub proof fn law_offset_and_size(a: AppView, millis: i32, remember: bool)
    ensures
        -200 <= millis <= 200 ==> with_offset(a, millis).settings.audio_offset_ms == millis,
        millis < -200 ==> with_offset(a, millis).settings.audio_offset_ms == -200,
        millis > 200 ==> with_offset(a, millis).settings.audio_offset_ms == 200,
        with_offset(a, millis).settings.volume == a.settings.volume,
        with_offset(a, millis).list == a.list,
        with_size_switched(a, remember).maximized != a.maximized,
        remember ==> with_size_switched(a, remember).settings.maximized != a.maximized,
        !remember ==> with_size_switched(a, remember).settings == a.settings,
        with_size_switched(a, remember).list == a.list,
        with_size_switched(a, remember).rotation == a.rotation,
{
}

/// A setting stands for what it is called.
pub proof fn law_settings_mean(s: Settings)
    ensures
        fit_of(s.fit_mode) is OriginalSize <==> s.fit_mode is OriginalSize,
        key_of(s.sort_key) is ModifiedDate <==> s.sort_key is ModifiedDate,
        order_of(s.sort_order) is Descending <==> s.sort_order is Descending,
        grouping_of(s.group_by) is ModifiedDate <==> s.group_by is ModifiedDate,
        key_of(s.file_sort_key) is ModifiedDate <==> s.file_sort_key is ModifiedDate,
        order_of(s.file_sort_order) is Descending <==> s.file_sort_order is Descending,
{
}

/// What is known of a folder is what was read of that very folder.
pub proof fn law_known_folder(known: Seq<NodeView>, d: PathView)
    ensures
        lookup(known, d) matches Some(node) ==> node.dir == d && known.contains(node),
        lookup(known, d) is None ==> forall|k: int| 0 <= k < known.len() ==> (#[trigger] known[k]).dir
            != d,
    decreases known.len(),
{
    if known.len() > 0 {
        let (first, rest) = (known[0], known.drop_first());
        law_known_folder(rest, d);
        assert(known.contains(first));
        assert forall|node: NodeView| rest.contains(node) implies known.contains(node) by {
            let k = rest.index_of(node);
            assert(known[k + 1] == node);
        }
        if lookup(known, d) is None {
            assert forall|k: int| 0 <= k < known.len() implies (#[trigger] known[k]).dir != d by {
                assert(k > 0 ==> known[k] == rest[k - 1]);
            }
        }
    }
}

/// Whatever is known of the folders, the way to another one leads to a folder that was read and has
/// images, or asks to read one that was not.
pub proof fn law_found_folder_has_images(a: AppView, m: Move, known: Seq<NodeView>)
    ensures
        folder_of(a, m, known) matches SearchView::Found(d) ==> exists|k: int|
            0 <= k < known.len() && (#[trigger] known[k]).dir == d && known[k].has_images,
        folder_of(a, m, known) matches SearchView::Unread(d) ==> forall|k: int|
            0 <= k < known.len() ==> (#[trigger] known[k]).dir != d,
{
    if a.list is Some {
        assert(extends(known, known));
        lemma_search_sound(known, known, a.list->0.dir);
        match folder_of(a, m, known) {
            SearchView::Found(d) => {
                law_known_folder(known, d);
                assert(known[known.index_of(lookup(known, d)->0)].dir == d);
            },
            SearchView::Unread(d) => {
                law_known_folder(known, d);
            },
            SearchView::NotFound => {},
        }
    }
}

/// The end of a video moves a running slideshow on once, however often it is seen, and the end of
/// the next one moves it on again.
pub proof fn law_each_video_ends_once(s: Slideshow, first: i64, second: i64, third: i64)
    ensures
        ({
            let running = ticked(s, VideoStatus::Running, first).0;
            let (ended, advances) = ticked(running, VideoStatus::Ended, second);
            let (again, advances_again) = ticked(ended, VideoStatus::Ended, third);
            &&& !ticked(s, VideoStatus::Running, first).1 && running.last_advance == s.last_advance
            &&& advances == s.active && !advances_again
            &&& s.active ==> again.last_advance == second
            &&& !s.active ==> again.last_advance == s.last_advance
            &&& again.active == s.active && again.tenths == s.tenths
            &&& s.active ==> ticked(
                ticked(again, VideoStatus::Absent, third).0,
                VideoStatus::Ended,
                third,
            ).1
        }),
{
}

} // verus!
