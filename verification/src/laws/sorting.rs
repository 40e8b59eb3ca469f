//! The order of files and folders in a listing.

use vstd::prelude::*;

verus! {

use crate::file_list::{
    file_items, file_rule, folder_entries, folder_items, is_file_listing, is_folder_listing,
    is_image_path, is_video_path, shown_entries, EntryView,
};
use crate::ordering::{
    is_stable_order, natural_order, FileTime, SortKey, SortOrder, SortRule,
};
use crate::path::{file_name_of, PathView};

/// `order` names each of `n` things once.
pub open spec fn names_each_once(order: Seq<int>, n: int) -> bool {
    &&& order.len() == n
    &&& forall|i: int| 0 <= i < n ==> 0 <= #[trigger] order[i] < n
    &&& forall|i: int, j: int| 0 <= i < j < n ==> #[trigger] order[i] != #[trigger] order[j]
}

/// One time is earlier than another.
pub open spec fn earlier(a: FileTime, b: FileTime) -> bool {
    a.secs < b.secs || (a.secs == b.secs && a.nanos < b.nanos)
}

/// The day of a time, counted from the beginning of 1970; earlier times count as its first day.
pub open spec fn day_of(t: FileTime) -> int {
    if t.secs > 0 {
        t.secs as int / 86_400
    } else {
        0
    }
}

/// Two times lie in one date group, seen from `now`: today or later, in the last seven days, in the
/// last thirty, in the last 365, or before that.
pub open spec fn in_one_group(a: FileTime, b: FileTime, now: FileTime) -> bool {
    let (x, y) = (day_of(now) - day_of(a), day_of(now) - day_of(b));
    &&& (x <= 0 <==> y <= 0)
    &&& (x <= 7 <==> y <= 7)
    &&& (x <= 30 <==> y <= 30)
    &&& (x <= 365 <==> y <= 365)
}

/// The name by which an entry is sorted.
pub open spec fn sorted_name(e: EntryView) -> Seq<char> {
    match file_name_of(e.path) {
        Some(name) => name,
        None => Seq::empty(),
    }
}

/// The entry `a` has to come before `b` in an ascending listing by name.
pub open spec fn named_before(a: EntryView, b: EntryView) -> bool {
    match (a.system_place, b.system_place) {
        (Some(x), Some(y)) => x < y,
        (Some(_), None) => true,
        (None, Some(_)) => false,
        (None, None) => natural_order(sorted_name(a), sorted_name(b)) is Before,
    }
}

/// Neither of two entries has to come before the other in a listing by name.
pub open spec fn named_alike(a: EntryView, b: EntryView) -> bool {
    match (a.system_place, b.system_place) {
        (Some(x), Some(y)) => x == y,
        (None, None) => natural_order(sorted_name(a), sorted_name(b)) is Same,
        _ => false,
    }
}

/// `dirs` are listed in `order`: of any two, the one that is listed first is the earlier one, or the
/// one that comes first by name, as the key says; or the other way round, as the direction says.
/// Where they are the same in that, the one that was found first is listed first.
pub open spec fn listed_by_key(
    dirs: Seq<EntryView>,
    first: int,
    second: int,
    key: SortKey,
    direction: SortOrder,
) -> bool {
    let (a, b) = (dirs[first], dirs[second]);
    match (key, direction) {
        (SortKey::ModifiedDate, SortOrder::Ascending) => earlier(a.modified, b.modified) || (
        a.modified == b.modified && first < second),
        (SortKey::ModifiedDate, SortOrder::Descending) => earlier(b.modified, a.modified) || (
        a.modified == b.modified && first < second),
        (SortKey::Name, SortOrder::Ascending) => named_before(a, b) || (named_alike(a, b) && first
            < second),
        (SortKey::Name, SortOrder::Descending) => (match (a.system_place, b.system_place) {
            (Some(x), Some(y)) => x > y,
            (Some(_), None) => false,
            (None, Some(_)) => true,
            (None, None) => natural_order(sorted_name(a), sorted_name(b)) is After,
        }) || (named_alike(a, b) && first < second),
    }
}

/// A folder listing holds each folder among the entries once, and nothing else. Folders of one date
/// group, and all folders where they are not grouped, stand in the order of their dates or names,
/// ascending or descending as was chosen. Of two groups the newer one comes first in an ascending
/// listing, and last in a descending one.
pub proof fn law_folder_order(
    paths: Seq<PathView>,
    entries: Seq<EntryView>,
    rule: SortRule,
    now: FileTime,
) -> (order: Seq<int>)
    requires
        is_folder_listing(paths, entries, rule, now),
    ensures
        ({
            let dirs = entries.filter(|e: EntryView| e.is_dir);
            &&& names_each_once(order, dirs.len() as int)
            &&& paths.len() == dirs.len()
            &&& forall|i: int| 0 <= i < paths.len() ==> #[trigger] paths[i] == dirs[order[i]].path
            &&& forall|i: int, j: int|
                0 <= i < j < order.len() ==> {
                    let (a, b) = (dirs[#[trigger] order[i]], dirs[#[trigger] order[j]]);
                    if rule.group_by is Off || in_one_group(a.modified, b.modified, now) {
                        listed_by_key(dirs, order[i], order[j], rule.sort_key, rule.sort_order)
                    } else {
                        (rule.sort_order is Ascending) == (day_of(a.modified) > day_of(b.modified))
                    }
                }
        }),
{
    let dirs = folder_entries(entries);
    assert(dirs == entries.filter(|e: EntryView| e.is_dir));
    let items = folder_items(dirs, now);
    let order = choose|order: Seq<int>|
        {
            &&& #[trigger] is_stable_order(order, items, 0, dirs.len() as int, rule)
            &&& paths == order.map_values(|i: int| dirs[i].path)
        };
    assert forall|i: int, j: int| 0 <= i < j < order.len() implies {
        let (a, b) = (dirs[#[trigger] order[i]], dirs[#[trigger] order[j]]);
        if rule.group_by is Off || in_one_group(a.modified, b.modified, now) {
            listed_by_key(dirs, order[i], order[j], rule.sort_key, rule.sort_order)
        } else {
            (rule.sort_order is Ascending) == (day_of(a.modified) > day_of(b.modified))
        }
    } by {
        let (a, b) = (items[order[i]], items[order[j]]);
        assert(crate::ordering::comes_before(items, order[i], order[j], rule));
    }
    order
}

/// The files that are listed are those that are images or videos.
pub proof fn lemma_shown_is_listed(entries: Seq<EntryView>)
    ensures
        shown_entries(entries) == entries.filter(
            |e: EntryView| e.is_file && (is_image_path(e.path) || is_video_path(e.path)),
        ),
{
    assert((|e: EntryView| crate::file_list::is_shown(e)) =~= (|e: EntryView|
        e.is_file && (is_image_path(e.path) || is_video_path(e.path))));
}

/// A file listing holds each image and each video among the files of a folder once, and nothing
/// else, in the order of their dates or names, ascending or descending as was chosen.
pub proof fn law_file_order(
    paths: Seq<PathView>,
    entries: Seq<EntryView>,
    key: SortKey,
    direction: SortOrder,
) -> (order: Seq<int>)
    requires
        is_file_listing(paths, entries, key, direction),
    ensures
        ({
            let files = entries.filter(
                |e: EntryView| e.is_file && (is_image_path(e.path) || is_video_path(e.path)),
            );
            &&& names_each_once(order, files.len() as int)
            &&& paths.len() == files.len()
            &&& forall|i: int| 0 <= i < paths.len() ==> #[trigger] paths[i] == files[order[i]].path
            &&& forall|i: int, j: int|
                0 <= i < j < order.len() ==> listed_by_key(
                    files,
                    #[trigger] order[i],
                    #[trigger] order[j],
                    key,
                    direction,
                )
        }),
{
    let shown = shown_entries(entries);
    lemma_shown_is_listed(entries);
    let items = file_items(shown);
    let rule = file_rule(key, direction);
    let order = choose|order: Seq<int>|
        {
            &&& #[trigger] is_stable_order(order, items, 0, shown.len() as int, rule)
            &&& paths == order.map_values(|i: int| shown[i].path)
        };
    assert forall|i: int, j: int| 0 <= i < j < order.len() implies listed_by_key(
        shown,
        #[trigger] order[i],
        #[trigger] order[j],
        key,
        direction,
    ) by {
        assert(crate::ordering::comes_before(items, order[i], order[j], rule));
    }
    order
}

} // verus!
