//! The files of one folder, in the order in which they are shown, and a place among them.

use vstd::prelude::*;

pub use crate::ordering::{
    classify_date_group, compare_logical, days_since_epoch, DateGroup, FileTime, GroupBy, SortKey,
    SortOrder, SortRule,
};

use crate::ordering::{stable_order, SortItem};
use crate::path::{position_of, MediaPath};
use crate::text::is_text_ignoring_case;

verus! {

use crate::ordering::{
    epoch_days, group_of_age, is_stable_order, item_views, lemma_order_is_onto, positions, ItemView,
};
use crate::path::{file_name_of, file_name_or_empty, is_extension_of, path_views, PathView};
use crate::text::lowered;

/// Whether the path has the given extension, letter case aside.
pub open spec fn has_extension(p: PathView, lower: Seq<char>) -> bool {
    file_name_of(p) is Some && exists|e: Seq<char>|
        #[trigger] is_extension_of(e, file_name_of(p)->0) && lowered(e) == lower
}

/// Whether the path names a still image that the viewer shows.
pub open spec fn is_image_path(p: PathView) -> bool {
    ||| has_extension(p, "jpg"@)
    ||| has_extension(p, "jpeg"@)
    ||| has_extension(p, "png"@)
    ||| has_extension(p, "gif"@)
    ||| has_extension(p, "bmp"@)
    ||| has_extension(p, "webp"@)
    ||| has_extension(p, "tiff"@)
    ||| has_extension(p, "tif"@)
    ||| has_extension(p, "heic"@)
    ||| has_extension(p, "heif"@)
}

/// Whether the path names a video that the viewer plays.
pub open spec fn is_video_path(p: PathView) -> bool {
    ||| has_extension(p, "mp4"@)
    ||| has_extension(p, "webm"@)
    ||| has_extension(p, "mkv"@)
    ||| has_extension(p, "avi"@)
    ||| has_extension(p, "mov"@)
    ||| has_extension(p, "wmv"@)
}

proof fn lemma_extension_unique(a: Seq<char>, b: Seq<char>, name: Seq<char>)
    requires
        is_extension_of(a, name),
        is_extension_of(b, name),
    ensures
        a == b,
{
    let n = name.len() as int;
    let i = choose|dot: int|
        {
            &&& 0 < dot < name.len()
            &&& name[dot] == '.'
            &&& a == #[trigger] name.subrange(dot + 1, name.len() as int)
            &&& !a.contains('.')
        };
    let j = choose|dot: int|
        {
            &&& 0 < dot < name.len()
            &&& name[dot] == '.'
            &&& b == #[trigger] name.subrange(dot + 1, name.len() as int)
            &&& !b.contains('.')
        };
    if i < j {
        assert(a[j - i - 1] == '.');
    }
    if j < i {
        assert(b[i - j - 1] == '.');
    }
}

/// Whether the path has the given extension, letter case aside.
pub fn extension_is(path: &MediaPath, lower: &str) -> (r: bool)
    ensures
        r == has_extension(path@, lower@),
{
    match path.extension() {
        Some(e) => {
            let r = is_text_ignoring_case(e, lower);
            proof {
                let name = file_name_of(path@)->0;
                if has_extension(path@, lower@) {
                    let f = choose|f: Seq<char>|
                        #[trigger] is_extension_of(f, name) && lowered(f) == lower@;
                    lemma_extension_unique(e@, f, name);
                }
            }
            r
        },
        None => false,
    }
}

/// Whether the path has the extension of a still image that the viewer shows.
pub fn is_supported_image(path: &MediaPath) -> (r: bool)
    ensures
        r == is_image_path(path@),
{
    extension_is(path, "jpg") || extension_is(path, "jpeg") || extension_is(path, "png")
        || extension_is(path, "gif") || extension_is(path, "bmp") || extension_is(path, "webp")
        || extension_is(path, "tiff") || extension_is(path, "tif") || extension_is(path, "heic")
        || extension_is(path, "heif")
}

/// Whether the path has the extension of a video that the viewer plays.
pub fn is_video_file(path: &MediaPath) -> (r: bool)
    ensures
        r == is_video_path(path@),
{
    extension_is(path, "mp4") || extension_is(path, "webm") || extension_is(path, "mkv")
        || extension_is(path, "avi") || extension_is(path, "mov") || extension_is(path, "wmv")
}

/// One entry of a folder.
#[derive(Clone, Debug, PartialEq, Eq)]
pub struct DirEntry {
    pub path: MediaPath,
    pub is_file: bool,
    pub is_dir: bool,
    /// When the entry was last modified; the Unix epoch where that is not known.
    pub modified: FileTime,
    /// The place of the entry's name among those of its folder, where the system has an order of
    /// names of its own.
    pub system_place: Option<u32>,
}

/// The mathematical form of a folder entry.
pub struct EntryView {
    pub path: PathView,
    pub is_file: bool,
    pub is_dir: bool,
    pub modified: FileTime,
    pub system_place: Option<u32>,
}

impl View for DirEntry {
    type V = EntryView;

    open spec fn view(&self) -> EntryView {
        EntryView {
            path: self.path@,
            is_file: self.is_file,
            is_dir: self.is_dir,
            modified: self.modified,
            system_place: self.system_place,
        }
    }
}

/// The views of a sequence of entries.
pub open spec fn entry_views(entries: Seq<DirEntry>) -> Seq<EntryView> {
    entries.map_values(|e: DirEntry| e@)
}

/// Whether an entry is a file that the viewer shows or plays.
pub open spec fn is_shown(e: EntryView) -> bool {
    e.is_file && (is_image_path(e.path) || is_video_path(e.path))
}

/// Whether an entry is a still image file.
pub open spec fn is_image_entry(e: EntryView) -> bool {
    e.is_file && is_image_path(e.path)
}

/// The entries that are files to show.
pub open spec fn shown_entries(entries: Seq<EntryView>) -> Seq<EntryView> {
    entries.filter(|e: EntryView| is_shown(e))
}

/// The entries that are folders.
pub open spec fn folder_entries(entries: Seq<EntryView>) -> Seq<EntryView> {
    entries.filter(|e: EntryView| e.is_dir)
}

/// What the order of a listing reads of an entry.
pub open spec fn item_of(e: EntryView, group: DateGroup) -> ItemView {
    ItemView {
        name: file_name_or_empty(e.path),
        modified: e.modified,
        group,
        system_place: e.system_place,
    }
}

/// What the order of a file listing reads of its entries; files are not grouped.
pub open spec fn file_items(entries: Seq<EntryView>) -> Seq<ItemView> {
    entries.map_values(|e: EntryView| item_of(e, DateGroup::Today))
}

/// What the order of a folder listing reads of its entries, seen from `now`.
pub open spec fn folder_items(entries: Seq<EntryView>, now: FileTime) -> Seq<ItemView> {
    entries.map_values(
        |e: EntryView| item_of(e, group_of_age(epoch_days(now) - epoch_days(e.modified))),
    )
}

/// Whether `paths` are the paths of `entries`, each once, in the stable order of their `items`
/// under the rule.
pub open spec fn is_arranged(
    paths: Seq<PathView>,
    entries: Seq<EntryView>,
    items: Seq<ItemView>,
    rule: SortRule,
) -> bool {
    exists|order: Seq<int>|
        {
            &&& #[trigger] is_stable_order(order, items, 0, entries.len() as int, rule)
            &&& paths == order.map_values(|i: int| entries[i].path)
        }
}

/// The rule by which files are listed.
pub open spec fn file_rule(key: SortKey, order: SortOrder) -> SortRule {
    SortRule { sort_key: key, sort_order: order, group_by: GroupBy::Off }
}

/// Whether `paths` is the listing of a folder with the given entries.
pub open spec fn is_file_listing(
    paths: Seq<PathView>,
    entries: Seq<EntryView>,
    key: SortKey,
    order: SortOrder,
) -> bool {
    is_arranged(paths, shown_entries(entries), file_items(shown_entries(entries)), file_rule(key, order))
}

/// Whether `paths` is the list of the folders among the given entries.
pub open spec fn is_folder_listing(
    paths: Seq<PathView>,
    entries: Seq<EntryView>,
    rule: SortRule,
    now: FileTime,
) -> bool {
    is_arranged(paths, folder_entries(entries), folder_items(folder_entries(entries), now), rule)
}

/// A listing holds exactly the shown files of its folder: every path in it is the path of one of
/// them, and there are equally many.
pub proof fn lemma_listing_holds_shown_files(
    paths: Seq<PathView>,
    entries: Seq<EntryView>,
    key: SortKey,
    order: SortOrder,
)
    requires
        is_file_listing(paths, entries, key, order),
    ensures
        paths.len() == shown_entries(entries).len(),
        forall|i: int| 0 <= i < paths.len() ==> is_image_path(#[trigger] paths[i]) || is_video_path(
            paths[i],
        ),
        forall|k: int|
            0 <= k < entries.len() && is_shown(#[trigger] entries[k]) ==> paths.contains(
                entries[k].path,
            ),
{
    let shown = shown_entries(entries);
    let items = file_items(shown);
    let rule = file_rule(key, order);
    let ord = choose|ord: Seq<int>|
        {
            &&& #[trigger] is_stable_order(ord, items, 0, shown.len() as int, rule)
            &&& paths == ord.map_values(|i: int| shown[i].path)
        };
    let pred = |e: EntryView| is_shown(e);
    assert forall|i: int| 0 <= i < paths.len() implies is_image_path(#[trigger] paths[i])
        || is_video_path(paths[i]) by {
        entries.lemma_filter_pred(pred, ord[i]);
        assert(pred(shown[ord[i]]));
    }
    lemma_order_is_onto(ord, items, shown.len() as int, rule);
    assert forall|k: int| 0 <= k < entries.len() && is_shown(#[trigger] entries[k]) implies
        paths.contains(entries[k].path) by {
        entries.lemma_filter_contains(pred, k);
        let m = choose|m: int| 0 <= m < shown.len() && shown[m] == entries[k];
        assert(ord.contains(m));
        let q = choose|q: int| 0 <= q < ord.len() && ord[q] == m;
        assert(paths[q] == entries[k].path);
    }
}

/// The positions of the items in order, applied to the entries they were made of.
fn arranged_paths(entries: &Vec<DirEntry>, items: &Vec<SortItem>, rule: SortRule) -> (r: Vec<
    MediaPath,
>)
    requires
        entries@.len() == items@.len(),
    ensures
        is_arranged(path_views(r@), entry_views(entries@), item_views(items@), rule),
{
    let order = stable_order(items, rule);
    let ghost ord = positions(order@);
    let n: usize = order.len();
    let mut r: Vec<MediaPath> = Vec::new();
    let mut i: usize = 0;
    while i < n
        invariant
            i <= n,
            n == order@.len(),
            ord == positions(order@),
            is_stable_order(ord, item_views(items@), 0, entries@.len() as int, rule),
            r@.len() == i,
            forall|j: int| 0 <= j < i ==> (#[trigger] r@[j])@ == entries@[ord[j]].path@,
        decreases n - i,
    {
        assert(ord[i as int] == order@[i as int]);
        r.push(entries[order[i]].path.copied());
        i += 1;
    }
    proof {
        let ev = entry_views(entries@);
        assert(path_views(r@) =~= ord.map_values(|i: int| ev[i].path));
        assert(is_stable_order(ord, item_views(items@), 0, ev.len() as int, rule));
    }
    r
}

/// A copy of an entry.
fn copy_entry(e: &DirEntry) -> (r: DirEntry)
    ensures
        r@ == e@,
{
    DirEntry {
        path: e.path.copied(),
        is_file: e.is_file,
        is_dir: e.is_dir,
        modified: e.modified,
        system_place: e.system_place,
    }
}

/// The files to show among the entries of a folder, in listing order.
pub fn list_files(entries: &Vec<DirEntry>, key: SortKey, order: SortOrder) -> (r: Vec<MediaPath>)
    ensures
        is_file_listing(path_views(r@), entry_views(entries@), key, order),
{
    let ghost all = entry_views(entries@);
    let ghost pred = |e: EntryView| is_shown(e);
    let mut kept: Vec<DirEntry> = Vec::new();
    let mut items: Vec<SortItem> = Vec::new();
    let n: usize = entries.len();
    let mut i: usize = 0;
    while i < n
        invariant
            i <= n,
            n == entries@.len(),
            all == entry_views(entries@),
            pred == (|e: EntryView| is_shown(e)),
            entry_views(kept@) == all.take(i as int).filter(pred),
            item_views(items@) == file_items(entry_views(kept@)),
            items@.len() == kept@.len(),
        decreases n - i,
    {
        let e = &entries[i];
        let ghost before = kept@;
        let ghost items_before = items@;
        assert(all.take(i + 1).drop_last() =~= all.take(i as int));
        assert(all.take(i + 1).last() == e@);
        assert(all.take(i + 1).filter(pred) == if is_shown(e@) {
            all.take(i as int).filter(pred).push(e@)
        } else {
            all.take(i as int).filter(pred)
        }) by {
            reveal(Seq::filter);
        }
        if e.is_file && (is_supported_image(&e.path) || is_video_file(&e.path)) {
            kept.push(copy_entry(e));
            items.push(
                SortItem {
                    name: e.path.file_name_text(),
                    modified: e.modified,
                    group: DateGroup::Today,
                    system_place: e.system_place,
                },
            );
            assert(entry_views(kept@) =~= entry_views(before).push(e@));
            assert(item_views(items@) =~= item_views(items_before).push(
                item_of(e@, DateGroup::Today),
            ));
            assert(file_items(entry_views(kept@)) =~= file_items(entry_views(before)).push(
                item_of(e@, DateGroup::Today),
            ));
        }
        i += 1;
    }
    assert(all.take(n as int) =~= all);
    arranged_paths(&kept, &items, SortRule { sort_key: key, sort_order: order, group_by: GroupBy::Off })
}

/// The folders among the entries of a folder, in listing order, seen from `now`.
pub fn sorted_child_dirs(entries: &Vec<DirEntry>, rule: SortRule, now: FileTime) -> (r: Vec<
    MediaPath,
>)
    ensures
        is_folder_listing(path_views(r@), entry_views(entries@), rule, now),
{
    let ghost all = entry_views(entries@);
    let ghost pred = |e: EntryView| e.is_dir;
    let mut kept: Vec<DirEntry> = Vec::new();
    let mut items: Vec<SortItem> = Vec::new();
    let n: usize = entries.len();
    let mut i: usize = 0;
    while i < n
        invariant
            i <= n,
            n == entries@.len(),
            all == entry_views(entries@),
            pred == (|e: EntryView| e.is_dir),
            entry_views(kept@) == all.take(i as int).filter(pred),
            item_views(items@) == folder_items(entry_views(kept@), now),
            items@.len() == kept@.len(),
        decreases n - i,
    {
        let e = &entries[i];
        let ghost before = kept@;
        let ghost items_before = items@;
        let ghost group = group_of_age(epoch_days(now) - epoch_days(e@.modified));
        assert(all.take(i + 1).drop_last() =~= all.take(i as int));
        assert(all.take(i + 1).last() == e@);
        assert(all.take(i + 1).filter(pred) == if e@.is_dir {
            all.take(i as int).filter(pred).push(e@)
        } else {
            all.take(i as int).filter(pred)
        }) by {
            reveal(Seq::filter);
        }
        if e.is_dir {
            kept.push(copy_entry(e));
            items.push(
                SortItem {
                    name: e.path.file_name_text(),
                    modified: e.modified,
                    group: classify_date_group(e.modified, now),
                    system_place: e.system_place,
                },
            );
            assert(entry_views(kept@) =~= entry_views(before).push(e@));
            assert(item_views(items@) =~= item_views(items_before).push(item_of(e@, group)));
            assert(folder_items(entry_views(kept@), now) =~= folder_items(
                entry_views(before),
                now,
            ).push(item_of(e@, group)));
        }
        i += 1;
    }
    assert(all.take(n as int) =~= all);
    arranged_paths(&kept, &items, rule)
}

/// Whether a folder with the given entries holds a still image.
pub open spec fn holds_image(entries: Seq<EntryView>) -> bool {
    exists|i: int| 0 <= i < entries.len() && is_image_entry(#[trigger] entries[i])
}

/// Whether a folder with the given entries holds at least one supported image file.
pub fn directory_has_images(entries: &Vec<DirEntry>) -> (r: bool)
    ensures
        r == holds_image(entry_views(entries@)),
{
    let ghost all = entry_views(entries@);
    let n: usize = entries.len();
    let mut i: usize = 0;
    while i < n
        invariant
            i <= n,
            n == entries@.len(),
            all == entry_views(entries@),
            forall|j: int| 0 <= j < i ==> !is_image_entry(#[trigger] all[j]),
        decreases n - i,
    {
        assert(all[i as int] == entries@[i as int]@);
        if entries[i].is_file && is_supported_image(&entries[i].path) {
            return true;
        }
        i += 1;
    }
    false
}

/// The keys that move by a page.
#[derive(Clone, Copy, Debug, PartialEq, Eq, Structural)]
pub enum PageKey {
    Up,
    Down,
}

/// How many files a page key moves by.
pub const PAGE_STEP: usize = 5;

/// The files of one folder in listing order, and the current one.
pub struct FileList {
    pub files: Vec<MediaPath>,
    pub current_index: usize,
    pub directory: MediaPath,
    /// The page key that was the last to move, if it left the list at its edge.
    pub edge_key: Option<PageKey>,
    pub sort_key: SortKey,
    pub sort_order: SortOrder,
    pub group_by: GroupBy,
    pub file_sort_key: SortKey,
    pub file_sort_order: SortOrder,
}

/// The place after `index` in a list of `len` files, the first after the last.
pub open spec fn next_place(index: int, len: int) -> int {
    if index + 1 < len {
        index + 1
    } else {
        0
    }
}

/// The place before `index` in a list of `len` files, the last before the first.
pub open spec fn prev_place(index: int, len: int) -> int {
    if index > 0 {
        index - 1
    } else {
        len - 1
    }
}

/// Whether a page key can move no further from `index` in its direction.
pub open spec fn at_edge(index: int, len: int, key: PageKey) -> bool {
    match key {
        PageKey::Up => index <= 0,
        PageKey::Down => index >= len - 1,
    }
}

/// The place that a page key moves to. A press stops at the edge; at the edge, a press moves to
/// the opposite edge if the same key was the last to move (`pressed_again`).
pub open spec fn page_place(index: int, len: int, key: PageKey, pressed_again: bool) -> int {
    match key {
        PageKey::Up => if index <= 0 {
            if pressed_again {
                len - 1
            } else {
                0
            }
        } else if index < PAGE_STEP {
            0
        } else {
            index - PAGE_STEP
        },
        PageKey::Down => if index >= len - 1 {
            if pressed_again {
                0
            } else {
                len - 1
            }
        } else if index + PAGE_STEP > len - 1 {
            len - 1
        } else {
            index + PAGE_STEP
        },
    }
}

/// The mathematical form of a list: its files and the place among them, and how it is sorted.
#[verifier::ext_equal]
pub struct ListView {
    pub files: Seq<PathView>,
    pub index: int,
    pub dir: PathView,
    pub edge: Option<PageKey>,
    pub rule: SortRule,
    pub file_key: SortKey,
    pub file_order: SortOrder,
}

impl ListView {
    /// The current file, if there is one.
    pub open spec fn current(self) -> Option<PathView> {
        if 0 <= self.index < self.files.len() {
            Some(self.files[self.index])
        } else {
            None
        }
    }
}

impl View for FileList {
    type V = ListView;

    open spec fn view(&self) -> ListView {
        ListView {
            files: self.files(),
            index: self.index(),
            dir: self.dir(),
            edge: self.edge(),
            rule: self.folder_rule(),
            file_key: self.file_sort_key,
            file_order: self.file_sort_order,
        }
    }
}

impl FileList {
    /// The files in listing order.
    pub open spec fn files(&self) -> Seq<PathView> {
        path_views(self.files@)
    }

    /// The place of the current file.
    pub open spec fn index(&self) -> int {
        self.current_index as int
    }

    /// The folder that the list was built from.
    pub open spec fn dir(&self) -> PathView {
        self.directory@
    }

    /// The page key that was the last to move, if it left the list at its edge.
    pub open spec fn edge(&self) -> Option<PageKey> {
        self.edge_key
    }

    /// The current file, if there is one.
    pub open spec fn current(&self) -> Option<PathView> {
        if self.index() < self.files().len() {
            Some(self.files()[self.index()])
        } else {
            None
        }
    }

    /// The rule by which folders are listed.
    pub open spec fn folder_rule(&self) -> SortRule {
        SortRule { sort_key: self.sort_key, sort_order: self.sort_order, group_by: self.group_by }
    }

    /// Whether folder and sort settings are those of `other`.
    pub open spec fn same_settings(&self, other: &FileList) -> bool {
        &&& self.dir() == other.dir()
        &&& self.sort_key == other.sort_key
        &&& self.sort_order == other.sort_order
        &&& self.group_by == other.group_by
        &&& self.file_sort_key == other.file_sort_key
        &&& self.file_sort_order == other.file_sort_order
    }

    /// The list of a folder with the given entries, by ascending name, at its first file.
    pub fn from_directory(dir: &MediaPath, entries: &Vec<DirEntry>) -> (r: FileList)
        ensures
            is_file_listing(r.files(), entry_views(entries@), SortKey::Name, SortOrder::Ascending),
            r.index() == 0,
            r.dir() == dir@,
            r.edge() is None,
            r.sort_key is Name,
            r.sort_order is Ascending,
            r.group_by is Off,
            r.file_sort_key is Name,
            r.file_sort_order is Ascending,
    {
        let mut fl = FileList {
            files: Vec::new(),
            current_index: 0,
            directory: dir.copied(),
            edge_key: None,
            sort_key: SortKey::Name,
            sort_order: SortOrder::Ascending,
            group_by: GroupBy::Off,
            file_sort_key: SortKey::Name,
            file_sort_order: SortOrder::Ascending,
        };
        fl.scan_and_sort(entries);
        fl
    }

    /// Lists the folder anew from its entries. The current place stays where it is.
    pub fn scan_and_sort(&mut self, entries: &Vec<DirEntry>)
        ensures
            is_file_listing(
                final(self).files(),
                entry_views(entries@),
                old(self).file_sort_key,
                old(self).file_sort_order,
            ),
            final(self).index() == old(self).index(),
            final(self).edge() is None,
            final(self).same_settings(old(self)),
    {
        self.files = list_files(entries, self.file_sort_key, self.file_sort_order);
        self.edge_key = None;
    }

    /// Sets how neighbouring folders are sorted.
    pub fn re_sort_dirs(&mut self, key: SortKey, order: SortOrder)
        ensures
            final(self).sort_key == key,
            final(self).sort_order == order,
            final(self).files() == old(self).files(),
            final(self).index() == old(self).index(),
            final(self).edge() == old(self).edge(),
            final(self).dir() == old(self).dir(),
            final(self).group_by == old(self).group_by,
            final(self).file_sort_key == old(self).file_sort_key,
            final(self).file_sort_order == old(self).file_sort_order,
    {
        self.sort_key = key;
        self.sort_order = order;
    }

    /// Lists the folder anew in another order and stays at the current file if it is still
    /// there, at the current place if not.
    pub fn re_sort_files(&mut self, key: SortKey, order: SortOrder, entries: &Vec<DirEntry>)
        ensures
            is_file_listing(final(self).files(), entry_views(entries@), key, order),
            final(self).file_sort_key == key,
            final(self).file_sort_order == order,
            match old(self).current() {
                Some(p) => is_place_of(
                    final(self).index(),
                    old(self).index(),
                    final(self).files(),
                    p,
                ),
                None => final(self).index() == old(self).index(),
            },
            final(self).edge() is None,
            final(self).dir() == old(self).dir(),
            final(self).sort_key == old(self).sort_key,
            final(self).sort_order == old(self).sort_order,
            final(self).group_by == old(self).group_by,
    {
        let current_file = match self.current_path() {
            Some(p) => Some(p.copied()),
            None => None,
        };
        self.file_sort_key = key;
        self.file_sort_order = order;
        self.scan_and_sort(entries);
        if let Some(path) = current_file {
            self.set_current(&path);
        }
    }

    /// Sets whether neighbouring folders are grouped by date.
    pub fn set_group_by(&mut self, group: GroupBy)
        ensures
            final(self).group_by == group,
            final(self).files() == old(self).files(),
            final(self).index() == old(self).index(),
            final(self).edge() == old(self).edge(),
            final(self).dir() == old(self).dir(),
            final(self).sort_key == old(self).sort_key,
            final(self).sort_order == old(self).sort_order,
            final(self).file_sort_key == old(self).file_sort_key,
            final(self).file_sort_order == old(self).file_sort_order,
    {
        self.group_by = group;
    }

    /// Makes the file with the given path current; stays where it is if there is none.
    pub fn set_current(&mut self, path: &MediaPath)
        ensures
            is_place_of(final(self).index(), old(self).index(), old(self).files(), path@),
            final(self).files() == old(self).files(),
            final(self).edge() is None,
            final(self).same_settings(old(self)),
    {
        let found = position_of(&self.files, path);
        if let Some(i) = found {
            self.current_index = i;
        }
        self.edge_key = None;
        proof {
            let fs = old(self).files();
            if let Some(i) = found {
                assert(fs[i as int] == path@);
                assert forall|j: int| 0 <= j < i implies fs[j] != path@ by {
                    assert(old(self).files@[j]@ != path@);
                }
            } else {
                assert forall|j: int| 0 <= j < fs.len() implies fs[j] != path@ by {
                    assert(old(self).files@[j]@ != path@);
                }
            }
        }
    }

    /// The path of the current file.
    pub fn current_path(&self) -> (r: Option<&MediaPath>)
        ensures
            match r {
                Some(p) => self.current() == Some(p@),
                None => self.current() is None,
            },
    {
        if self.current_index < self.files.len() {
            assert(self.files()[self.index()] == self.files@[self.index()]@);
            Some(&self.files[self.current_index])
        } else {
            None
        }
    }

    /// The folder that the list was built from.
    pub fn directory(&self) -> (r: &MediaPath)
        ensures
            r@ == self.dir(),
    {
        &self.directory
    }

    /// Moves to the next file, from the last to the first. Returns whether there was another
    /// file to move to.
    pub fn next(&mut self) -> (moved: bool)
        ensures
            moved == (old(self).files().len() > 1),
            final(self).index() == if moved {
                next_place(old(self).index(), old(self).files().len() as int)
            } else {
                old(self).index()
            },
            final(self).edge() == if moved { None } else { old(self).edge() },
            final(self).files() == old(self).files(),
            final(self).same_settings(old(self)),
    {
        if self.files.len() <= 1 {
            return false;
        }
        if self.current_index < self.files.len() - 1 {
            self.current_index += 1;
        } else {
            self.current_index = 0;
        }
        self.edge_key = None;
        true
    }

    /// Moves to the previous file, from the first to the last. Returns whether there was another
    /// file to move to.
    pub fn prev(&mut self) -> (moved: bool)
        ensures
            moved == (old(self).files().len() > 1),
            final(self).index() == if moved {
                prev_place(old(self).index(), old(self).files().len() as int)
            } else {
                old(self).index()
            },
            final(self).edge() == if moved { None } else { old(self).edge() },
            final(self).files() == old(self).files(),
            final(self).same_settings(old(self)),
    {
        if self.files.len() <= 1 {
            return false;
        }
        if self.current_index > 0 {
            self.current_index -= 1;
        } else {
            self.current_index = self.files.len() - 1;
        }
        self.edge_key = None;
        true
    }

    /// Moves by a page and stops at the edge; at the edge, the same key pressed again moves to
    /// the opposite edge. Returns whether the place changed.
    pub fn page(&mut self, key: PageKey) -> (moved: bool)
        ensures
            old(self).files().len() <= 1 ==> final(self).index() == old(self).index(),
            old(self).files().len() <= 1 ==> final(self).edge() == old(self).edge(),
            old(self).files().len() > 1 ==> {
                let len = old(self).files().len() as int;
                let again = old(self).edge() == Some(key);
                let target = page_place(old(self).index(), len, key, again);
                let wraps = again && at_edge(old(self).index(), len, key);
                &&& final(self).index() == target
                &&& final(self).edge() == if !wraps && at_edge(target, len, key) {
                    Some(key)
                } else {
                    None
                }
            },
            moved == (final(self).index() != old(self).index()),
            final(self).files() == old(self).files(),
            final(self).same_settings(old(self)),
    {
        let len: usize = self.files.len();
        if len <= 1 {
            return false;
        }
        let start: usize = self.current_index;
        let again = match (self.edge_key, key) {
            (Some(PageKey::Up), PageKey::Up) => true,
            (Some(PageKey::Down), PageKey::Down) => true,
            _ => false,
        };
        let mut wrapped = false;
        match key {
            PageKey::Up => {
                if start == 0 {
                    if again {
                        self.current_index = len - 1;
                        wrapped = true;
                    }
                } else if start < PAGE_STEP {
                    self.current_index = 0;
                } else {
                    self.current_index = start - PAGE_STEP;
                }
                self.edge_key = if !wrapped && self.current_index == 0 {
                    Some(key)
                } else {
                    None
                };
            },
            PageKey::Down => {
                if start >= len - 1 {
                    if again {
                        self.current_index = 0;
                        wrapped = true;
                    } else {
                        self.current_index = len - 1;
                    }
                } else if PAGE_STEP > len - 1 - start {
                    self.current_index = len - 1;
                } else {
                    self.current_index = start + PAGE_STEP;
                }
                self.edge_key = if !wrapped && self.current_index >= len - 1 {
                    Some(key)
                } else {
                    None
                };
            },
        }
        self.current_index != start
    }

    /// The number of files.
    pub fn file_count(&self) -> (r: usize)
        ensures
            r == self.files().len(),
    {
        self.files.len()
    }

    /// The place of the current file, counted from zero.
    pub fn current_index(&self) -> (r: usize)
        ensures
            r == self.index(),
    {
        self.current_index
    }

    /// The files at most `range` places away from the current place.
    pub fn nearby_paths(&self, range: usize) -> (r: Vec<MediaPath>)
        requires
            self.index() + range + 1 <= usize::MAX,
            self.index() - range <= self.files().len(),
        ensures
            path_views(r@) == nearby(self.files(), self.index(), range as int),
    {
        let start: usize = if self.current_index > range {
            self.current_index - range
        } else {
            0
        };
        let stop: usize = self.current_index + range + 1;
        let end: usize = if stop < self.files.len() {
            stop
        } else {
            self.files.len()
        };
        let mut r: Vec<MediaPath> = Vec::new();
        let mut i: usize = start;
        while i < end
            invariant
                start <= i <= end <= self.files@.len(),
                r@.len() == i - start,
                forall|j: int| 0 <= j < r@.len() ==> (#[trigger] r@[j])@ == self.files@[start + j]@,
            decreases end - i,
        {
            r.push(self.files[i].copied());
            i += 1;
        }
        assert(path_views(r@) =~= nearby(self.files(), self.index(), range as int));
        r
    }
}

/// The part of a listing that lies at most `range` places away from `index`.
pub open spec fn nearby(files: Seq<PathView>, index: int, range: int) -> Seq<PathView> {
    let start = if index > range {
        index - range
    } else {
        0
    };
    let end = if index + range + 1 < files.len() {
        index + range + 1
    } else {
        files.len() as int
    };
    files.subrange(start, end)
}

/// Whether `place` is the first place of `path` in `files`, or `fallback` if it has none.
pub open spec fn is_place_of(place: int, fallback: int, files: Seq<PathView>, path: PathView) -> bool {
    if files.contains(path) {
        &&& 0 <= place < files.len()
        &&& files[place] == path
        &&& forall|j: int| 0 <= j < place ==> files[j] != path
    } else {
        place == fallback
    }
}

/// The place `n` files on.
pub open spec fn places_on(index: int, len: int, n: nat) -> int
    decreases n,
{
    if n == 0 {
        index
    } else {
        next_place(places_on(index, len, (n - 1) as nat), len)
    }
}

/// One file on and one back is no move, and neither is one back and one on.
pub proof fn lemma_next_prev_inverse(index: int, len: int)
    requires
        0 <= index < len,
    ensures
        0 <= next_place(index, len) < len,
        0 <= prev_place(index, len) < len,
        prev_place(next_place(index, len), len) == index,
        next_place(prev_place(index, len), len) == index,
{
}

/// Going on from file to file passes every file: `n` files on lies the place `n` further, counted
/// round the list; after as many moves as there are files, it is where it was.
pub proof fn lemma_going_on_loops(index: int, len: int, n: nat)
    requires
        0 <= index < len,
    ensures
        places_on(index, len, n) == (index + n) % len,
        places_on(index, len, len as nat) == index,
{
    lemma_places_on(index, len, n);
    lemma_places_on(index, len, len as nat);
    vstd::arithmetic::div_mod::lemma_mod_add_multiples_vanish(index, len);
    vstd::arithmetic::div_mod::lemma_small_mod(index as nat, len as nat);
}

proof fn lemma_places_on(index: int, len: int, n: nat)
    requires
        0 <= index < len,
    ensures
        places_on(index, len, n) == (index + n) % len,
    decreases n,
{
    if n == 0 {
        vstd::arithmetic::div_mod::lemma_small_mod(index as nat, len as nat);
    } else {
        lemma_places_on(index, len, (n - 1) as nat);
        let before = (index + n - 1) % len;
        vstd::arithmetic::div_mod::lemma_mod_bound(index + n - 1, len);
        vstd::arithmetic::div_mod::lemma_add_mod_noop(index + n - 1, 1, len);
        if before + 1 < len {
            vstd::arithmetic::div_mod::lemma_small_mod((before + 1) as nat, len as nat);
            if len > 1 {
                vstd::arithmetic::div_mod::lemma_small_mod(1, len as nat);
            }
        } else if len > 1 {
            vstd::arithmetic::div_mod::lemma_small_mod(1, len as nat);
            vstd::arithmetic::div_mod::lemma_mod_self_0(len);
        } else {
            vstd::arithmetic::div_mod::lemma_mod_bound(index + n, len);
        }
    }
}

/// A page key stays in the list, and moves by a page or as far as the edge; only at the edge, and
/// only when the same key is pressed again, does it go to the opposite edge.
pub proof fn lemma_page_stops_at_edge(index: int, len: int, key: PageKey, again: bool)
    requires
        0 <= index < len,
    ensures
        ({
            let target = page_place(index, len, key, again);
            &&& 0 <= target < len
            &&& !at_edge(index, len, key) || !again ==> match key {
                PageKey::Up => target == index - PAGE_STEP || (target == 0 && index <= PAGE_STEP),
                PageKey::Down => target == index + PAGE_STEP || (target == len - 1 && len - 1 - index
                    <= PAGE_STEP),
            }
            &&& at_edge(index, len, key) && again ==> match key {
                PageKey::Up => target == len - 1,
                PageKey::Down => target == 0,
            }
        }),
{
}

} // verus!
