//! What the choices of the title bar's menu do.

use vstd::prelude::*;

use crate::file_list::DirEntry;
use crate::ordering::{GroupBy, SortKey, SortOrder};
use crate::transform::FitMode;
use crate::viewer::{LoadPlan, ViewerApp};

verus! {

use crate::file_list::{entry_views, is_file_listing, is_place_of, EntryView, ListView};
use crate::ordering::SortRule;
use crate::settings::Settings;
use crate::slideshow::{clamped_tenths, Slideshow};
use crate::viewer::{list_next, list_prev, loaded, restarted, saved, AppView, PlanView};

/// The viewer after a file of the menu was chosen: what is shown is loaded anew even where there
/// is no other file.
pub open spec fn menu_gone(a: AppView, list: ListView, now: i64) -> (AppView, PlanView) {
    if a.list->0.files.len() > 1 {
        loaded(AppView { list: Some(list), slideshow: restarted(a.slideshow, now), ..a })
    } else {
        loaded(a)
    }
}

/// What folders are sorted by; by name where there is no list.
pub open spec fn folder_key(a: AppView) -> SortKey {
    match a.list {
        Some(l) => l.rule.sort_key,
        None => SortKey::Name,
    }
}

/// In which direction folders are sorted; ascending where there is no list.
pub open spec fn folder_order(a: AppView) -> SortOrder {
    match a.list {
        Some(l) => l.rule.sort_order,
        None => SortOrder::Ascending,
    }
}

/// Whether folders are grouped; not where there is no list.
pub open spec fn grouping(a: AppView) -> GroupBy {
    match a.list {
        Some(l) => l.rule.group_by,
        None => GroupBy::Off,
    }
}

/// What files are sorted by; by name where there is no list.
pub open spec fn file_key(a: AppView) -> SortKey {
    match a.list {
        Some(l) => l.file_key,
        None => SortKey::Name,
    }
}

/// In which direction files are sorted; ascending where there is no list.
pub open spec fn file_order(a: AppView) -> SortOrder {
    match a.list {
        Some(l) => l.file_order,
        None => SortOrder::Ascending,
    }
}

/// The viewer with its folders sorted by another rule, if it has a list.
pub open spec fn with_rule(a: AppView, rule: SortRule) -> AppView {
    match a.list {
        Some(l) => AppView { list: Some(ListView { rule, ..l }), ..a },
        None => a,
    }
}

/// `after` is the viewer with its files sorted otherwise, if it has a list: the same file stays
/// current, or the same place where it is gone.
pub open spec fn is_resorted(
    a: AppView,
    key: SortKey,
    order: SortOrder,
    entries: Seq<EntryView>,
    after: AppView,
) -> bool {
    match a.list {
        Some(l) => {
            let m = after.list->0;
            &&& after == (AppView { list: Some(m), ..a })
            &&& m == (ListView {
                files: m.files,
                index: m.index,
                edge: None,
                file_key: key,
                file_order: order,
                ..l
            })
            &&& is_file_listing(m.files, entries, key, order)
            &&& match l.current() {
                Some(p) => is_place_of(m.index, l.index, m.files, p),
                None => m.index == l.index,
            }
        },
        None => after == a,
    }
}

/// Whether two sort keys are the same.
fn same_key(a: SortKey, b: SortKey) -> (r: bool)
    ensures
        r == (a == b),
{
    match (a, b) {
        (SortKey::Name, SortKey::Name) => true,
        (SortKey::ModifiedDate, SortKey::ModifiedDate) => true,
        _ => false,
    }
}

/// Whether two sort orders are the same.
fn same_order(a: SortOrder, b: SortOrder) -> (r: bool)
    ensures
        r == (a == b),
{
    match (a, b) {
        (SortOrder::Ascending, SortOrder::Ascending) => true,
        (SortOrder::Descending, SortOrder::Descending) => true,
        _ => false,
    }
}

/// Whether two groupings are the same.
fn same_group(a: GroupBy, b: GroupBy) -> (r: bool)
    ensures
        r == (a == b),
{
    match (a, b) {
        (GroupBy::Off, GroupBy::Off) => true,
        (GroupBy::ModifiedDate, GroupBy::ModifiedDate) => true,
        _ => false,
    }
}

/// The smallest and the largest number of milliseconds by which frames can be shown early.
pub const MAX_AUDIO_OFFSET: i32 = 200;

/// The viewer with another audio offset, brought into the range that can be set.
pub open spec fn with_offset(a: AppView, millis: i32) -> AppView {
    AppView {
        settings: Settings {
            audio_offset_ms: if millis < -MAX_AUDIO_OFFSET {
                (-MAX_AUDIO_OFFSET) as i32
            } else if millis > MAX_AUDIO_OFFSET {
                MAX_AUDIO_OFFSET
            } else {
                millis
            },
            ..a.settings
        },
        ..a
    }
}

/// The viewer with its window made as large as the screen, or no longer so.
pub open spec fn with_size_switched(a: AppView, remember: bool) -> AppView {
    AppView {
        maximized: !a.maximized,
        settings: Settings {
            maximized: if remember {
                !a.maximized
            } else {
                a.settings.maximized
            },
            ..a.settings
        },
        ..a
    }
}

impl ViewerApp {
    /// The menu's way to the previous file.
    pub fn menu_prev(&mut self, now: i64) -> (plan: LoadPlan)
        requires
            old(self).wf(),
        ensures
            (final(self)@, plan@) == match old(self)@.list {
                Some(l) => menu_gone(old(self)@, list_prev(l), now),
                None => loaded(old(self)@),
            },
            final(self).wf(),
    {
        let moved = match &mut self.file_list {
            Some(list) => list.prev(),
            None => false,
        };
        if moved {
            self.slideshow.restart(now);
        }
        self.load_current_image()
    }

    /// The menu's way to the next file.
    pub fn menu_next(&mut self, now: i64) -> (plan: LoadPlan)
        requires
            old(self).wf(),
        ensures
            (final(self)@, plan@) == match old(self)@.list {
                Some(l) => menu_gone(old(self)@, list_next(l), now),
                None => loaded(old(self)@),
            },
            final(self).wf(),
    {
        let moved = match &mut self.file_list {
            Some(list) => list.next(),
            None => false,
        };
        if moved {
            self.slideshow.restart(now);
        }
        self.load_current_image()
    }

    /// What folders are sorted by.
    pub fn folder_sort_key(&self) -> (r: SortKey)
        ensures
            r == folder_key(self@),
    {
        match &self.file_list {
            Some(list) => list.sort_key,
            None => SortKey::Name,
        }
    }

    /// In which direction folders are sorted.
    pub fn folder_sort_order(&self) -> (r: SortOrder)
        ensures
            r == folder_order(self@),
    {
        match &self.file_list {
            Some(list) => list.sort_order,
            None => SortOrder::Ascending,
        }
    }

    /// Whether folders are grouped.
    pub fn folder_group(&self) -> (r: GroupBy)
        ensures
            r == grouping(self@),
    {
        match &self.file_list {
            Some(list) => list.group_by,
            None => GroupBy::Off,
        }
    }

    /// What files are sorted by.
    pub fn file_sort_key(&self) -> (r: SortKey)
        ensures
            r == file_key(self@),
    {
        match &self.file_list {
            Some(list) => list.file_sort_key,
            None => SortKey::Name,
        }
    }

    /// In which direction files are sorted.
    pub fn file_sort_order(&self) -> (r: SortOrder)
        ensures
            r == file_order(self@),
    {
        match &self.file_list {
            Some(list) => list.file_sort_order,
            None => SortOrder::Ascending,
        }
    }

    /// Sorts folders by `key` and in `order`, unless they are; the settings are to be saved if not.
    pub fn sort_folders(&mut self, key: SortKey, order: SortOrder) -> (save: bool)
        ensures
            save == (key != folder_key(old(self)@) || order != folder_order(old(self)@)),
            final(self)@ == if save {
                saved(
                    with_rule(
                        old(self)@,
                        SortRule {
                            sort_key: key,
                            sort_order: order,
                            group_by: grouping(old(self)@),
                        },
                    ),
                )
            } else {
                old(self)@
            },
            old(self).wf() ==> final(self).wf(),
    {
        if same_key(key, self.folder_sort_key()) && same_order(order, self.folder_sort_order()) {
            return false;
        }
        match &mut self.file_list {
            Some(list) => {
                list.re_sort_dirs(key, order);
            },
            None => {},
        }
        self.save_settings();
        true
    }

    /// Groups folders as asked, unless they are; the settings are to be saved if not.
    pub fn group_folders(&mut self, group: GroupBy) -> (save: bool)
        ensures
            save == (group != grouping(old(self)@)),
            final(self)@ == if save {
                saved(
                    with_rule(
                        old(self)@,
                        SortRule {
                            sort_key: folder_key(old(self)@),
                            sort_order: folder_order(old(self)@),
                            group_by: group,
                        },
                    ),
                )
            } else {
                old(self)@
            },
            old(self).wf() ==> final(self).wf(),
    {
        if same_group(group, self.folder_group()) {
            return false;
        }
        match &mut self.file_list {
            Some(list) => {
                list.set_group_by(group);
            },
            None => {},
        }
        self.save_settings();
        true
    }

    /// Sorts files by `key` and in `order`, unless they are; `entries` are the entries of the
    /// current folder. The settings are to be saved if not.
    pub fn sort_files(&mut self, key: SortKey, order: SortOrder, entries: &Vec<DirEntry>) -> (save:
        bool)
        ensures
            save == (key != file_key(old(self)@) || order != file_order(old(self)@)),
            !save ==> final(self)@ == old(self)@,
            save ==> {
                let sorted = AppView { settings: old(self)@.settings, ..final(self)@ };
                &&& is_resorted(old(self)@, key, order, entry_views(entries@), sorted)
                &&& final(self)@ == saved(sorted)
            },
            old(self).wf() ==> final(self).wf(),
    {
        if same_key(key, self.file_sort_key()) && same_order(order, self.file_sort_order()) {
            return false;
        }
        match &mut self.file_list {
            Some(list) => {
                list.re_sort_files(key, order, entries);
            },
            None => {},
        }
        let ghost sorted = self@;
        self.save_settings();
        proof {
            assert(sorted == AppView { settings: old(self)@.settings, ..self@ });
        }
        true
    }

    /// Turns the image as asked, unless it is; the settings are to be saved if not.
    pub fn choose_rotation(&mut self, degrees: u16) -> (save: bool)
        ensures
            save == (degrees != old(self)@.rotation),
            final(self)@ == if save {
                saved(AppView { rotation: degrees, ..old(self)@ })
            } else {
                old(self)@
            },
            old(self).wf() ==> final(self).wf(),
    {
        if degrees == self.transform.rotation {
            return false;
        }
        self.transform.rotation = degrees;
        self.save_settings();
        true
    }

    /// Fits the image as asked, unless it is; the settings are to be saved if not.
    pub fn choose_fit(&mut self, mode: FitMode) -> (save: bool)
        ensures
            save == (mode != old(self)@.fit_mode),
            final(self)@ == if save {
                saved(AppView { fit_mode: mode, ..old(self)@ })
            } else {
                old(self)@
            },
            old(self).wf() ==> final(self).wf(),
    {
        match (mode, self.fit_mode) {
            (FitMode::FitToWindow, FitMode::FitToWindow) => {
                return false;
            },
            (FitMode::OriginalSize, FitMode::OriginalSize) => {
                return false;
            },
            _ => {},
        }
        self.fit_mode = mode;
        self.save_settings();
        true
    }

    /// Sets the interval of the slideshow, and records it in the settings.
    pub fn choose_interval(&mut self, tenths: u16)
        ensures
            final(self)@ == saved(
                AppView {
                    slideshow: Slideshow {
                        tenths: clamped_tenths(tenths as int) as u16,
                        ..old(self)@.slideshow
                    },
                    ..old(self)@
                },
            ),
            old(self).wf() ==> final(self).wf(),
    {
        self.slideshow.set_interval(tenths);
        self.save_settings();
    }

    /// Sets by how many milliseconds frames are shown early, and records it in the settings.
    pub fn choose_audio_offset(&mut self, millis: i32)
        ensures
            final(self)@ == saved(with_offset(old(self)@, millis)),
            old(self).wf() ==> final(self).wf(),
    {
        self.settings.audio_offset_ms = if millis < -MAX_AUDIO_OFFSET {
            -MAX_AUDIO_OFFSET
        } else if millis > MAX_AUDIO_OFFSET {
            MAX_AUDIO_OFFSET
        } else {
            millis
        };
        self.save_settings();
    }

    /// Makes the window as large as the screen, or no longer so; `remember` says whether the
    /// settings record it.
    pub fn toggle_maximized(&mut self, remember: bool)
        ensures
            final(self)@ == with_size_switched(old(self)@, remember),
            old(self).wf() ==> final(self).wf(),
    {
        self.is_maximized = !self.is_maximized;
        if remember {
            self.settings.maximized = self.is_maximized;
        }
    }
}

} // verus!
