//! What the viewer remembers from one run to the next.

use vstd::prelude::*;

use crate::ordering::{GroupBy, SortKey, SortOrder};
use crate::path::{MediaPath, PathPart};
use crate::text::copy_text;

verus! {

use crate::path::{part_views, PartView, PathView};

/// What files or folders are sorted by.
#[derive(Clone, Copy, Debug, PartialEq, Eq, Structural)]
pub enum SortKeySetting {
    Name,
    ModifiedDate,
}

/// In which direction files or folders are sorted.
#[derive(Clone, Copy, Debug, PartialEq, Eq, Structural)]
pub enum SortOrderSetting {
    Ascending,
    Descending,
}

/// How an image is fitted into the window.
#[derive(Clone, Copy, Debug, PartialEq, Eq, Structural)]
pub enum FitModeSetting {
    FitToWindow,
    OriginalSize,
}

/// Whether folders are grouped by date.
#[derive(Clone, Copy, Debug, PartialEq, Eq, Structural)]
pub enum GroupBySetting {
    Off,
    ModifiedDate,
}

/// The settings that are saved.
#[derive(Clone, Copy, Debug, PartialEq, Eq, Structural)]
pub struct Settings {
    /// The rotation in degrees.
    pub rotation: u16,
    pub fit_mode: FitModeSetting,
    pub sort_key: SortKeySetting,
    pub sort_order: SortOrderSetting,
    pub group_by: GroupBySetting,
    pub file_sort_key: SortKeySetting,
    pub file_sort_order: SortOrderSetting,
    /// The volume in percent.
    pub volume: u16,
    /// By how many milliseconds frames are shown early.
    pub audio_offset_ms: i32,
    pub maximized: bool,
    /// How long the slideshow shows a file, in tenths of a second.
    pub slideshow_tenths: u16,
}

/// The volume of a viewer that has never been set to another.
pub fn default_volume() -> (r: u16)
    ensures
        r == 100,
{
    100
}

/// The time for which a slideshow shows a file, where no other has been set, in tenths of a
/// second.
pub const DEFAULT_SLIDESHOW_TENTHS: u16 = 30;

impl Default for SortKeySetting {
    fn default() -> (r: SortKeySetting)
        ensures
            r is Name,
    {
        SortKeySetting::Name
    }
}

impl Default for SortOrderSetting {
    fn default() -> (r: SortOrderSetting)
        ensures
            r is Ascending,
    {
        SortOrderSetting::Ascending
    }
}

impl Default for GroupBySetting {
    fn default() -> (r: GroupBySetting)
        ensures
            r is Off,
    {
        GroupBySetting::Off
    }
}

/// The settings of a viewer that has never been set otherwise.
pub open spec fn initial_settings() -> Settings {
    Settings {
        rotation: 0,
        fit_mode: FitModeSetting::FitToWindow,
        sort_key: SortKeySetting::Name,
        sort_order: SortOrderSetting::Ascending,
        group_by: GroupBySetting::Off,
        file_sort_key: SortKeySetting::Name,
        file_sort_order: SortOrderSetting::Ascending,
        volume: 100,
        audio_offset_ms: 0,
        maximized: false,
        slideshow_tenths: DEFAULT_SLIDESHOW_TENTHS,
    }
}

impl Default for Settings {
    fn default() -> (r: Settings)
        ensures
            r == initial_settings(),
    {
        Settings {
            rotation: 0,
            fit_mode: FitModeSetting::FitToWindow,
            sort_key: SortKeySetting::Name,
            sort_order: SortOrderSetting::Ascending,
            group_by: GroupBySetting::Off,
            file_sort_key: SortKeySetting::Name,
            file_sort_order: SortOrderSetting::Ascending,
            volume: 100,
            audio_offset_ms: 0,
            maximized: false,
            slideshow_tenths: DEFAULT_SLIDESHOW_TENTHS,
        }
    }
}

/// What a settings file holds of each setting, `None` where it does not name it.
#[derive(Clone, Copy, Debug, PartialEq, Eq, Structural)]
pub struct StoredSettings {
    pub rotation: Option<u16>,
    pub fit_mode: Option<FitModeSetting>,
    pub sort_key: Option<SortKeySetting>,
    pub sort_order: Option<SortOrderSetting>,
    pub group_by: Option<GroupBySetting>,
    pub file_sort_key: Option<SortKeySetting>,
    pub file_sort_order: Option<SortOrderSetting>,
    pub volume: Option<u16>,
    pub audio_offset_ms: Option<i32>,
    pub maximized: Option<bool>,
    pub slideshow_tenths: Option<u16>,
}

impl StoredSettings {
    /// Whether the settings that have to be there are there.
    pub fn is_complete(&self) -> (r: bool)
        ensures
            r == has_what_it_needs(*self),
    {
        self.rotation.is_some() && self.fit_mode.is_some() && self.sort_key.is_some()
            && self.sort_order.is_some()
    }
}

/// Whether a file names the settings that have to be there: the rotation, the fit, and the order of
/// folders.
pub open spec fn has_what_it_needs(f: StoredSettings) -> bool {
    f.rotation is Some && f.fit_mode is Some && f.sort_key is Some && f.sort_order is Some
}

/// What is stored of settings: all of them.
pub open spec fn stored_settings(s: Settings) -> StoredSettings {
    StoredSettings {
        rotation: Some(s.rotation),
        fit_mode: Some(s.fit_mode),
        sort_key: Some(s.sort_key),
        sort_order: Some(s.sort_order),
        group_by: Some(s.group_by),
        file_sort_key: Some(s.file_sort_key),
        file_sort_order: Some(s.file_sort_order),
        volume: Some(s.volume),
        audio_offset_ms: Some(s.audio_offset_ms),
        maximized: Some(s.maximized),
        slideshow_tenths: Some(s.slideshow_tenths),
    }
}

/// A setting that is stored, or the one that stands in for it.
pub open spec fn stored_or<T>(stored: Option<T>, other: T) -> T {
    match stored {
        Some(x) => x,
        None => other,
    }
}

/// The settings that a file stands for. Where one is missing that has to be there, the whole file
/// counts for nothing; where others are, they have their initial values.
pub open spec fn settings_read(stored: Option<StoredSettings>) -> Settings {
    match stored {
        Some(f) => match (f.rotation, f.fit_mode, f.sort_key, f.sort_order) {
            (Some(rotation), Some(fit_mode), Some(sort_key), Some(sort_order)) => Settings {
                rotation,
                fit_mode,
                sort_key,
                sort_order,
                group_by: stored_or(f.group_by, GroupBySetting::Off),
                file_sort_key: stored_or(f.file_sort_key, SortKeySetting::Name),
                file_sort_order: stored_or(f.file_sort_order, SortOrderSetting::Ascending),
                volume: stored_or(f.volume, 100),
                audio_offset_ms: stored_or(f.audio_offset_ms, 0),
                maximized: stored_or(f.maximized, false),
                slideshow_tenths: stored_or(f.slideshow_tenths, DEFAULT_SLIDESHOW_TENTHS),
            },
            _ => initial_settings(),
        },
        None => initial_settings(),
    }
}

/// Settings that were stored are read back as they were.
pub proof fn lemma_stored_is_read_back(s: Settings)
    ensures
        settings_read(Some(stored_settings(s))) == s,
{
}

/// A file that misses a setting that has to be there gives the initial settings. One that misses
/// only others keeps what it holds, and has the initial value of what it misses.
pub proof fn lemma_missing_settings(f: StoredSettings)
    ensures
        !has_what_it_needs(f) ==> settings_read(Some(f)) == initial_settings(),
        has_what_it_needs(f) ==> {
            let s = settings_read(Some(f));
            let initial = initial_settings();
            &&& s.rotation == f.rotation->0
            &&& s.fit_mode == f.fit_mode->0
            &&& s.sort_key == f.sort_key->0
            &&& s.sort_order == f.sort_order->0
            &&& s.group_by == stored_or(f.group_by, initial.group_by)
            &&& s.file_sort_key == stored_or(f.file_sort_key, initial.file_sort_key)
            &&& s.file_sort_order == stored_or(f.file_sort_order, initial.file_sort_order)
            &&& s.volume == stored_or(f.volume, initial.volume)
            &&& s.audio_offset_ms == stored_or(f.audio_offset_ms, initial.audio_offset_ms)
            &&& s.maximized == stored_or(f.maximized, initial.maximized)
            &&& s.slideshow_tenths == stored_or(f.slideshow_tenths, initial.slideshow_tenths)
        },
{
}

/// The sort key that a setting stands for.
pub open spec fn key_of(s: SortKeySetting) -> SortKey {
    match s {
        SortKeySetting::Name => SortKey::Name,
        SortKeySetting::ModifiedDate => SortKey::ModifiedDate,
    }
}

/// The sort order that a setting stands for.
pub open spec fn order_of(s: SortOrderSetting) -> SortOrder {
    match s {
        SortOrderSetting::Ascending => SortOrder::Ascending,
        SortOrderSetting::Descending => SortOrder::Descending,
    }
}

/// The grouping that a setting stands for.
pub open spec fn grouping_of(s: GroupBySetting) -> GroupBy {
    match s {
        GroupBySetting::Off => GroupBy::Off,
        GroupBySetting::ModifiedDate => GroupBy::ModifiedDate,
    }
}

/// The setting that stands for a sort key.
pub open spec fn key_saved(key: SortKey) -> SortKeySetting {
    match key {
        SortKey::Name => SortKeySetting::Name,
        SortKey::ModifiedDate => SortKeySetting::ModifiedDate,
    }
}

/// The setting that stands for a sort order.
pub open spec fn order_saved(order: SortOrder) -> SortOrderSetting {
    match order {
        SortOrder::Ascending => SortOrderSetting::Ascending,
        SortOrder::Descending => SortOrderSetting::Descending,
    }
}

/// The setting that stands for a grouping.
pub open spec fn grouping_saved(group: GroupBy) -> GroupBySetting {
    match group {
        GroupBy::Off => GroupBySetting::Off,
        GroupBy::ModifiedDate => GroupBySetting::ModifiedDate,
    }
}

/// A sort key, a direction or a grouping that is saved is the one that is read back.
pub proof fn lemma_saved_is_read_back(key: SortKey, order: SortOrder, group: GroupBy)
    ensures
        key_of(key_saved(key)) == key,
        order_of(order_saved(order)) == order,
        grouping_of(grouping_saved(group)) == group,
{
}

/// The setting that stands for a sort key.
pub fn key_setting(key: SortKey) -> (r: SortKeySetting)
    ensures
        r == key_saved(key),
{
    match key {
        SortKey::Name => SortKeySetting::Name,
        SortKey::ModifiedDate => SortKeySetting::ModifiedDate,
    }
}

/// The setting that stands for a sort order.
pub fn order_setting(order: SortOrder) -> (r: SortOrderSetting)
    ensures
        r == order_saved(order),
{
    match order {
        SortOrder::Ascending => SortOrderSetting::Ascending,
        SortOrder::Descending => SortOrderSetting::Descending,
    }
}

/// The setting that stands for a grouping.
pub fn group_setting(group: GroupBy) -> (r: GroupBySetting)
    ensures
        r == grouping_saved(group),
{
    match group {
        GroupBy::Off => GroupBySetting::Off,
        GroupBy::ModifiedDate => GroupBySetting::ModifiedDate,
    }
}

fn sort_key_of(s: SortKeySetting) -> (r: SortKey)
    ensures
        r == key_of(s),
{
    match s {
        SortKeySetting::Name => SortKey::Name,
        SortKeySetting::ModifiedDate => SortKey::ModifiedDate,
    }
}

fn sort_order_of(s: SortOrderSetting) -> (r: SortOrder)
    ensures
        r == order_of(s),
{
    match s {
        SortOrderSetting::Ascending => SortOrder::Ascending,
        SortOrderSetting::Descending => SortOrder::Descending,
    }
}

/// The path of the settings: in a folder of the viewer's own under the application data, or under
/// the configuration of the home folder, or just a file of that name.
pub open spec fn settings_path(appdata: Option<PathView>, home: Option<PathView>) -> PathView {
    match (appdata, home) {
        (Some(dir), _) => dir + seq![
            PartView::Name("visual-media-viewer"@),
            PartView::Name("settings.json"@),
        ],
        (None, Some(dir)) => dir + seq![
            PartView::Name(".config"@),
            PartView::Name("visual-media-viewer"@),
            PartView::Name("settings.json"@),
        ],
        (None, None) => seq![PartView::Name("settings.json"@)],
    }
}

/// The view of a path that may be missing.
pub open spec fn path_view(p: Option<MediaPath>) -> Option<PathView> {
    match p {
        Some(p) => Some(p@),
        None => None,
    }
}

impl Settings {
    /// The path of the settings, where `appdata` and `home` are the folders that the environment
    /// names, if it does.
    pub fn path(appdata: Option<MediaPath>, home: Option<MediaPath>) -> (r: MediaPath)
        ensures
            r@ == settings_path(path_view(appdata), path_view(home)),
    {
        let ghost goal = settings_path(path_view(appdata), path_view(home));
        if let Some(dir) = appdata {
            let r = dir.child("visual-media-viewer").child("settings.json");
            assert(r@ =~= goal);
            r
        } else if let Some(dir) = home {
            let r = dir.child(".config").child("visual-media-viewer").child("settings.json");
            assert(r@ =~= goal);
            r
        } else {
            let mut parts: Vec<PathPart> = Vec::new();
            parts.push(PathPart::Name(copy_text("settings.json")));
            assert(part_views(parts@) =~= goal);
            MediaPath::new(parts)
        }
    }

    /// The settings that a file stands for, `None` where it cannot be read or understood.
    pub fn load(stored: Option<StoredSettings>) -> (r: Settings)
        ensures
            r == settings_read(stored),
    {
        match stored {
            Some(f) => match (f.rotation, f.fit_mode, f.sort_key, f.sort_order) {
                (Some(rotation), Some(fit_mode), Some(sort_key), Some(sort_order)) => Settings {
                    rotation,
                    fit_mode,
                    sort_key,
                    sort_order,
                    group_by: f.group_by.unwrap_or(GroupBySetting::Off),
                    file_sort_key: f.file_sort_key.unwrap_or(SortKeySetting::Name),
                    file_sort_order: f.file_sort_order.unwrap_or(SortOrderSetting::Ascending),
                    volume: f.volume.unwrap_or(default_volume()),
                    audio_offset_ms: f.audio_offset_ms.unwrap_or(0),
                    maximized: f.maximized.unwrap_or(false),
                    slideshow_tenths: f.slideshow_tenths.unwrap_or(DEFAULT_SLIDESHOW_TENTHS),
                },
                _ => Settings::default(),
            },
            None => Settings::default(),
        }
    }

    /// What is stored of the settings.
    pub fn stored(&self) -> (r: StoredSettings)
        ensures
            r == stored_settings(*self),
    {
        StoredSettings {
            rotation: Some(self.rotation),
            fit_mode: Some(self.fit_mode),
            sort_key: Some(self.sort_key),
            sort_order: Some(self.sort_order),
            group_by: Some(self.group_by),
            file_sort_key: Some(self.file_sort_key),
            file_sort_order: Some(self.file_sort_order),
            volume: Some(self.volume),
            audio_offset_ms: Some(self.audio_offset_ms),
            maximized: Some(self.maximized),
            slideshow_tenths: Some(self.slideshow_tenths),
        }
    }

    /// What folders are sorted by.
    pub fn saved_sort_key(&self) -> (r: SortKey)
        ensures
            r == key_of(self.sort_key),
    {
        sort_key_of(self.sort_key)
    }

    /// In which direction folders are sorted.
    pub fn saved_sort_order(&self) -> (r: SortOrder)
        ensures
            r == order_of(self.sort_order),
    {
        sort_order_of(self.sort_order)
    }

    /// Whether folders are grouped by date.
    pub fn saved_group_by(&self) -> (r: GroupBy)
        ensures
            r == grouping_of(self.group_by),
    {
        match self.group_by {
            GroupBySetting::Off => GroupBy::Off,
            GroupBySetting::ModifiedDate => GroupBy::ModifiedDate,
        }
    }

    /// What files are sorted by.
    pub fn saved_file_sort_key(&self) -> (r: SortKey)
        ensures
            r == key_of(self.file_sort_key),
    {
        sort_key_of(self.file_sort_key)
    }

    /// In which direction files are sorted.
    pub fn saved_file_sort_order(&self) -> (r: SortOrder)
        ensures
            r == order_of(self.file_sort_order),
    {
        sort_order_of(self.file_sort_order)
    }
}

} // verus!
