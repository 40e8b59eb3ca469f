//! The viewer: which file is shown, how, and what comes next.
//!
//! Files are read, decoded and drawn by the caller. The viewer says what to load, and is told what
//! came of it.

use vstd::prelude::*;

use crate::cache::ImageCache;
use crate::file_list::{is_video_file, DirEntry, FileList, PageKey};
use crate::image_decode::ColorImage;
use crate::ordering::{SortKey, SortOrder};
use crate::path::{position_of, MediaPath};
use crate::settings::{group_setting, key_setting, order_setting, FitModeSetting, Settings};
use crate::slideshow::{Slideshow, VideoStatus};
use crate::text::copy_text;
use crate::title::{
    file_title_text, next_title_root, precise_time_text, slideshow_suffix_text, video_suffix_text,
};
use crate::transform::{FitMode, ViewTransform};
use crate::video_player::{PlaybackState, VideoPlayer, MAX_VOLUME};

verus! {

use crate::cache::{holds, inserted, place, to_start, touched, CacheState};
use crate::file_list::{
    at_edge, entry_views, is_file_listing, is_place_of, is_video_path, lemma_next_prev_inverse,
    nearby, next_place, page_place, prev_place, EntryView, ListView,
};
use crate::media_time::{clamp_micros, clamped};
use crate::ordering::SortRule;
use crate::path::{lies_under, parent_of, path_views, PathView};
use crate::settings::{grouping_of, grouping_saved, key_of, key_saved, order_of, order_saved};
use crate::slideshow::{clamped_tenths, ticked};
use crate::title::{
    empty_title, file_title, lemma_root_holds_folder, root_after, seconds_text, slideshow_suffix,
    video_suffix,
};

/// What there is to load.
pub enum LoadPlan {
    /// No file is shown.
    Nothing,
    /// The video is to be opened.
    Video(MediaPath),
    /// The image is there already.
    Cached,
    /// The image is to be decoded.
    Decode(MediaPath),
}

/// The mathematical form of what there is to load.
pub enum PlanView {
    Nothing,
    Video(PathView),
    Cached,
    Decode(PathView),
}

impl View for LoadPlan {
    type V = PlanView;

    open spec fn view(&self) -> PlanView {
        match *self {
            LoadPlan::Nothing => PlanView::Nothing,
            LoadPlan::Video(p) => PlanView::Video(p@),
            LoadPlan::Cached => PlanView::Cached,
            LoadPlan::Decode(p) => PlanView::Decode(p@),
        }
    }
}

/// The view of what there may be to load.
pub open spec fn plan_view(p: Option<LoadPlan>) -> Option<PlanView> {
    match p {
        Some(p) => Some(p@),
        None => None,
    }
}

/// The viewer.
pub struct ViewerApp {
    pub image_size: Option<(usize, usize)>,
    pub file_list: Option<FileList>,
    pub cache: ImageCache,
    pub transform: ViewTransform,
    pub error_message: Option<String>,
    pub slideshow: Slideshow,
    pub fit_mode: FitMode,
    pub is_maximized: bool,
    pub video_player: Option<VideoPlayer>,
    pub settings: Settings,
    /// The folder from which the title shows where the current file is.
    pub title_root: Option<MediaPath>,
}

/// The mathematical form of the viewer.
#[verifier::ext_equal]
pub struct AppView {
    pub image_size: Option<(usize, usize)>,
    pub list: Option<ListView>,
    pub cache: CacheState,
    pub max_bytes: nat,
    pub max_texture_dim: u32,
    pub rotation: u16,
    pub error: Option<Seq<char>>,
    pub slideshow: Slideshow,
    pub fit_mode: FitMode,
    pub maximized: bool,
    pub video: Option<VideoPlayer>,
    pub settings: Settings,
    pub root: Option<PathView>,
}

impl View for ViewerApp {
    type V = AppView;

    open spec fn view(&self) -> AppView {
        AppView {
            image_size: self.image_size,
            list: match self.file_list {
                Some(l) => Some(l@),
                None => None,
            },
            cache: self.cache.state(),
            max_bytes: self.cache.max_bytes as nat,
            max_texture_dim: self.cache.max_texture_dim,
            rotation: self.transform.rotation,
            error: match self.error_message {
                Some(e) => Some(e@),
                None => None,
            },
            slideshow: self.slideshow,
            fit_mode: self.fit_mode,
            maximized: self.is_maximized,
            video: self.video_player,
            settings: self.settings,
            root: match self.title_root {
                Some(p) => Some(p@),
                None => None,
            },
        }
    }
}

/// The file that is shown, if one is.
pub open spec fn shown_file(a: AppView) -> Option<PathView> {
    match a.list {
        Some(l) => l.current(),
        None => None,
    }
}

/// The viewer with nothing shown yet of its current file, and what there is to load. A cached image
/// needs no loading and becomes the one most recently used.
pub open spec fn loaded(a: AppView) -> (AppView, PlanView) {
    let bare = AppView {
        image_size: None,
        error: None,
        video: None,
        slideshow: Slideshow { end_handled: false, ..a.slideshow },
        ..a
    };
    match shown_file(a) {
        None => (bare, PlanView::Nothing),
        Some(p) => if is_video_path(p) {
            (bare, PlanView::Video(p))
        } else if holds(a.cache.cached, p) {
            let image = a.cache.cached[place(a.cache.cached, p)].1;
            (
                AppView {
                    image_size: Some((image.size[0], image.size[1])),
                    cache: CacheState { cached: touched(a.cache.cached, p), ..a.cache },
                    ..bare
                },
                PlanView::Cached,
            )
        } else {
            (bare, PlanView::Decode(p))
        },
    }
}

/// The slideshow after another file was chosen at `now`.
pub open spec fn restarted(s: Slideshow, now: i64) -> Slideshow {
    Slideshow { last_advance: now, end_handled: false, ..s }
}

/// The viewer at another place of its list, which loads the file there; the time of the slideshow
/// begins anew.
pub open spec fn gone_to(a: AppView, list: ListView, now: i64) -> (AppView, Option<PlanView>) {
    let (after, plan) = loaded(
        AppView { list: Some(list), slideshow: restarted(a.slideshow, now), ..a },
    );
    (after, Some(plan))
}

/// The list one file on.
pub open spec fn list_next(l: ListView) -> ListView {
    ListView { index: next_place(l.index, l.files.len() as int), edge: None, ..l }
}

/// The list one file back.
pub open spec fn list_prev(l: ListView) -> ListView {
    ListView { index: prev_place(l.index, l.files.len() as int), edge: None, ..l }
}

/// The list one page on or back.
pub open spec fn list_page(l: ListView, key: PageKey) -> ListView {
    let len = l.files.len() as int;
    let again = l.edge == Some(key);
    let target = page_place(l.index, len, key, again);
    let wraps = again && at_edge(l.index, len, key);
    ListView {
        index: target,
        edge: if !wraps && at_edge(target, len, key) {
            Some(key)
        } else {
            None
        },
        ..l
    }
}

/// The viewer one file on, if there is another.
pub open spec fn gone_next(a: AppView, now: i64) -> (AppView, Option<PlanView>) {
    if a.list is Some && a.list->0.files.len() > 1 {
        gone_to(a, list_next(a.list->0), now)
    } else {
        (a, None)
    }
}

/// The viewer one file back, if there is another.
pub open spec fn gone_prev(a: AppView, now: i64) -> (AppView, Option<PlanView>) {
    if a.list is Some && a.list->0.files.len() > 1 {
        gone_to(a, list_prev(a.list->0), now)
    } else {
        (a, None)
    }
}

/// The viewer one page on or back. Where the page leads to the same file, only the key is
/// remembered.
pub open spec fn gone_page(a: AppView, key: PageKey, now: i64) -> (AppView, Option<PlanView>) {
    if a.list is Some && a.list->0.files.len() > 1 {
        let list = list_page(a.list->0, key);
        if list.index != a.list->0.index {
            gone_to(a, list, now)
        } else {
            (AppView { list: Some(list), ..a }, None)
        }
    } else {
        (a, None)
    }
}

impl ViewerApp {
    /// The cache and the slideshow are well formed.
    pub open spec fn wf(&self) -> bool {
        self.cache.wf() && self.slideshow.wf()
    }

    /// Drops what is shown, and says what there is to load for the current file.
    pub fn load_current_image(&mut self) -> (plan: LoadPlan)
        requires
            old(self).wf(),
        ensures
            (final(self)@, plan@) == loaded(old(self)@),
            final(self).wf(),
    {
        self.video_player = None;
        self.image_size = None;
        self.error_message = None;
        self.slideshow.end_handled = false;
        let path = match &self.file_list {
            Some(list) => match list.current_path() {
                Some(p) => p.copied(),
                None => {
                    return LoadPlan::Nothing;
                },
            },
            None => {
                return LoadPlan::Nothing;
            },
        };
        if is_video_file(&path) {
            return LoadPlan::Video(path);
        }
        let found: Option<(usize, usize)> = match self.cache.get(&path) {
            Some(image) => Some((image.size[0], image.size[1])),
            None => None,
        };
        if found.is_some() {
            self.image_size = found;
            LoadPlan::Cached
        } else {
            LoadPlan::Decode(path)
        }
    }

    /// Goes one file on, from the last to the first. There is nothing to load where there is no
    /// other file.
    pub fn next_image(&mut self, now: i64) -> (plan: Option<LoadPlan>)
        requires
            old(self).wf(),
        ensures
            (final(self)@, plan_view(plan)) == gone_next(old(self)@, now),
            final(self).wf(),
    {
        let moved = match &mut self.file_list {
            Some(list) => list.next(),
            None => false,
        };
        if moved {
            self.slideshow.restart(now);
            Some(self.load_current_image())
        } else {
            None
        }
    }

    /// Goes one file back, from the first to the last. There is nothing to load where there is no
    /// other file.
    pub fn prev_image(&mut self, now: i64) -> (plan: Option<LoadPlan>)
        requires
            old(self).wf(),
        ensures
            (final(self)@, plan_view(plan)) == gone_prev(old(self)@, now),
            final(self).wf(),
    {
        let moved = match &mut self.file_list {
            Some(list) => list.prev(),
            None => false,
        };
        if moved {
            self.slideshow.restart(now);
            Some(self.load_current_image())
        } else {
            None
        }
    }

    /// Goes one page on or back. There is nothing to load where that leads to the same file.
    pub fn page_image(&mut self, key: PageKey, now: i64) -> (plan: Option<LoadPlan>)
        requires
            old(self).wf(),
        ensures
            (final(self)@, plan_view(plan)) == gone_page(old(self)@, key, now),
            final(self).wf(),
    {
        let moved = match &mut self.file_list {
            Some(list) => list.page(key),
            None => false,
        };
        if moved {
            self.slideshow.restart(now);
            Some(self.load_current_image())
        } else {
            None
        }
    }
}

/// `first` is where a list starts: at the file that comes first by name.
pub open spec fn starts_at(first: int, names: Seq<PathView>, files: Seq<PathView>) -> bool {
    if names.len() > 0 {
        is_place_of(first, 0, files, names[0])
    } else {
        first == 0
    }
}

/// `l` is the list of the folder `dir` with the given entries, sorted as the settings say, at the
/// file `wanted`, or at the file that comes first by name where there is none such.
pub open spec fn is_opened_list(
    l: ListView,
    dir: PathView,
    entries: Seq<EntryView>,
    s: Settings,
    wanted: Option<PathView>,
) -> bool {
    &&& is_file_listing(l.files, entries, key_of(s.file_sort_key), order_of(s.file_sort_order))
    &&& exists|names: Seq<PathView>, first: int|
        {
            &&& #[trigger] is_file_listing(names, entries, SortKey::Name, SortOrder::Ascending)
            &&& #[trigger] starts_at(first, names, l.files)
            &&& match wanted {
                Some(p) => is_place_of(l.index, first, l.files, p),
                None => l.index == first,
            }
        }
    &&& l.dir == dir
    &&& l.edge is None
    &&& l.rule == (SortRule {
        sort_key: key_of(s.sort_key),
        sort_order: order_of(s.sort_order),
        group_by: grouping_of(s.group_by),
    })
    &&& l.file_key == key_of(s.file_sort_key)
    &&& l.file_order == order_of(s.file_sort_order)
}

/// Lists a folder as the settings say.
fn open_list(
    dir: &MediaPath,
    entries: &Vec<DirEntry>,
    settings: &Settings,
    wanted: Option<&MediaPath>,
) -> (list: FileList)
    ensures
        is_opened_list(
            list@,
            dir@,
            entry_views(entries@),
            *settings,
            match wanted {
                Some(p) => Some(p@),
                None => None,
            },
        ),
{
    let mut list = FileList::from_directory(dir, entries);
    let ghost names = list@.files;
    list.set_group_by(settings.saved_group_by());
    list.re_sort_dirs(settings.saved_sort_key(), settings.saved_sort_order());
    list.re_sort_files(settings.saved_file_sort_key(), settings.saved_file_sort_order(), entries);
    let ghost first = list@.index;
    if let Some(path) = wanted {
        list.set_current(path);
    }
    assert(is_file_listing(names, entry_views(entries@), SortKey::Name, SortOrder::Ascending));
    assert(starts_at(first, names, list@.files));
    list
}

/// The viewer after it was given a file to open: with the list of the folder that the file is in,
/// where it is in one.
pub open spec fn is_opened_file(
    a: AppView,
    file: PathView,
    entries: Seq<EntryView>,
    now: i64,
    after: AppView,
    plan: PlanView,
) -> bool {
    match parent_of(file) {
        Some(dir) => exists|l: ListView|
            {
                &&& #[trigger] is_opened_list(l, dir, entries, a.settings, Some(file))
                &&& (after, plan) == loaded(
                    AppView {
                        list: Some(l),
                        root: Some(root_after(a.root, dir)),
                        slideshow: restarted(a.slideshow, now),
                        ..a
                    },
                )
            },
        None => (after, plan) == loaded(
            AppView { slideshow: restarted(a.slideshow, now), ..a },
        ),
    }
}

/// The viewer after it was sent to a folder: with the list of that folder and an empty cache, if
/// the folder holds anything to show; as it was, if not.
pub open spec fn is_opened_directory(
    a: AppView,
    dir: PathView,
    entries: Seq<EntryView>,
    now: i64,
    after: AppView,
    plan: Option<PlanView>,
) -> bool {
    exists|l: ListView|
        {
            &&& #[trigger] is_opened_list(l, dir, entries, a.settings, None)
            &&& if l.files.len() > 0 {
                (after, plan) == gone_to(
                    AppView {
                        root: Some(root_after(a.root, dir)),
                        cache: CacheState { cached: Seq::empty(), awaited: Set::empty() },
                        ..a
                    },
                    l,
                    now,
                )
            } else {
                after == a && plan is None
            }
        }
}

/// The viewer after its current image was decoded: the image is shown and kept, or the error told.
pub open spec fn with_image(a: AppView, path: PathView, result: Result<ColorImage, String>) -> AppView {
    match result {
        Ok(image) => AppView {
            image_size: Some((image.size[0], image.size[1])),
            cache: CacheState {
                cached: inserted(a.cache.cached, path, image, a.max_bytes),
                awaited: a.cache.awaited.remove(path),
            },
            ..a
        },
        Err(e) => AppView { error: Some(e@), ..a },
    }
}

/// The viewer after its current video was opened: the video is shown, as loud as the settings say,
/// or the error told.
pub open spec fn with_video(a: AppView, result: Result<VideoPlayer, String>) -> AppView {
    match result {
        Ok(player) => AppView {
            image_size: Some((player.video_size[0] as usize, player.video_size[1] as usize)),
            video: Some(
                VideoPlayer {
                    volume: if a.settings.volume < 200 {
                        a.settings.volume
                    } else {
                        200
                    },
                    ..player
                },
            ),
            ..a
        },
        Err(e) => AppView { error: Some(e@), ..a },
    }
}

impl ViewerApp {
    fn follow_title_root(&mut self, dir: &MediaPath)
        ensures
            final(self)@ == (AppView {
                root: Some(root_after(old(self)@.root, dir@)),
                ..old(self)@
            }),
            final(self).cache == old(self).cache,
            final(self).slideshow == old(self).slideshow,
    {
        let root = next_title_root(self.title_root.as_ref(), dir);
        self.title_root = Some(root);
    }

    /// Opens a file by its resolved path; `entries` are the entries of the folder that it is in.
    pub fn open_file(&mut self, file: &MediaPath, entries: &Vec<DirEntry>, now: i64) -> (plan:
        LoadPlan)
        requires
            old(self).wf(),
        ensures
            is_opened_file(old(self)@, file@, entry_views(entries@), now, final(self)@, plan@),
            final(self).wf(),
    {
        let ghost before = self@;
        self.slideshow.restart(now);
        if let Some(dir) = file.parent() {
            let list = open_list(&dir, entries, &self.settings, Some(file));
            let ghost l = list@;
            self.follow_title_root(&dir);
            self.file_list = Some(list);
            assert(self@ == AppView {
                list: Some(l),
                root: Some(root_after(before.root, dir@)),
                slideshow: restarted(before.slideshow, now),
                ..before
            });
        }
        self.load_current_image()
    }

    /// Says that a path could not be resolved.
    pub fn report_unresolved(&mut self, path: &str, reason: &str)
        ensures
            final(self)@ == (AppView {
                error: Some("Cannot resolve path "@ + path@ + ": "@ + reason@),
                ..old(self)@
            }),
            old(self).wf() ==> final(self).wf(),
    {
        let mut message = copy_text("Cannot resolve path ");
        message.append(path);
        message.append(": ");
        message.append(reason);
        self.error_message = Some(message);
    }

    /// Goes to a folder with the given entries, if it holds anything to show.
    pub fn open_directory(&mut self, dir: &MediaPath, entries: &Vec<DirEntry>, now: i64) -> (plan:
        Option<LoadPlan>)
        requires
            old(self).wf(),
        ensures
            is_opened_directory(
                old(self)@,
                dir@,
                entry_views(entries@),
                now,
                final(self)@,
                plan_view(plan),
            ),
            final(self).wf(),
    {
        let ghost before = self@;
        let list = open_list(dir, entries, &self.settings, None);
        let ghost l = list@;
        if list.file_count() > 0 {
            self.cache.clear();
            self.follow_title_root(dir);
            self.file_list = Some(list);
            self.slideshow.restart(now);
            assert(self@ == AppView {
                list: Some(l),
                root: Some(root_after(before.root, dir@)),
                slideshow: restarted(before.slideshow, now),
                cache: CacheState { cached: Seq::empty(), awaited: Set::empty() },
                ..before
            });
            Some(self.load_current_image())
        } else {
            None
        }
    }

    /// Takes in what decoding the current image came to.
    pub fn image_decoded(&mut self, path: &MediaPath, result: Result<ColorImage, String>)
        requires
            old(self).wf(),
            result matches Ok(image) ==> image.wf(),
        ensures
            final(self)@ == with_image(old(self)@, path@, result),
            final(self).wf(),
    {
        match result {
            Ok(image) => {
                self.image_size = Some((image.size[0], image.size[1]));
                self.cache.insert(path, image);
            },
            Err(e) => {
                self.error_message = Some(e);
            },
        }
    }

    /// Takes in what opening the current video came to.
    pub fn video_opened(&mut self, result: Result<VideoPlayer, String>)
        ensures
            final(self)@ == with_video(old(self)@, result),
            old(self).wf() ==> final(self).wf(),
    {
        match result {
            Ok(opened) => {
                let mut player = opened;
                player.set_volume(self.settings.volume);
                self.image_size = Some(
                    (player.video_size[0] as usize, player.video_size[1] as usize),
                );
                self.video_player = Some(player);
            },
            Err(e) => {
                self.error_message = Some(e);
            },
        }
    }
}

/// How many bytes of images are kept decoded.
pub const CACHE_BYTES: usize = 536_870_912;

/// How many files before and after the current one are kept at hand.
pub const NEARBY_RANGE: usize = 3;

/// The fit mode that a setting stands for.
pub open spec fn fit_of(s: FitModeSetting) -> FitMode {
    match s {
        FitModeSetting::FitToWindow => FitMode::FitToWindow,
        FitModeSetting::OriginalSize => FitMode::OriginalSize,
    }
}

/// The setting that stands for a fit mode.
pub open spec fn fit_saved(mode: FitMode) -> FitModeSetting {
    match mode {
        FitMode::FitToWindow => FitModeSetting::FitToWindow,
        FitMode::OriginalSize => FitModeSetting::OriginalSize,
    }
}

/// The settings with what the viewer now shows in them: rotation, fit mode and interval, and how
/// the list is sorted, if there is one. Whether a slideshow runs is not among them.
pub open spec fn recorded(a: AppView) -> Settings {
    let shown = Settings {
        rotation: a.rotation,
        fit_mode: fit_saved(a.fit_mode),
        slideshow_tenths: a.slideshow.tenths,
        ..a.settings
    };
    match a.list {
        Some(l) => Settings {
            sort_key: key_saved(l.rule.sort_key),
            sort_order: order_saved(l.rule.sort_order),
            group_by: grouping_saved(l.rule.group_by),
            file_sort_key: key_saved(l.file_key),
            file_sort_order: order_saved(l.file_order),
            ..shown
        },
        None => shown,
    }
}

/// The viewer with its settings brought up to date.
pub open spec fn saved(a: AppView) -> AppView {
    AppView { settings: recorded(a), ..a }
}

/// The files near the current one.
pub open spec fn files_at_hand(a: AppView) -> Seq<PathView> {
    match a.list {
        Some(l) => nearby(l.files, l.index, NEARBY_RANGE as int),
        None => Seq::empty(),
    }
}

/// The first of `paths` that is neither a video nor uploaded, and whose image is cached.
pub open spec fn first_upload(
    paths: Seq<PathView>,
    uploaded: Seq<PathView>,
    cache: CacheState,
) -> Option<PathView>
    decreases paths.len(),
{
    if paths.len() == 0 {
        None
    } else if !is_video_path(paths[0]) && !uploaded.contains(paths[0]) && holds(
        cache.cached,
        paths[0],
    ) {
        Some(paths[0])
    } else {
        first_upload(paths.drop_first(), uploaded, cache)
    }
}

impl ViewerApp {
    /// A viewer that shows nothing, with the given settings. The slideshow is off.
    pub fn new(settings: Settings, max_texture_dim: u32) -> (r: ViewerApp)
        ensures
            r@ == (AppView {
                image_size: None,
                list: None,
                cache: CacheState { cached: Seq::empty(), awaited: Set::empty() },
                max_bytes: CACHE_BYTES as nat,
                max_texture_dim,
                rotation: settings.rotation,
                error: None,
                slideshow: Slideshow {
                    active: false,
                    tenths: clamped_tenths(
                        settings.slideshow_tenths as int,
                    ) as u16,
                    last_advance: 0,
                    end_handled: false,
                },
                fit_mode: fit_of(settings.fit_mode),
                maximized: settings.maximized,
                video: None,
                settings,
                root: None,
            }),
            r.wf(),
    {
        ViewerApp {
            image_size: None,
            file_list: None,
            cache: ImageCache::new(CACHE_BYTES, max_texture_dim),
            transform: ViewTransform { rotation: settings.rotation },
            error_message: None,
            slideshow: Slideshow::new(settings.slideshow_tenths),
            fit_mode: match settings.fit_mode {
                FitModeSetting::FitToWindow => FitMode::FitToWindow,
                FitModeSetting::OriginalSize => FitMode::OriginalSize,
            },
            is_maximized: settings.maximized,
            video_player: None,
            settings,
            title_root: None,
        }
    }

    /// Puts what the viewer now shows into the settings, to be saved.
    pub fn save_settings(&mut self)
        ensures
            final(self)@ == saved(old(self)@),
            old(self).wf() ==> final(self).wf(),
    {
        self.settings.rotation = self.transform.rotation;
        self.settings.fit_mode = match self.fit_mode {
            FitMode::FitToWindow => FitModeSetting::FitToWindow,
            FitMode::OriginalSize => FitModeSetting::OriginalSize,
        };
        self.settings.slideshow_tenths = self.slideshow.tenths;
        if let Some(list) = &self.file_list {
            self.settings.sort_key = key_setting(list.sort_key);
            self.settings.sort_order = order_setting(list.sort_order);
            self.settings.group_by = group_setting(list.group_by);
            self.settings.file_sort_key = key_setting(list.file_sort_key);
            self.settings.file_sort_order = order_setting(list.file_sort_order);
        }
    }

    /// The current place lies in the list, or not so far behind its end that no file is near.
    pub open spec fn has_files_at_hand(&self) -> bool {
        match self@.list {
            Some(l) => {
                &&& l.index + NEARBY_RANGE + 1 <= usize::MAX
                &&& l.index - NEARBY_RANGE <= l.files.len()
            },
            None => true,
        }
    }

    /// Whether the current place lies in the list, or not far behind its end.
    pub fn can_look_around(&self) -> (r: bool)
        ensures
            r == self.has_files_at_hand(),
    {
        match &self.file_list {
            Some(list) => {
                let index: usize = list.current_index();
                index <= usize::MAX - NEARBY_RANGE - 1 && (index <= NEARBY_RANGE || index
                    - NEARBY_RANGE <= list.file_count())
            },
            None => true,
        }
    }

    fn near_files(&self) -> (r: Vec<MediaPath>)
        requires
            self.has_files_at_hand(),
        ensures
            path_views(r@) == files_at_hand(self@),
    {
        match &self.file_list {
            Some(list) => list.nearby_paths(NEARBY_RANGE),
            None => {
                let r: Vec<MediaPath> = Vec::new();
                assert(path_views(r@) =~= Seq::empty());
                r
            },
        }
    }

    /// The files near the current one whose decoding starts now.
    pub fn start_preload(&mut self) -> (started: Vec<MediaPath>)
        requires
            old(self).wf(),
            old(self).has_files_at_hand(),
        ensures
            path_views(started@) == to_start(
                files_at_hand(old(self)@),
                old(self)@.cache.cached,
                old(self)@.cache.awaited,
            ),
            final(self)@ == (AppView {
                cache: CacheState {
                    awaited: old(self)@.cache.awaited.union(path_views(started@).to_set()),
                    ..old(self)@.cache
                },
                ..old(self)@
            }),
            final(self).wf(),
    {
        let paths = self.near_files();
        self.cache.preload(&paths)
    }

    /// The files of `uploaded` that are no longer near the current one.
    pub fn distant_textures(&self, uploaded: &Vec<MediaPath>) -> (r: Vec<MediaPath>)
        requires
            self.has_files_at_hand(),
        ensures
            path_views(r@) == path_views(uploaded@).filter(
                |p: PathView| !files_at_hand(self@).contains(p),
            ),
    {
        let near = self.near_files();
        let ghost at_hand = files_at_hand(self@);
        let ghost far = |p: PathView| !at_hand.contains(p);
        let ghost all = path_views(uploaded@);
        let mut r: Vec<MediaPath> = Vec::new();
        let n: usize = uploaded.len();
        let mut i: usize = 0;
        proof {
            reveal(Seq::filter);
            assert(all.take(0) =~= Seq::empty());
            assert(path_views(r@) =~= all.take(0).filter(far));
        }
        while i < n
            invariant
                i <= n,
                n == uploaded@.len(),
                all == path_views(uploaded@),
                at_hand == path_views(near@),
                far == (|p: PathView| !at_hand.contains(p)),
                path_views(r@) == all.take(i as int).filter(far),
            decreases n - i,
        {
            let path = &uploaded[i];
            let ghost before = r@;
            proof {
                reveal(Seq::filter);
                assert(all.take(i + 1).drop_last() =~= all.take(i as int));
                assert(all.take(i + 1).last() == path@);
            }
            match position_of(&near, path) {
                Some(k) => {
                    assert(at_hand[k as int] == path@);
                },
                None => {
                    assert(!at_hand.contains(path@)) by {
                        if at_hand.contains(path@) {
                            let k = choose|k: int| 0 <= k < at_hand.len() && at_hand[k] == path@;
                            assert(near@[k]@ == path@);
                        }
                    }
                    r.push(path.copied());
                    assert(path_views(r@) =~= path_views(before).push(path@));
                },
            }
            i = i + 1;
        }
        assert(all.take(n as int) =~= all);
        r
    }

    /// The next file near the current one whose image is to be uploaded; its image becomes the one
    /// most recently used.
    pub fn next_upload(&mut self, uploaded: &Vec<MediaPath>) -> (r: Option<MediaPath>)
        requires
            old(self).wf(),
            old(self).has_files_at_hand(),
        ensures
            ({
                let next = first_upload(
                    files_at_hand(old(self)@),
                    path_views(uploaded@),
                    old(self)@.cache,
                );
                match r {
                    Some(p) => next == Some(p@) && final(self)@ == (AppView {
                        cache: CacheState {
                            cached: touched(old(self)@.cache.cached, p@),
                            ..old(self)@.cache
                        },
                        ..old(self)@
                    }),
                    None => next is None && final(self)@ == old(self)@,
                }
            }),
            final(self).wf(),
    {
        let near = self.near_files();
        let ghost all = path_views(near@);
        let ghost done = path_views(uploaded@);
        let ghost cache = self@.cache;
        let n: usize = near.len();
        let mut i: usize = 0;
        assert(all.skip(0) =~= all);
        while i < n
            invariant
                i <= n,
                n == near@.len(),
                all == path_views(near@),
                all == files_at_hand(old(self)@),
                done == path_views(uploaded@),
                cache == old(self)@.cache,
                self@ == old(self)@,
                self.wf(),
                first_upload(all, done, cache) == first_upload(all.skip(i as int), done, cache),
            decreases n - i,
        {
            let path = &near[i];
            proof {
                assert(all.skip(i as int)[0] == path@);
                assert(all.skip(i as int).drop_first() =~= all.skip(i + 1));
            }
            let is_uploaded = match position_of(uploaded, path) {
                Some(k) => {
                    assert(done[k as int] == path@);
                    true
                },
                None => {
                    assert(!done.contains(path@)) by {
                        if done.contains(path@) {
                            let k = choose|k: int| 0 <= k < done.len() && done[k] == path@;
                            assert(uploaded@[k]@ == path@);
                        }
                    }
                    false
                },
            };
            if !is_video_file(path) && !is_uploaded && self.cache.contains(path) {
                let _ = self.cache.get(path);
                return Some(path.copied());
            }
            i = i + 1;
        }
        assert(all.skip(n as int) =~= Seq::empty());
        None
    }
}

/// Whether a texture of the given size has to be made anew for frames of another.
pub fn needs_new_texture(texture: Option<(u32, u32)>, width: u32, height: u32) -> (r: bool)
    ensures
        r == (texture != Some((width, height))),
{
    match texture {
        Some(size) => size.0 != width || size.1 != height,
        None => true,
    }
}

/// What there is to do about a seek.
#[derive(Clone, Copy, Debug, PartialEq, Eq, Structural)]
pub enum SeekPlan {
    /// There is no video.
    Nothing,
    /// The video is to be played from there.
    PlayFrom(i64),
    /// The seek leads past the end.
    NextFile,
    /// The seek leads before the start.
    PrevFile,
}

/// What there is to do about a seek by `delta`: what lies beyond the video is the file beside it.
pub open spec fn seek_plan(a: AppView, delta: i64, audio: Option<i64>, now: i64) -> SeekPlan {
    match a.video {
        None => SeekPlan::Nothing,
        Some(player) => {
            let target = clamped(player.position(audio, now) + delta) as i64;
            if player.seek_refusal(target) is None {
                SeekPlan::PlayFrom(target)
            } else if delta >= 0 {
                SeekPlan::NextFile
            } else {
                SeekPlan::PrevFile
            }
        },
    }
}

/// What the slideshow has to know of the video that is shown.
pub open spec fn video_status(a: AppView) -> VideoStatus {
    match a.video {
        None => VideoStatus::Absent,
        Some(player) => match player.state {
            PlaybackState::Finished => VideoStatus::Ended,
            _ => VideoStatus::Running,
        },
    }
}

/// What a tick of the slideshow comes to: where it is time, the viewer goes one file on.
pub open spec fn slid(a: AppView, now: i64) -> (AppView, Option<PlanView>) {
    let (slideshow, advances) = ticked(a.slideshow, video_status(a), now);
    let after = AppView { slideshow, ..a };
    if advances {
        gone_next(after, now)
    } else {
        (after, None)
    }
}

/// By how many percent a notch of the wheel changes the volume.
pub const VOLUME_STEP: u16 = 5;

/// The volume one step up or down, within its range.
pub open spec fn stepped_volume(volume: int, louder: bool) -> int {
    let stepped = if louder {
        volume + VOLUME_STEP
    } else {
        volume - VOLUME_STEP
    };
    if stepped < 0 {
        0
    } else if stepped > MAX_VOLUME {
        MAX_VOLUME as int
    } else {
        stepped
    }
}

/// The viewer with its video one step louder or quieter, if it has one.
pub open spec fn scrolled(a: AppView, louder: bool) -> AppView {
    match a.video {
        None => a,
        Some(player) => {
            let volume = stepped_volume(player.volume as int, louder) as u16;
            AppView {
                video: Some(VideoPlayer { volume, ..player }),
                settings: Settings { volume, ..a.settings },
                ..a
            }
        },
    }
}

/// The title of the viewer.
pub open spec fn shown_title(a: AppView, audio: Option<i64>, now: i64) -> Seq<char> {
    match shown_file(a) {
        None => empty_title(),
        Some(file) => {
            let l = a.list->0;
            let root = match a.root {
                Some(r) => r,
                None => l.dir,
            };
            file_title(root, l.dir, file, (l.index + 1) as nat, l.files.len()) + match a.video {
                Some(player) => video_suffix(
                    player.state,
                    player.volume as nat,
                    player.position(audio, now),
                    player.duration as int,
                ),
                None => if a.slideshow.active {
                    slideshow_suffix(a.slideshow.tenths as nat)
                } else {
                    ""@
                },
            }
        },
    }
}

/// The name of whether a video plays.
pub open spec fn state_name(state: PlaybackState) -> Seq<char> {
    match state {
        PlaybackState::Playing => "\"Playing\""@,
        PlaybackState::Paused => "\"Paused\""@,
        PlaybackState::Finished => "\"Finished\""@,
    }
}

/// What is written down of the viewer to find out what is wrong with it; `file` is the text of
/// the path of the current file.
pub open spec fn diagnosis(a: AppView, file: Seq<char>, audio: Option<i64>, now: i64) -> Seq<char> {
    (if shown_file(a) is Some {
        "File: "@ + file + "\n"@
    } else {
        ""@
    }) + match a.video {
        Some(player) => player.diag_info@ + "\nState: "@ + state_name(player.state) + "\nPTS: "@
            + seconds_text(player.position(audio, now)) + "\nDuration: "@ + seconds_text(
            player.duration as int,
        ),
        None => "No video player active\n"@,
    }
}

impl ViewerApp {
    /// What there is to do about a seek by `delta`.
    pub fn seek_by(&self, delta: i64, audio: Option<i64>, now: i64) -> (r: SeekPlan)
        ensures
            r == seek_plan(self@, delta, audio, now),
    {
        match &self.video_player {
            None => SeekPlan::Nothing,
            Some(player) => {
                let target: i64 = clamp_micros(
                    player.current_pts(audio, now) as i128 + delta as i128,
                );
                match player.check_seek(target) {
                    Ok(_) => SeekPlan::PlayFrom(target),
                    Err(_) => {
                        if delta >= 0 {
                            SeekPlan::NextFile
                        } else {
                            SeekPlan::PrevFile
                        }
                    },
                }
            },
        }
    }

    /// Lets the slideshow move on, where it is time.
    pub fn tick_slideshow(&mut self, now: i64) -> (plan: Option<LoadPlan>)
        requires
            old(self).wf(),
        ensures
            (final(self)@, plan_view(plan)) == slid(old(self)@, now),
            final(self).wf(),
    {
        let video = match &self.video_player {
            None => VideoStatus::Absent,
            Some(player) => match player.state {
                PlaybackState::Finished => VideoStatus::Ended,
                _ => VideoStatus::Running,
            },
        };
        if self.slideshow.tick(video, now) {
            self.next_image(now)
        } else {
            None
        }
    }

    /// Makes the video louder or quieter, and remembers its volume. There is nothing to save where
    /// there is no video.
    pub fn scroll_volume(&mut self, louder: bool) -> (save: bool)
        ensures
            save == old(self)@.video is Some,
            final(self)@ == scrolled(old(self)@, louder),
            old(self).wf() ==> final(self).wf(),
    {
        match &mut self.video_player {
            None => false,
            Some(player) => {
                let step: i32 = if louder {
                    VOLUME_STEP as i32
                } else {
                    -(VOLUME_STEP as i32)
                };
                let stepped: i32 = player.volume() as i32 + step;
                let volume: u16 = if stepped < 0 {
                    0
                } else if stepped > MAX_VOLUME as i32 {
                    MAX_VOLUME
                } else {
                    stepped as u16
                };
                player.set_volume(volume);
                self.settings.volume = volume;
                true
            },
        }
    }

    /// Makes the current folder the root of the title.
    pub fn reset_title_root(&mut self)
        ensures
            final(self)@ == (AppView {
                root: match old(self)@.list {
                    Some(l) => Some(l.dir),
                    None => old(self)@.root,
                },
                ..old(self)@
            }),
            old(self).wf() ==> final(self).wf(),
    {
        if let Some(list) = &self.file_list {
            self.title_root = Some(list.directory().copied());
        }
    }

    /// Turns the image, and records that in the settings.
    pub fn rotate(&mut self, clockwise: bool)
        ensures
            final(self)@ == saved(
                AppView {
                    rotation: ((old(self)@.rotation + if clockwise {
                        90int
                    } else {
                        270int
                    }) % 360) as u16,
                    ..old(self)@
                },
            ),
            old(self).wf() ==> final(self).wf(),
    {
        if clockwise {
            self.transform.rotate_cw();
        } else {
            self.transform.rotate_ccw();
        }
        self.save_settings();
    }

    /// Switches the slideshow on or off.
    pub fn switch_slideshow(&mut self, on: bool, now: i64)
        ensures
            final(self)@ == (AppView {
                slideshow: Slideshow {
                    active: on,
                    last_advance: if on && !old(self)@.slideshow.active {
                        now
                    } else {
                        old(self)@.slideshow.last_advance
                    },
                    ..old(self)@.slideshow
                },
                ..old(self)@
            }),
            old(self).wf() ==> final(self).wf(),
    {
        if on {
            self.slideshow.start(now);
        } else {
            self.slideshow.stop();
        }
    }

    /// Makes the interval of the slideshow a tenth of a second longer or shorter, and records it in
    /// the settings.
    pub fn change_interval(&mut self, longer: bool)
        ensures
            final(self)@ == saved(
                AppView {
                    slideshow: Slideshow {
                        tenths: clamped_tenths(
                            old(self)@.slideshow.tenths + if longer {
                                1int
                            } else {
                                -1int
                            },
                        ) as u16,
                        ..old(self)@.slideshow
                    },
                    ..old(self)@
                },
            ),
            old(self).wf() ==> final(self).wf(),
    {
        self.slideshow.adjust(longer);
        self.save_settings();
    }

    /// By how much frames are shown early.
    pub fn av_offset(&self) -> (r: i64)
        ensures
            r == self.settings.audio_offset_ms * 1000,
    {
        self.settings.audio_offset_ms as i64 * 1000
    }

    /// The title of the viewer.
    pub fn title_text(&self, audio: Option<i64>, now: i64) -> (r: String)
        ensures
            r@ == shown_title(self@, audio, now),
    {
        if let Some(list) = &self.file_list {
            if let Some(path) = list.current_path() {
                let root = match &self.title_root {
                    Some(p) => p.copied(),
                    None => list.directory().copied(),
                };
                let count: u64 = list.file_count() as u64;
                let place: u64 = list.current_index() as u64 + 1;
                let mut title = file_title_text(&root, list.directory(), path, place, count);
                if let Some(player) = &self.video_player {
                    let pos: i64 = player.current_pts(audio, now);
                    title.append(
                        video_suffix_text(player.state, player.volume(), pos, player.duration).as_str(),
                    );
                } else if self.slideshow.active {
                    title.append(slideshow_suffix_text(self.slideshow.tenths).as_str());
                } else {
                    title.append("");
                }
                return title;
            }
        }
        copy_text("Visual Media Viewer")
    }

    /// What is written down of the viewer to find out what is wrong with it.
    pub fn diagnostics(&self, file: &str, audio: Option<i64>, now: i64) -> (r: String)
        ensures
            r@ == diagnosis(self@, file@, audio, now),
    {
        let shown = match &self.file_list {
            Some(list) => list.current_path().is_some(),
            None => false,
        };
        let mut r = copy_text("");
        if shown {
            r = copy_text("File: ");
            r.append(file);
            r.append("\n");
        }
        match &self.video_player {
            Some(player) => {
                let mut text = copy_text(player.diag_info.as_str());
                text.append("\nState: ");
                text.append(
                    match player.state {
                        PlaybackState::Playing => "\"Playing\"",
                        PlaybackState::Paused => "\"Paused\"",
                        PlaybackState::Finished => "\"Finished\"",
                    },
                );
                text.append("\nPTS: ");
                text.append(precise_time_text(player.current_pts(audio, now)).as_str());
                text.append("\nDuration: ");
                text.append(precise_time_text(player.duration).as_str());
                r.append(text.as_str());
            },
            None => {
                r.append("No video player active\n");
            },
        }
        r
    }
}

/// What is loaded is the file that is shown: a video is opened, an image is decoded unless it is
/// cached, and nothing of what was shown before is left.
pub proof fn lemma_load_follows_file(a: AppView)
    ensures
        ({
            let (after, plan) = loaded(a);
            &&& after.error is None && after.video is None
            &&& after.list == a.list
            &&& plan is Nothing <==> shown_file(a) is None
            &&& plan is Video ==> shown_file(a) == Some(plan->Video_0) && is_video_path(
                plan->Video_0,
            )
            &&& plan is Decode ==> shown_file(a) == Some(plan->Decode_0) && !is_video_path(
                plan->Decode_0,
            ) && !holds(a.cache.cached, plan->Decode_0)
            &&& plan is Cached ==> after.image_size is Some
        }),
{
}

/// One file on and one back shows the same file again, and one back and one on does too.
pub proof fn lemma_next_then_prev(a: AppView, now: i64, later: i64)
    requires
        a.list is Some,
        a.list->0.files.len() > 1,
        0 <= a.list->0.index < a.list->0.files.len(),
    ensures
        shown_file(gone_prev(gone_next(a, now).0, later).0) == shown_file(a),
        shown_file(gone_next(gone_prev(a, now).0, later).0) == shown_file(a),
{
    lemma_next_prev_inverse(a.list->0.index, a.list->0.files.len() as int);
}

/// Settings that were saved bring back what was shown: rotation, fit mode and interval of a new
/// viewer, and how a list that it opens is sorted. The slideshow never starts by itself.
pub proof fn lemma_settings_bring_back(
    a: AppView,
    l: ListView,
    dir: PathView,
    entries: Seq<EntryView>,
    wanted: Option<PathView>,
)
    requires
        a.slideshow.wf(),
        is_opened_list(l, dir, entries, recorded(a), wanted),
    ensures
        recorded(a).rotation == a.rotation,
        fit_of(recorded(a).fit_mode) == a.fit_mode,
        clamped_tenths(recorded(a).slideshow_tenths as int) == a.slideshow.tenths,
        a.list is Some ==> l.rule == a.list->0.rule && l.file_key == a.list->0.file_key
            && l.file_order == a.list->0.file_order,
        recorded(saved(a)) == recorded(a),
{
}

/// The folder that is listed lies in the root of the title.
pub open spec fn is_rooted(a: AppView) -> bool {
    a.list is Some ==> a.root is Some && lies_under(a.list->0.dir, a.root->0)
}

/// Whatever is opened, the folder that is listed lies in the root of the title.
pub proof fn lemma_opening_keeps_rooted(
    a: AppView,
    path: PathView,
    entries: Seq<EntryView>,
    now: i64,
    after: AppView,
    plan: PlanView,
    folder_plan: Option<PlanView>,
)
    requires
        is_rooted(a),
    ensures
        is_opened_file(a, path, entries, now, after, plan) ==> is_rooted(after),
        is_opened_directory(a, path, entries, now, after, folder_plan) ==> is_rooted(after),
{
    if is_opened_file(a, path, entries, now, after, plan) {
        if let Some(dir) = parent_of(path) {
            lemma_root_holds_folder(a.root, dir);
        }
    }
    if is_opened_directory(a, path, entries, now, after, folder_plan) {
        lemma_root_holds_folder(a.root, path);
    }
}

/// A video that has ended takes a slideshow that runs on to the next file, once: where there is no
/// other file, it does not ask again; and until it has ended, it is not left.
pub proof fn lemma_slideshow_waits_for_video(a: AppView, now: i64, later: i64)
    requires
        a.video is Some,
        a.slideshow.active,
    ensures
        video_status(a) is Running ==> slid(a, now).1 is None && slid(a, now).0.list == a.list,
        video_status(a) is Ended && !a.slideshow.end_handled && a.list is Some
            && a.list->0.files.len() > 1 ==> slid(a, now).1 is Some && slid(a, now).0.list == Some(
            list_next(a.list->0),
        ),
        video_status(a) is Ended && (a.list is None || a.list->0.files.len() <= 1) ==> {
            let once = slid(a, now).0;
            &&& slid(a, now).1 is None
            &&& once.slideshow.end_handled
            &&& slid(once, later) == (once, None::<PlanView>)
        },
{
}

/// The file that the viewer moves on to is waited for anew: its slideshow has handled no end, and
/// its time has just begun.
pub proof fn lemma_move_restarts_slideshow(a: AppView, now: i64)
    requires
        a.list is Some,
        a.list->0.files.len() > 1,
    ensures
        gone_next(a, now).0.slideshow == restarted(a.slideshow, now),
        gone_prev(a, now).0.slideshow == restarted(a.slideshow, now),
{
}

/// A seek stays within the video, and the file beside it is shown where it cannot.
pub proof fn lemma_seek_stays_in_video(a: AppView, delta: i64, audio: Option<i64>, now: i64)
    requires
        a.video is Some,
    ensures
        seek_plan(a, delta, audio, now) matches SeekPlan::PlayFrom(t) ==> 0 <= t && (
        a.video->0.duration > 0 ==> t < a.video->0.duration),
        seek_plan(a, delta, audio, now) !is Nothing,
{
}

/// The volume stays in its range, and a step up and a step down is no change, short of its ends.
pub proof fn lemma_volume_range(volume: int, louder: bool)
    requires
        0 <= volume <= MAX_VOLUME,
    ensures
        0 <= stepped_volume(volume, louder) <= MAX_VOLUME,
        volume + VOLUME_STEP <= MAX_VOLUME ==> stepped_volume(stepped_volume(volume, true), false)
            == volume,
        volume >= VOLUME_STEP ==> stepped_volume(stepped_volume(volume, false), true) == volume,
{
}

/// The place at the far end of the list, seen from a page key.
pub open spec fn opposite_edge(len: int, key: PageKey) -> int {
    match key {
        PageKey::Up => len - 1,
        PageKey::Down => 0,
    }
}

/// A page key that meets the edge stops there and is remembered; pressed again, it goes to the
/// opposite edge; and it never does so at the first press.
pub proof fn lemma_page_wraps_when_pressed_again(l: ListView, key: PageKey)
    requires
        l.files.len() > 1,
        0 <= l.index < l.files.len(),
    ensures
        ({
            let len = l.files.len() as int;
            let once = list_page(l, key);
            let twice = list_page(once, key);
            &&& 0 <= once.index < len
            &&& l.edge != Some(key) && at_edge(once.index, len, key) ==> twice.index
                == opposite_edge(len, key)
            &&& l.edge != Some(key) && at_edge(l.index, len, key) ==> once.index == l.index
            &&& once.edge == Some(key) ==> at_edge(once.index, len, key)
            &&& list_next(l).edge is None && list_prev(l).edge is None
        }),
{
}

} // verus!
