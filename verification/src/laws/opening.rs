//! What is opened and shown at first, and what choices and settings do.

use vstd::prelude::*;

verus! {

use crate::cache::holds;
use crate::file_list::{
    is_file_listing, is_image_path, is_shown, is_video_path, lemma_listing_holds_shown_files,
    shown_entries, EntryView,
};
use crate::folder_ops::{request_refusal, FolderLook};
use crate::image_decode::{lemma_log_bounds, lemma_mip_count_is_exact, mip_count};
use crate::keys::{edge_at, ResizeEdge};
use crate::laws::moving::{has_gone_to, is_among_files, one_back, one_on};
use crate::menu::{is_resorted, menu_gone, with_rule};
use crate::ordering::{SortKey, SortOrder, SortRule};
use crate::path::{lies_under, parent_of, PartView, PathView};
use crate::settings::{
    initial_settings, settings_path, settings_read, stored_settings, Settings, StoredSettings,
};
use crate::title::root_after;
use crate::transform::{corner_shown, quarter_turns};
use crate::viewer::{
    is_opened_directory, is_opened_file, is_opened_list, list_next, list_prev, starts_at, AppView,
    PlanView,
};

/// An entry that is listed: a file that is an image or a video.
pub open spec fn is_listed(e: EntryView) -> bool {
    e.is_file && (is_image_path(e.path) || is_video_path(e.path))
}

/// How a list is sorted is what the settings say.
pub open spec fn is_sorted_as_set(l: crate::file_list::ListView, s: Settings) -> bool {
    &&& l.file_key is ModifiedDate <==> s.file_sort_key is ModifiedDate
    &&& l.file_order is Descending <==> s.file_sort_order is Descending
    &&& l.rule.sort_key is ModifiedDate <==> s.sort_key is ModifiedDate
    &&& l.rule.sort_order is Descending <==> s.sort_order is Descending
    &&& l.rule.group_by is ModifiedDate <==> s.group_by is ModifiedDate
}

/// A file that is opened is shown, in the list of the folder that it is in: the list holds what the
/// folder holds, sorted as the settings say, and its current file is the one that was opened.
pub proof fn law_open_file(
    a: AppView,
    file: PathView,
    dir: PathView,
    entries: Seq<EntryView>,
    now: i64,
    after: AppView,
    plan: PlanView,
    k: int,
)
    requires
        is_opened_file(a, file, entries, now, after, plan),
        parent_of(file) == Some(dir),
        0 <= k < entries.len(),
        is_listed(entries[k]),
        entries[k].path == file,
    ensures
        after.list is Some,
        after.slideshow.last_advance == now && !after.slideshow.end_handled,
        after.slideshow.active == a.slideshow.active && after.slideshow.tenths
            == a.slideshow.tenths,
        ({
            let l = after.list->0;
            &&& l.dir == dir
            &&& 0 <= l.index < l.files.len()
            &&& l.files[l.index] == file
            &&& is_file_listing(l.files, entries, l.file_key, l.file_order)
            &&& is_sorted_as_set(l, a.settings)
            &&& l.edge is None
        }),
        plan is Video <==> is_video_path(file),
        plan is Cached <==> !is_video_path(file) && holds(a.cache.cached, file),
        plan matches PlanView::Video(p) ==> p == file,
        plan matches PlanView::Decode(p) ==> p == file,
        !(plan is Nothing),
        after.slideshow.last_advance == now,
        after.slideshow.active == a.slideshow.active,
        after.settings == a.settings,
        after.root == Some(root_after(a.root, dir)),
{
    let l = choose|l: crate::file_list::ListView|
        {
            &&& #[trigger] is_opened_list(l, dir, entries, a.settings, Some(file))
            &&& (after, plan) == crate::viewer::loaded(
                AppView {
                    list: Some(l),
                    root: Some(root_after(a.root, dir)),
                    slideshow: crate::viewer::restarted(a.slideshow, now),
                    ..a
                },
            )
        };
    assert(after.list == Some(l));
    assert(is_shown(entries[k]));
    lemma_listing_holds_shown_files(l.files, entries, l.file_key, l.file_order);
    assert(l.files.contains(file));
}

/// A folder that is opened is listed, and the file that comes first in it by name is shown, however
/// the list is sorted; images of other folders are no longer kept. A folder that holds nothing to
/// show is not opened, and all stays as it is.
pub proof fn law_open_folder(
    a: AppView,
    dir: PathView,
    entries: Seq<EntryView>,
    now: i64,
    after: AppView,
    plan: Option<PlanView>,
) -> (names: Seq<PathView>)
    requires
        is_opened_directory(a, dir, entries, now, after, plan),
    ensures
        (forall|k: int| 0 <= k < entries.len() ==> !is_listed(#[trigger] entries[k])) ==> after == a
            && plan is None,
        (exists|k: int| 0 <= k < entries.len() && is_listed(#[trigger] entries[k])) ==> {
            let l = after.list->0;
            &&& after.list is Some
            &&& after.slideshow.last_advance == now && !after.slideshow.end_handled
            &&& after.slideshow.active == a.slideshow.active && after.slideshow.tenths
                == a.slideshow.tenths
            &&& l.dir == dir
            &&& is_file_listing(l.files, entries, l.file_key, l.file_order)
            &&& is_sorted_as_set(l, a.settings)
            &&& is_file_listing(names, entries, SortKey::Name, SortOrder::Ascending)
            &&& 0 <= l.index < l.files.len()
            &&& names.len() > 0 && l.files[l.index] == names[0]
            &&& plan matches Some(PlanView::Video(p)) ==> p == names[0]
            &&& plan matches Some(PlanView::Decode(p)) ==> p == names[0]
            &&& plan matches Some(p) && (p is Video || p is Decode)
            &&& after.cache.cached.len() == 0
            &&& after.slideshow.last_advance == now
            &&& after.settings == a.settings
        },
{
    let l = choose|l: crate::file_list::ListView|
        {
            &&& #[trigger] is_opened_list(l, dir, entries, a.settings, None)
            &&& if l.files.len() > 0 {
                (after, plan) == crate::viewer::gone_to(
                    AppView {
                        root: Some(root_after(a.root, dir)),
                        cache: crate::cache::CacheState {
                            cached: Seq::empty(),
                            awaited: Set::empty(),
                        },
                        ..a
                    },
                    l,
                    now,
                )
            } else {
                after == a && plan is None
            }
        };
    let (names, first) = choose|names: Seq<PathView>, first: int|
        {
            &&& #[trigger] is_file_listing(names, entries, SortKey::Name, SortOrder::Ascending)
            &&& #[trigger] starts_at(first, names, l.files)
            &&& l.index == first
        };
    lemma_listing_holds_shown_files(l.files, entries, l.file_key, l.file_order);
    lemma_listing_holds_shown_files(names, entries, SortKey::Name, SortOrder::Ascending);
    let shown = shown_entries(entries);
    if forall|k: int| 0 <= k < entries.len() ==> !is_listed(#[trigger] entries[k]) {
        if shown.len() > 0 {
            let pred = |e: EntryView| is_shown(e);
            entries.lemma_filter_pred(pred, 0);
            assert(pred(shown[0]));
            lemma_filter_holds_only_what_was_there(entries, pred, 0);
            let k = choose|k: int| 0 <= k < entries.len() && entries[k] == shown[0];
            assert(is_listed(entries[k]));
        }
    }
    if exists|k: int| 0 <= k < entries.len() && is_listed(#[trigger] entries[k]) {
        let k = choose|k: int| 0 <= k < entries.len() && is_listed(#[trigger] entries[k]);
        assert(is_shown(entries[k]));
        assert(l.files.contains(entries[k].path));
        assert(names.contains(entries[k].path));
        assert(names.len() > 0 && l.files.len() > 0);
        let pred = |e: EntryView| is_shown(e);
        let order = crate::laws::sorting::law_file_order(
            names,
            entries,
            SortKey::Name,
            SortOrder::Ascending,
        );
        crate::laws::sorting::lemma_shown_is_listed(entries);
        assert(names[0] == shown[order[0]].path);
        entries.lemma_filter_pred(pred, order[0]);
        lemma_filter_holds_only_what_was_there(entries, pred, order[0]);
        let m = choose|m: int| 0 <= m < entries.len() && entries[m] == shown[order[0]];
        assert(is_shown(entries[m]));
        assert(l.files.contains(names[0]));
        assert(after.list == Some(l));
        assert(!holds(Seq::empty(), names[0]));
    }
    names
}

proof fn lemma_filter_holds_only_what_was_there(
    entries: Seq<EntryView>,
    pred: spec_fn(EntryView) -> bool,
    i: int,
)
    requires
        0 <= i < entries.filter(pred).len(),
    ensures
        exists|k: int| 0 <= k < entries.len() && entries[k] == entries.filter(pred)[i],
    decreases entries.len(),
{
    reveal(Seq::filter);
    if entries.len() > 0 {
        let front = entries.drop_last();
        if i < front.filter(pred).len() {
            lemma_filter_holds_only_what_was_there(front, pred, i);
            let k = choose|k: int| 0 <= k < front.len() && front[k] == front.filter(pred)[i];
            assert(entries[k] == entries.filter(pred)[i]);
        } else {
            assert(entries[entries.len() - 1] == entries.filter(pred)[i]);
        }
    }
}

/// The menu's ways to the next and the previous file are those of the arrow keys.
pub proof fn law_menu_moves(a: AppView, now: i64)
    requires
        is_among_files(a),
    ensures
        ({
            let n = a.list->0.files.len() as int;
            let i = a.list->0.index;
            let (next, load) = menu_gone(a, list_next(a.list->0), now);
            let (prev, unload) = menu_gone(a, list_prev(a.list->0), now);
            &&& has_gone_to(a, next, one_on(i, n), Some(load))
            &&& has_gone_to(a, prev, one_back(i, n), Some(unload))
            &&& next.slideshow.last_advance == now && prev.slideshow.last_advance == now
        }),
{
}

/// Sorting files otherwise keeps the current file, as long as it is there, and changes nothing but
/// the order of the files.
pub proof fn law_resort(
    a: AppView,
    key: SortKey,
    order: SortOrder,
    entries: Seq<EntryView>,
    after: AppView,
    k: int,
)
    requires
        is_resorted(a, key, order, entries, after),
        a.list is Some,
        0 <= a.list->0.index < a.list->0.files.len(),
        0 <= k < entries.len(),
        is_listed(entries[k]),
        entries[k].path == a.list->0.files[a.list->0.index],
    ensures
        after.list is Some,
        ({
            let (l, m) = (a.list->0, after.list->0);
            &&& 0 <= m.index < m.files.len()
            &&& m.files[m.index] == l.files[l.index]
            &&& is_file_listing(m.files, entries, key, order)
            &&& m.file_key == key && m.file_order == order
            &&& m.dir == l.dir && m.rule == l.rule
            &&& m.edge is None
        }),
        after.video == a.video && after.image_size == a.image_size && after.root == a.root,
        after.rotation == a.rotation && after.slideshow == a.slideshow && after.cache == a.cache,
{
    let m = after.list->0;
    assert(is_shown(entries[k]));
    lemma_listing_holds_shown_files(m.files, entries, key, order);
    assert(m.files.contains(entries[k].path));
}

/// Sorting folders otherwise changes nothing but the rule by which they are sorted.
pub proof fn law_rule(a: AppView, rule: SortRule)
    ensures
        a.list is None ==> with_rule(a, rule) == a,
        a.list is Some ==> {
            let after = with_rule(a, rule);
            &&& after.list is Some
            &&& after.list->0.rule == rule
            &&& after.list->0.files == a.list->0.files && after.list->0.index == a.list->0.index
            &&& after.list->0.dir == a.list->0.dir && after.list->0.edge == a.list->0.edge
            &&& after.list->0.file_key == a.list->0.file_key
            &&& after.list->0.file_order == a.list->0.file_order
            &&& after.video == a.video && after.settings == a.settings && after.root == a.root
        },
{
}

/// A viewer that was never set otherwise shows images unturned and fitted to the window, sorts by
/// name and ascending, does not group, plays at full volume and without an offset, and shows each
/// file of a slideshow for three seconds.
pub proof fn law_initial_settings()
    ensures
        ({
            let s = initial_settings();
            &&& s.rotation == 0 && s.fit_mode is FitToWindow
            &&& s.sort_key is Name && s.sort_order is Ascending && s.group_by is Off
            &&& s.file_sort_key is Name && s.file_sort_order is Ascending
            &&& s.volume == 100 && s.audio_offset_ms == 0 && !s.maximized
            &&& s.slideshow_tenths == 30
        }),
{
}

/// Each setting is stored under its own name and read from there. Rotation, fit and the order of
/// folders have to be stored; the others have their initial value where they are not.
pub proof fn law_stored_settings(s: Settings, f: StoredSettings)
    ensures
        ({
            let g = stored_settings(s);
            &&& g.rotation == Some(s.rotation) && g.fit_mode == Some(s.fit_mode)
            &&& g.sort_key == Some(s.sort_key) && g.sort_order == Some(s.sort_order)
            &&& g.group_by == Some(s.group_by)
            &&& g.file_sort_key == Some(s.file_sort_key)
            &&& g.file_sort_order == Some(s.file_sort_order)
            &&& g.volume == Some(s.volume) && g.audio_offset_ms == Some(s.audio_offset_ms)
            &&& g.maximized == Some(s.maximized)
            &&& g.slideshow_tenths == Some(s.slideshow_tenths)
        }),
        settings_read(Some(stored_settings(s))) == s,
        settings_read(None) == initial_settings(),
        f.rotation is None || f.fit_mode is None || f.sort_key is None || f.sort_order is None
            ==> settings_read(Some(f)) == initial_settings(),
        f.rotation is Some && f.fit_mode is Some && f.sort_key is Some && f.sort_order is Some ==> {
            let r = settings_read(Some(f));
            &&& f.rotation == Some(r.rotation) && f.fit_mode == Some(r.fit_mode)
            &&& f.sort_key == Some(r.sort_key) && f.sort_order == Some(r.sort_order)
            &&& f.group_by == Some(r.group_by) || (f.group_by is None && r.group_by is Off)
            &&& f.file_sort_key == Some(r.file_sort_key) || (f.file_sort_key is None
                && r.file_sort_key is Name)
            &&& f.file_sort_order == Some(r.file_sort_order) || (f.file_sort_order is None
                && r.file_sort_order is Ascending)
            &&& f.volume == Some(r.volume) || (f.volume is None && r.volume == 100)
            &&& f.audio_offset_ms == Some(r.audio_offset_ms) || (f.audio_offset_ms is None
                && r.audio_offset_ms == 0)
            &&& f.maximized == Some(r.maximized) || (f.maximized is None && !r.maximized)
            &&& f.slideshow_tenths == Some(r.slideshow_tenths) || (f.slideshow_tenths is None
                && r.slideshow_tenths == 30)
        },
{
}

/// An image that is not turned shows each corner of its texture at its own place, from the upper
/// left clockwise. A quarter turn clockwise shows at each corner what was at the one before it, and
/// width and height are swapped by each quarter turn.
pub proof fn law_turned_corners(rotation: int, i: int)
    requires
        rotation == 0 || rotation == 90 || rotation == 180 || rotation == 270,
        0 <= i < 4,
    ensures
        corner_shown(0, 0) == (0u8, 0u8),
        corner_shown(0, 1) == (1u8, 0u8),
        corner_shown(0, 2) == (1u8, 1u8),
        corner_shown(0, 3) == (0u8, 1u8),
        corner_shown((rotation + 90) % 360, (i + 1) % 4) == corner_shown(rotation, i),
        quarter_turns(rotation) % 2 == 1 <==> rotation == 90 || rotation == 270,
{
}

/// A window is resized at the sides that the pointer is near to: at a corner where it is near to
/// two that meet, and at no other side.
pub proof fn law_resize_edges(left: bool, right: bool, top: bool, bottom: bool)
    requires
        !(left && right),
        !(top && bottom),
    ensures
        edge_at(left, right, top, bottom) == if top {
            Some(
                if left {
                    ResizeEdge::NorthWest
                } else if right {
                    ResizeEdge::NorthEast
                } else {
                    ResizeEdge::North
                },
            )
        } else if bottom {
            Some(
                if left {
                    ResizeEdge::SouthWest
                } else if right {
                    ResizeEdge::SouthEast
                } else {
                    ResizeEdge::South
                },
            )
        } else if left {
            Some(ResizeEdge::West)
        } else if right {
            Some(ResizeEdge::East)
        } else {
            None
        },
{
}

/// A folder may be deleted just where it exists, is a folder and lies in another; and only if there
/// is a folder to go to, which is not the deleted one and does not lie in it.
pub proof fn law_deletion(file: PathView, target: FolderLook, next: Option<FolderLook>)
    ensures
        request_refusal(file, target, next) is None <==> {
            &&& parent_of(file) is Some
            &&& target.resolved is Ok && target.exists && target.is_dir
            &&& parent_of(target.resolved->Ok_0@) is Some
            &&& next is Some && next->0.resolved is Ok && next->0.is_dir
            &&& !lies_under(next->0.resolved->Ok_0@, target.resolved->Ok_0@)
        },
{
}

/// A path lies under another where it begins with all its components.
pub proof fn law_lies_under(p: PathView, base: PathView)
    ensures
        lies_under(p, base) <==> base.len() <= p.len() && forall|i: int|
            0 <= i < base.len() ==> #[trigger] p[i] == base[i],
{
    if base.len() <= p.len() && forall|i: int| 0 <= i < base.len() ==> #[trigger] p[i] == base[i] {
        assert(p.take(base.len() as int) =~= base);
    }
    if lies_under(p, base) {
        assert forall|i: int| 0 <= i < base.len() implies #[trigger] p[i] == base[i] by {
            assert(p.take(base.len() as int)[i] == p[i]);
        }
    }
}

/// A texture has as many mip levels as its longer side can be halved down to one pixel, and one
/// more, as long as no side is longer than 2097150 pixels.
pub proof fn law_mip_levels(width: nat, height: nat)
    requires
        0 < width < 0x1f_ffff || 0 < height < 0x1f_ffff,
        width < 0x1f_ffff,
        height < 0x1f_ffff,
    ensures
        mip_count(0, 0) == 1,
        ({
            let levels = mip_count(width, height);
            let (least, most) = (
                vstd::arithmetic::power2::pow2((levels - 1) as nat),
                vstd::arithmetic::power2::pow2(levels),
            );
            &&& levels >= 1
            &&& width < most && height < most
            &&& width >= least || height >= least
        }),
{
    let side = crate::image_decode::greatest(width as int, height as int) as nat;
    assert(crate::scaling::in_single(0) == 0) by {
        vstd::arithmetic::power2::lemma2_to64();
        assert(crate::scaling::excess_bits(0, crate::scaling::LEAST_24_BITS as nat) == 0);
        assert(crate::scaling::nearest(0, 1) == 0);
    }
    lemma_mip_count_is_exact(width, height);
    lemma_log_bounds(side);
}

/// A fraction is rounded to the nearest integer, and to the even one where two are equally near.
pub proof fn law_rounding(n: nat, d: nat)
    requires
        d > 0,
    ensures
        ({
            let r = crate::scaling::nearest(n, d);
            &&& 2 * n <= 2 * (r * d) + d && 2 * (r * d) <= 2 * n + d
            &&& 2 * n == 2 * (r * d) + d || 2 * (r * d) == 2 * n + d ==> r % 2 == 0
        }),
{
    vstd::arithmetic::div_mod::lemma_fundamental_div_mod(n as int, d as int);
    let q = n / d;
    assert((q + 1) * d == d * q + d) by (nonlinear_arith);
    assert(q * d == d * q) by (nonlinear_arith);
}

/// A frame that fits keeps its size. One that does not is made smaller, to sides that are even, no
/// shorter than two pixels, and no longer than there is room.
pub proof fn law_frame_size(src_w: nat, src_h: nat, max_w: nat, max_h: nat)
    requires
        src_w <= u32::MAX,
        src_h <= u32::MAX,
        2 <= max_w <= u32::MAX,
        2 <= max_h <= u32::MAX,
    ensures
        ({
            let (w, h) = crate::scaling::fitted(src_w, src_h, max_w, max_h);
            let fits = src_w <= max_w && src_h <= max_h;
            &&& fits ==> w == src_w && h == src_h
            &&& !fits ==> w % 2 == 0 && h % 2 == 0 && w >= 2 && h >= 2
            &&& w <= max_w && h <= max_h
        }),
{
    crate::scaling::lemma_fitted_fits(src_w, src_h, max_w, max_h);
}

/// A frame that is made smaller keeps its proportions: the side that is the tighter fit takes all the
/// room there is, and the other is made shorter by the same scale, each but for the few pixels that
/// whole and even numbers cost.
pub proof fn law_frame_proportions(src_w: nat, src_h: nat, max_w: nat, max_h: nat)
    requires
        0 < src_w <= u32::MAX,
        0 < src_h <= u32::MAX,
        2 <= max_w <= u32::MAX,
        2 <= max_h <= u32::MAX,
        src_w > max_w || src_h > max_h,
    ensures
        ({
            let (w, h) = crate::scaling::fitted(src_w, src_h, max_w, max_h);
            &&& max_w * src_h <= max_h * src_w ==> max_w - 3 < w <= max_w && src_h * max_w < (h + 3)
                * src_w && (h == 2 || (h - 1) * src_w < src_h * max_w)
            &&& max_w * src_h > max_h * src_w ==> max_h - 3 < h <= max_h && src_w * max_h < (w + 3)
                * src_h && (w == 2 || (w - 1) * src_h < src_w * max_h)
        }),
{
    crate::scaling::lemma_fitted_fits(src_w, src_h, max_w, max_h);
    if max_w * src_h <= max_h * src_w {
        lemma_proportions(src_w, src_h, max_w, max_h);
    } else {
        lemma_proportions(src_h, src_w, max_h, max_w);
    }
}

/// The tighter side takes the room there is, and the other is scaled with it.
proof fn lemma_proportions(src: nat, other: nat, max: nat, room: nat)
    requires
        0 < src <= u32::MAX,
        0 < other <= u32::MAX,
        2 <= max <= u32::MAX,
        2 <= room <= u32::MAX,
        src > max || other > room,
        max * other <= room * src,
    ensures
        max < src,
        ({
            let w = crate::scaling::even_side(crate::scaling::scaled_side(src, max, src));
            let h = crate::scaling::even_side(crate::scaling::scaled_side(other, max, src));
            &&& max - 3 < w
            &&& other * max < (h + 3) * src
            &&& h == 2 || (h - 1) * src < other * max
        }),
{
    assert(max < src) by (nonlinear_arith)
        requires
            src > max || other > room,
            max * other <= room * src,
            max > 0,
            room > 0,
    ;
    crate::scaling::lemma_side_keeps(src, max, src);
    crate::scaling::lemma_side_keeps(other, max, src);
    let exact = other * max;
    let bound = exact / src + 1;
    vstd::arithmetic::div_mod::lemma_fundamental_div_mod(exact as int, src as int);
    assert((bound - 1) * src <= exact < bound * src) by (nonlinear_arith)
        requires
            exact as int == (src as int) * (bound - 1) + exact as int % src as int,
            0 <= exact as int % (src as int) < src as int,
    ;
    assert(bound <= other) by (nonlinear_arith)
        requires
            (bound - 1) * src <= exact,
            exact == other * max,
            max < src,
            other > 0,
    ;
    crate::scaling::lemma_side_fits(other, max, src, bound);
    let w0 = crate::scaling::scaled_side(src, max, src);
    let h0 = crate::scaling::scaled_side(other, max, src);
    assert(max < w0 + 2) by (nonlinear_arith)
        requires
            src * max < (w0 + 2) * src,
            src > 0,
    ;
    let h = crate::scaling::even_side(h0);
    assert((h0 + 2) * src <= (h + 3) * src) by (nonlinear_arith)
        requires
            h0 <= h + 1,
    ;
    if h != 2 {
        if exact == (bound - 1) * src {
            crate::scaling::lemma_side_fits(other, max, src, (bound - 1) as nat);
            assert((h - 1) * src < exact) by (nonlinear_arith)
                requires
                    h <= bound - 1,
                    exact == (bound - 1) * src,
                    src > 0,
            ;
        } else {
            assert((h - 1) * src < exact) by (nonlinear_arith)
                requires
                    h <= bound,
                    (bound - 1) * src <= exact,
                    exact != (bound - 1) * src,
                    src > 0,
            ;
        }
    }
}

/// Where there is no other file, the menu loads the one there is anew, and the time of a slideshow
/// runs on.
pub proof fn law_menu_reloads(a: AppView, now: i64)
    requires
        a.list is Some,
        a.list->0.files.len() <= 1,
    ensures
        ({
            let (after, plan) = menu_gone(a, list_next(a.list->0), now);
            &&& (after, plan) == menu_gone(a, list_prev(a.list->0), now)
            &&& after.list == a.list
            &&& after.video is None && after.error is None
            &&& after.slideshow.last_advance == a.slideshow.last_advance
            &&& plan matches PlanView::Video(p) ==> p == a.list->0.files[0]
            &&& plan matches PlanView::Decode(p) ==> p == a.list->0.files[0]
            &&& plan is Nothing <==> !(a.list->0.index == 0 && a.list->0.files.len() == 1)
        }),
{
}

/// Sorted otherwise, a list whose current file is gone stays at its place.
pub proof fn law_resort_without_file(
    a: AppView,
    key: SortKey,
    order: SortOrder,
    entries: Seq<EntryView>,
    after: AppView,
)
    requires
        is_resorted(a, key, order, entries, after),
        a.list is Some,
        0 <= a.list->0.index < a.list->0.files.len() ==> !after.list->0.files.contains(
            a.list->0.files[a.list->0.index],
        ),
    ensures
        after.list is Some,
        after.list->0.index == a.list->0.index,
        is_file_listing(after.list->0.files, entries, key, order),
{
}

/// The settings lie in a folder of the viewer's own: under the application data, where there is such
/// a folder, else under the configuration in the home folder.
pub proof fn law_settings_path(appdata: PathView, home: PathView)
    ensures
        settings_path(Some(appdata), None) == appdata.push(
            PartView::Name("visual-media-viewer"@),
        ).push(PartView::Name("settings.json"@)),
        settings_path(Some(appdata), Some(home)) == settings_path(Some(appdata), None),
        settings_path(None, Some(home)) == home.push(PartView::Name(".config"@)).push(
            PartView::Name("visual-media-viewer"@),
        ).push(PartView::Name("settings.json"@)),
        settings_path(None, None) == seq![PartView::Name("settings.json"@)],
{
    assert(settings_path(Some(appdata), None) =~= appdata.push(
        PartView::Name("visual-media-viewer"@),
    ).push(PartView::Name("settings.json"@)));
    assert(settings_path(None, Some(home)) =~= home.push(PartView::Name(".config"@)).push(
        PartView::Name("visual-media-viewer"@),
    ).push(PartView::Name("settings.json"@)));
}

} // verus!
