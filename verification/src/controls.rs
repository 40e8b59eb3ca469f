//! What the viewer does when keys are pressed.

use vstd::prelude::*;

use crate::folders::{FolderNode, Search};
use crate::keys::{key_interval, key_move, key_slideshow, key_turn, KeyInput, Move};
use crate::viewer::{LoadPlan, SeekPlan, ViewerApp};

verus! {

use crate::folders::{
    next_branch, next_folder, node_views, prev_branch, prev_folder, NodeView, SearchView,
};
use crate::keys::{interval_change, move_of};
use crate::file_list::PageKey;
use crate::path::lemma_lies_under_order;
use crate::slideshow::{clamped_tenths, ticked, Slideshow};
use crate::viewer::{
    gone_next, gone_page, gone_prev, is_rooted, plan_view, saved, seek_plan, slid, video_status,
    AppView, PlanView,
};

/// The folder that a move leads to, as far as folders have been read; none where there is no list
/// or the move is not one from folder to folder.
pub open spec fn folder_of(a: AppView, m: Move, known: Seq<NodeView>) -> SearchView {
    match a.list {
        None => SearchView::NotFound,
        Some(l) => match m {
            Move::NextFolder => next_folder(known, l.dir),
            Move::PrevFolder => prev_folder(known, l.dir),
            Move::NextBranch => next_branch(known, l.dir),
            Move::PrevBranch => prev_branch(known, l.dir),
            _ => SearchView::NotFound,
        },
    }
}

/// What is left to do after keys were pressed, in this order.
pub struct KeyOutcome {
    /// What there is to load.
    pub plan: Option<LoadPlan>,
    /// From where the video is to be played.
    pub play_from: Option<i64>,
    /// The way to another folder.
    pub folder: Option<Move>,
    /// Whether the settings are to be saved.
    pub save: bool,
    /// Whether the video is to be paused or played on.
    pub pause: bool,
    /// Whether the diagnosis is to be written.
    pub diagnose: bool,
}

/// What a move comes to: the viewer after it, what there is to load, and from where the video is to
/// be played.
pub open spec fn moved(a: AppView, m: Move, audio: Option<i64>, now: i64) -> (
    AppView,
    Option<PlanView>,
    Option<i64>,
) {
    match m {
        Move::NextFile => (gone_next(a, now).0, gone_next(a, now).1, None),
        Move::PrevFile => (gone_prev(a, now).0, gone_prev(a, now).1, None),
        Move::Page(key) => (gone_page(a, key, now).0, gone_page(a, key, now).1, None),
        Move::SeekBy(delta) => match seek_plan(a, delta, audio, now) {
            SeekPlan::Nothing => (a, None, None),
            SeekPlan::PlayFrom(target) => (a, None, Some(target)),
            SeekPlan::NextFile => (gone_next(a, now).0, gone_next(a, now).1, None),
            SeekPlan::PrevFile => (gone_prev(a, now).0, gone_prev(a, now).1, None),
        },
        _ => (a, None, None),
    }
}

/// Whether a move is one from folder to folder.
pub open spec fn is_folder_move(m: Move) -> bool {
    m is NextFolder || m is PrevFolder || m is NextBranch || m is PrevBranch
}

/// The viewer turned as the keys ask.
pub open spec fn key_turned(a: AppView, k: KeyInput) -> AppView {
    if k.r {
        saved(
            AppView {
                rotation: ((a.rotation + if k.shift {
                    270int
                } else {
                    90int
                }) % 360) as u16,
                ..a
            },
        )
    } else {
        a
    }
}

/// The viewer with its slideshow switched and paced as the keys ask.
pub open spec fn key_paced(a: AppView, k: KeyInput, now: i64) -> AppView {
    let switched = if k.s {
        AppView {
            slideshow: Slideshow {
                active: !k.shift,
                last_advance: if !k.shift && !a.slideshow.active {
                    now
                } else {
                    a.slideshow.last_advance
                },
                ..a.slideshow
            },
            ..a
        }
    } else {
        a
    };
    match interval_change(k) {
        Some(longer) => saved(
            AppView {
                slideshow: Slideshow {
                    tenths: clamped_tenths(
                        switched.slideshow.tenths + if longer {
                            1int
                        } else {
                            -1int
                        },
                    ) as u16,
                    ..switched.slideshow
                },
                ..switched
            },
        ),
        None => switched,
    }
}

/// The viewer with the root of its title reset, if the keys ask for it.
pub open spec fn key_rooted(a: AppView, k: KeyInput) -> AppView {
    if k.n && a.list is Some {
        AppView { root: Some(a.list->0.dir), ..a }
    } else {
        a
    }
}

/// What pressing keys comes to: the viewer afterwards, what there is to load, from where the video
/// is to be played, and the way to another folder.
pub open spec fn pressed(a: AppView, k: KeyInput, audio: Option<i64>, now: i64) -> (
    AppView,
    Option<PlanView>,
    Option<i64>,
    Option<Move>,
) {
    let asked = move_of(k, a.video is Some);
    let (after, plan, play_from) = match asked {
        Some(m) => moved(a, m, audio, now),
        None => (a, None, None),
    };
    (
        key_rooted(key_paced(key_turned(after, k), k, now), k),
        plan,
        play_from,
        if asked is Some && is_folder_move(asked->0) {
            asked
        } else {
            None
        },
    )
}

impl ViewerApp {
    /// The folder that a move leads to, as far as folders have been read.
    pub fn find_folder(&self, m: Move, known: &Vec<FolderNode>) -> (r: Search)
        ensures
            r@ == folder_of(self@, m, node_views(known@)),
    {
        match &self.file_list {
            None => Search::NotFound,
            Some(list) => match m {
                Move::NextFolder => list.next_image_dir(known),
                Move::PrevFolder => list.prev_image_dir(known),
                Move::NextBranch => list.next_branch_dir(known),
                Move::PrevBranch => list.prev_branch_dir(known),
                _ => Search::NotFound,
            },
        }
    }

    fn make_move(&mut self, m: Move, audio: Option<i64>, now: i64) -> (r: (
        Option<LoadPlan>,
        Option<i64>,
    ))
        requires
            old(self).wf(),
        ensures
            (final(self)@, plan_view(r.0), r.1) == moved(old(self)@, m, audio, now),
            final(self).wf(),
    {
        match m {
            Move::NextFile => (self.next_image(now), None),
            Move::PrevFile => (self.prev_image(now), None),
            Move::Page(key) => (self.page_image(key, now), None),
            Move::SeekBy(delta) => match self.seek_by(delta, audio, now) {
                SeekPlan::Nothing => (None, None),
                SeekPlan::PlayFrom(target) => (None, Some(target)),
                SeekPlan::NextFile => (self.next_image(now), None),
                SeekPlan::PrevFile => (self.prev_image(now), None),
            },
            _ => (None, None),
        }
    }

    fn turn_by_keys(&mut self, k: &KeyInput) -> (save: bool)
        requires
            old(self).wf(),
        ensures
            final(self)@ == key_turned(old(self)@, *k),
            save == k.r,
            final(self).wf(),
    {
        match key_turn(k) {
            Some(clockwise) => {
                self.rotate(clockwise);
                true
            },
            None => false,
        }
    }

    fn pace_by_keys(&mut self, k: &KeyInput, now: i64) -> (save: bool)
        requires
            old(self).wf(),
        ensures
            final(self)@ == key_paced(old(self)@, *k, now),
            save == (interval_change(*k) is Some),
            final(self).wf(),
    {
        if let Some(on) = key_slideshow(k) {
            self.switch_slideshow(on, now);
        }
        match key_interval(k) {
            Some(longer) => {
                self.change_interval(longer);
                true
            },
            None => false,
        }
    }

    /// Does what the keys ask for, and says what is left to do.
    pub fn press_keys(&mut self, k: &KeyInput, audio: Option<i64>, now: i64) -> (r: KeyOutcome)
        requires
            old(self).wf(),
        ensures
            ({
                let m = move_of(*k, old(self)@.video is Some);
                let (after, plan, play_from) = match m {
                    Some(m) => moved(old(self)@, m, audio, now),
                    None => (old(self)@, None, None),
                };
                &&& final(self)@ == key_rooted(key_paced(key_turned(after, *k), *k, now), *k)
                &&& plan_view(r.plan) == plan
                &&& r.play_from == play_from
                &&& r.folder == if m is Some && is_folder_move(m->0) {
                    m
                } else {
                    None
                }
            }),
            (final(self)@, plan_view(r.plan), r.play_from, r.folder) == pressed(
                old(self)@,
                *k,
                audio,
                now,
            ),
            r.save == (k.r || interval_change(*k) is Some),
            r.pause == k.space,
            r.diagnose == k.f12,
            final(self).wf(),
    {
        let asked = key_move(k, self.video_player.is_some());
        let mut plan: Option<LoadPlan> = None;
        let mut play_from: Option<i64> = None;
        let mut folder: Option<Move> = None;
        if let Some(m) = asked {
            let (load, seek) = self.make_move(m, audio, now);
            plan = load;
            play_from = seek;
            folder = match m {
                Move::NextFolder => Some(m),
                Move::PrevFolder => Some(m),
                Move::NextBranch => Some(m),
                Move::PrevBranch => Some(m),
                _ => None,
            };
        }
        let turned: bool = self.turn_by_keys(k);
        let paced: bool = self.pace_by_keys(k, now);
        if k.n {
            self.reset_title_root();
        }
        let save: bool = turned || paced;
        KeyOutcome { plan, play_from, folder, save, pause: k.space, diagnose: k.f12 }
    }
}

/// Two viewers list the same folder, and show it from the same root.
pub open spec fn same_folder(a: AppView, b: AppView) -> bool {
    &&& a.root == b.root
    &&& a.list is Some == b.list is Some
    &&& a.list is Some ==> a.list->0.dir == b.list->0.dir
}

proof fn lemma_steps_stay_in_folder(a: AppView, key: PageKey, now: i64)
    ensures
        same_folder(a, gone_next(a, now).0),
        same_folder(a, gone_prev(a, now).0),
        same_folder(a, gone_page(a, key, now).0),
{
}

/// A move from file to file, or within a video, stays in the folder.
pub proof fn lemma_moves_stay_in_folder(a: AppView, m: Move, audio: Option<i64>, now: i64)
    ensures
        same_folder(a, moved(a, m, audio, now).0),
{
    let key = match m {
        Move::Page(key) => key,
        _ => PageKey::Up,
    };
    lemma_steps_stay_in_folder(a, key, now);
}

/// The slideshow stays in the folder.
pub proof fn lemma_slideshow_stays_in_folder(a: AppView, now: i64)
    ensures
        same_folder(a, slid(a, now).0),
{
    let (slideshow, advances) = ticked(a.slideshow, video_status(a), now);
    let after = AppView { slideshow, ..a };
    lemma_steps_stay_in_folder(after, PageKey::Up, now);
}

/// Whatever keys are pressed, the folder that is listed lies in the root of the title.
pub proof fn lemma_keys_keep_rooted(a: AppView, k: KeyInput, m: Move, audio: Option<i64>, now: i64)
    requires
        is_rooted(a),
    ensures
        is_rooted(key_rooted(key_paced(key_turned(moved(a, m, audio, now).0, k), k, now), k)),
{
    let after = moved(a, m, audio, now).0;
    lemma_moves_stay_in_folder(a, m, audio, now);
    let turned = key_turned(after, k);
    assert(same_folder(after, turned));
    let paced = key_paced(turned, k, now);
    assert(same_folder(turned, paced));
    if paced.list is Some {
        let dir = paced.list->0.dir;
        lemma_lies_under_order(dir, dir, dir);
    }
}

/// Keys never start a slideshow that they were not asked to start, nor stop one, and the interval
/// stays in its range.
pub proof fn lemma_keys_pace_as_asked(a: AppView, k: KeyInput, now: i64)
    requires
        a.slideshow.wf(),
    ensures
        key_paced(a, k, now).slideshow.active == if k.s {
            !k.shift
        } else {
            a.slideshow.active
        },
        key_paced(a, k, now).slideshow.wf(),
        key_paced(key_paced(a, k, now), k, now).slideshow.last_advance == key_paced(
            a,
            k,
            now,
        ).slideshow.last_advance,
{
}

} // verus!
