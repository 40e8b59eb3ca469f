//! What the keys do.

use vstd::prelude::*;

use crate::file_list::PageKey;

verus! {

/// The keys that were pressed since the last time, and the ones that are held.
#[derive(Clone, Copy, Debug)]
pub struct KeyInput {
    pub right: bool,
    pub left: bool,
    pub up: bool,
    pub down: bool,
    pub page_up: bool,
    pub page_down: bool,
    pub r: bool,
    pub s: bool,
    pub d: bool,
    pub f: bool,
    pub n: bool,
    pub plus: bool,
    pub equals: bool,
    pub minus: bool,
    pub space: bool,
    pub f12: bool,
    /// Whether the key `S` is held.
    pub s_held: bool,
    pub shift: bool,
    /// Whether the control key, or the command key, is held.
    pub ctrl: bool,
}

/// How far an arrow key seeks.
pub const SEEK_STEP: i64 = 10_000_000;

/// How far a page key seeks.
pub const SEEK_PAGE: i64 = 300_000_000;

/// A move to another file or folder, or to another place of a video.
#[derive(Clone, Copy, Debug, PartialEq, Eq, Structural)]
pub enum Move {
    NextFile,
    PrevFile,
    Page(PageKey),
    SeekBy(i64),
    NextFolder,
    PrevFolder,
    NextBranch,
    PrevBranch,
}

/// The move that the keys ask for. Arrow keys to the sides, and page keys, seek in a video; with
/// control, arrow keys move from file to file even there. Of several keys the first counts.
pub open spec fn move_of(k: KeyInput, is_video: bool) -> Option<Move> {
    if k.right {
        if is_video && !k.ctrl {
            Some(Move::SeekBy(SEEK_STEP))
        } else {
            Some(Move::NextFile)
        }
    } else if k.left {
        if is_video && !k.ctrl {
            Some(Move::SeekBy((-SEEK_STEP) as i64))
        } else {
            Some(Move::PrevFile)
        }
    } else if k.up {
        if k.shift {
            Some(Move::PrevBranch)
        } else {
            Some(Move::PrevFolder)
        }
    } else if k.page_up {
        if is_video {
            Some(Move::SeekBy((-SEEK_PAGE) as i64))
        } else {
            Some(Move::Page(PageKey::Up))
        }
    } else if k.down {
        if k.shift {
            Some(Move::NextBranch)
        } else {
            Some(Move::NextFolder)
        }
    } else if k.page_down {
        if is_video {
            Some(Move::SeekBy(SEEK_PAGE))
        } else {
            Some(Move::Page(PageKey::Down))
        }
    } else {
        None
    }
}

/// The move that the keys ask for.
pub fn key_move(k: &KeyInput, is_video: bool) -> (r: Option<Move>)
    ensures
        r == move_of(*k, is_video),
{
    if k.right {
        if is_video && !k.ctrl {
            return Some(Move::SeekBy(SEEK_STEP));
        }
        return Some(Move::NextFile);
    }
    if k.left {
        if is_video && !k.ctrl {
            return Some(Move::SeekBy(-SEEK_STEP));
        }
        return Some(Move::PrevFile);
    }
    if k.up {
        return Some(
            if k.shift {
                Move::PrevBranch
            } else {
                Move::PrevFolder
            },
        );
    }
    if k.page_up {
        return Some(
            if is_video {
                Move::SeekBy(-SEEK_PAGE)
            } else {
                Move::Page(PageKey::Up)
            },
        );
    }
    if k.down {
        return Some(
            if k.shift {
                Move::NextBranch
            } else {
                Move::NextFolder
            },
        );
    }
    if k.page_down {
        return Some(
            if is_video {
                Move::SeekBy(SEEK_PAGE)
            } else {
                Move::Page(PageKey::Down)
            },
        );
    }
    None
}

/// Whether the keys ask for a turn, and if so whether clockwise.
pub fn key_turn(k: &KeyInput) -> (r: Option<bool>)
    ensures
        r == if k.r {
            Some(!k.shift)
        } else {
            None
        },
{
    if k.r {
        Some(!k.shift)
    } else {
        None
    }
}

/// Whether the keys switch the slideshow, and if so whether on.
pub fn key_slideshow(k: &KeyInput) -> (r: Option<bool>)
    ensures
        r == if k.s {
            Some(!k.shift)
        } else {
            None
        },
{
    if k.s {
        Some(!k.shift)
    } else {
        None
    }
}

/// Whether the keys change the interval of the slideshow, and if so whether to a longer one.
pub open spec fn interval_change(k: KeyInput) -> Option<bool> {
    if k.plus || k.equals || (k.s_held && k.d) {
        Some(true)
    } else if k.minus || (k.s_held && k.f) {
        Some(false)
    } else {
        None
    }
}

/// Whether the keys change the interval of the slideshow, and if so whether to a longer one.
pub fn key_interval(k: &KeyInput) -> (r: Option<bool>)
    ensures
        r == interval_change(*k),
{
    if k.plus || k.equals || (k.s_held && k.d) {
        Some(true)
    } else if k.minus || (k.s_held && k.f) {
        Some(false)
    } else {
        None
    }
}

/// The edge or corner at which a window is resized.
#[derive(Clone, Copy, Debug, PartialEq, Eq, Structural)]
pub enum ResizeEdge {
    NorthWest,
    NorthEast,
    SouthWest,
    SouthEast,
    West,
    East,
    North,
    South,
}

/// The edge or corner that the pointer is at, given the sides that it is near to. A corner counts
/// before a side, and of two opposite ones the left and the upper.
pub open spec fn edge_at(left: bool, right: bool, top: bool, bottom: bool) -> Option<ResizeEdge> {
    if top && left {
        Some(ResizeEdge::NorthWest)
    } else if top && right {
        Some(ResizeEdge::NorthEast)
    } else if bottom && left {
        Some(ResizeEdge::SouthWest)
    } else if bottom && right {
        Some(ResizeEdge::SouthEast)
    } else if left {
        Some(ResizeEdge::West)
    } else if right {
        Some(ResizeEdge::East)
    } else if top {
        Some(ResizeEdge::North)
    } else if bottom {
        Some(ResizeEdge::South)
    } else {
        None
    }
}

/// The edge or corner that the pointer is at, given the sides that it is near to.
pub fn resize_edge(left: bool, right: bool, top: bool, bottom: bool) -> (r: Option<ResizeEdge>)
    ensures
        r == edge_at(left, right, top, bottom),
{
    match (left, right, top, bottom) {
        (true, _, true, _) => Some(ResizeEdge::NorthWest),
        (_, true, true, _) => Some(ResizeEdge::NorthEast),
        (true, _, _, true) => Some(ResizeEdge::SouthWest),
        (_, true, _, true) => Some(ResizeEdge::SouthEast),
        (true, _, _, _) => Some(ResizeEdge::West),
        (_, true, _, _) => Some(ResizeEdge::East),
        (_, _, true, _) => Some(ResizeEdge::North),
        (_, _, _, true) => Some(ResizeEdge::South),
        _ => None,
    }
}

/// Without control, no key moves from file to file at a video, and none seeks anywhere else.
pub proof fn lemma_video_keys(k: KeyInput)
    requires
        !k.ctrl,
    ensures
        !(move_of(k, true) matches Some(Move::NextFile)),
        !(move_of(k, true) matches Some(Move::PrevFile)),
        !(move_of(k, true) matches Some(Move::Page(_))),
        !(move_of(k, false) matches Some(Move::SeekBy(_))),
{
}

} // verus!
