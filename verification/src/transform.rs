//! How an image is turned and fitted.

use vstd::prelude::*;

verus! {

/// How an image is fitted into the window.
#[derive(Clone, Copy, Debug, PartialEq, Eq, Structural)]
pub enum FitMode {
    FitToWindow,
    OriginalSize,
}

/// How far an image is turned.
#[derive(Clone, Copy, Debug, PartialEq, Eq, Structural)]
pub struct ViewTransform {
    /// Degrees, clockwise.
    pub rotation: u16,
}

/// The corners of a texture, from the upper left clockwise.
pub open spec fn texture_corner(i: int) -> (u8, u8) {
    if i == 0 {
        (0, 0)
    } else if i == 1 {
        (1, 0)
    } else if i == 2 {
        (1, 1)
    } else {
        (0, 1)
    }
}

/// By how many quarter turns an image is turned: none where the rotation is not made of them.
pub open spec fn quarter_turns(rotation: int) -> int {
    if rotation == 90 {
        1
    } else if rotation == 180 {
        2
    } else if rotation == 270 {
        3
    } else {
        0
    }
}

/// The corner of the texture that is shown at corner `i` of an image that is turned.
pub open spec fn corner_shown(rotation: int, i: int) -> (u8, u8) {
    texture_corner((i + 4 - quarter_turns(rotation)) % 4)
}

impl ViewTransform {
    /// Shows the image unturned.
    pub fn reset_all(&mut self)
        ensures
            final(self).rotation == 0,
    {
        self.rotation = 0;
    }

    /// Turns the image clockwise.
    pub fn rotate_cw(&mut self)
        ensures
            final(self).rotation == (old(self).rotation + 90) % 360,
    {
        self.rotation = ((self.rotation as u32 + 90) % 360) as u16;
    }

    /// Turns the image counterclockwise.
    pub fn rotate_ccw(&mut self)
        ensures
            final(self).rotation == (old(self).rotation + 270) % 360,
    {
        self.rotation = ((self.rotation as u32 + 270) % 360) as u16;
    }

    /// The corners of the texture that are shown at the corners of the image, from the upper left
    /// clockwise: a turn shows at each corner what was at the one before it.
    pub fn rotated_uvs(&self) -> (r: [(u8, u8); 4])
        ensures
            forall|i: int|
                0 <= i < 4 ==> #[trigger] r@[i] == corner_shown(self.rotation as int, i),
    {
        match self.rotation {
            90 => [(0, 1), (0, 0), (1, 0), (1, 1)],
            180 => [(1, 1), (0, 1), (0, 0), (1, 0)],
            270 => [(1, 0), (1, 1), (0, 1), (0, 0)],
            _ => [(0, 0), (1, 0), (1, 1), (0, 1)],
        }
    }

    /// Whether width and height are swapped.
    pub fn is_rotated_90_or_270(&self) -> (r: bool)
        ensures
            r == (quarter_turns(self.rotation as int) % 2 == 1),
    {
        self.rotation == 90 || self.rotation == 270
    }
}

/// A turn there and a turn back leave the image as it was, and so do four turns; each turn swaps
/// width and height.
pub proof fn lemma_turns(rotation: int)
    requires
        rotation == 0 || rotation == 90 || rotation == 180 || rotation == 270,
    ensures
        ((rotation + 90) % 360 + 270) % 360 == rotation,
        ((rotation + 270) % 360 + 90) % 360 == rotation,
        ((((rotation + 90) % 360 + 90) % 360 + 90) % 360 + 90) % 360 == rotation,
        quarter_turns((rotation + 90) % 360) == (quarter_turns(rotation) + 1) % 4,
        quarter_turns((rotation + 270) % 360) == (quarter_turns(rotation) + 3) % 4,
{
}

} // verus!
