//! What the viewer promises, said of what goes in and what comes out.
//!
//! The contracts of the library are stated over spec functions. The laws here say what those come to
//! for somebody who uses the viewer, in plain numbers and places: which of two folders comes first,
//! when a frame is shown, which file a key leads to.

pub mod moving;
pub mod opening;
pub mod pixels;
pub mod playback;
pub mod showing;
pub mod sorting;
pub mod storing;
pub mod streams;
pub mod texts;
