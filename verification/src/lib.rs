//! The logic of an image and video viewer: what is listed, shown, decoded and played, and when.
//!
//! Files, devices, windows and clocks belong to the caller. It hands in what it has read or
//! decoded and what time it is, and does what the library answers.

pub mod audio;
pub mod cache;
pub mod controls;
pub mod decoding;
pub mod file_list;
pub mod folder_ops;
pub mod folder_tree;
pub mod folders;
pub mod image_decode;
pub mod ipc;
pub mod keys;
pub mod laws;
pub mod media_time;
pub mod menu;
pub mod ordering;
pub mod path;
pub mod scaling;
pub mod settings;
pub mod slideshow;
pub mod text;
pub mod title;
pub mod transform;
pub mod video_player;
pub mod viewer;
