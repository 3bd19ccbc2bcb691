//! Frame extraction parameters and frame selection.

pub mod diff;
pub mod ffmpeg;
