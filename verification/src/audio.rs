//! Audio capture buffering and signal-shaping routines.

pub mod capture;
pub mod playback;
pub mod processing;
