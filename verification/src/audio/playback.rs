//! Playback of synthesised audio: nothing plays yet.

use vstd::prelude::*;
use crate::engine::AudioBuffer;

verus! {

/// Why playback did not do what was asked.
#[derive(Debug, Clone, Copy, PartialEq, Eq, Structural)]
pub enum PlaybackError {
    /// No output device is driven yet.
    NotSupported,
}

/// The output side of the audio path.
#[derive(Debug, Clone, Copy, PartialEq, Eq, Structural)]
pub struct AudioPlayback {}

impl AudioPlayback {
    /// A playback that is idle.
    pub fn new() -> (playback: Self) {
        AudioPlayback {  }
    }

    /// Plays a buffer: refused, whatever the buffer, as long as no output
    /// device is driven.
    pub fn play(&self, audio: &AudioBuffer) -> (played: Result<(), PlaybackError>)
        ensures
            played == Err::<(), PlaybackError>(PlaybackError::NotSupported),
    {
        Err(PlaybackError::NotSupported)
    }

    /// Stops what is playing: refused as long as no output device is driven.
    pub fn stop(&self) -> (stopped: Result<(), PlaybackError>)
        ensures
            stopped == Err::<(), PlaybackError>(PlaybackError::NotSupported),
    {
        Err(PlaybackError::NotSupported)
    }

    /// Whether audio is playing: never, so far.
    pub fn is_playing(&self) -> (playing: bool)
        ensures
            !playing,
    {
        false
    }
}

} // verus!
