//! Changing the settings: what is kept and what a change sets off.

use vstd::prelude::*;
use crate::state::Settings;

verus! {

/// What a change of the idle timeout asks for.
#[derive(Debug, Clone, Copy, PartialEq, Eq, Structural)]
pub enum TimeoutChange {
    /// The timeout is what it was.
    Unchanged,
    /// The timeout was switched off: stop the timer and load the active
    /// model now.
    Disabled,
    /// The timeout has a new length: start the timer anew.
    Reset,
}

/// What follows from the idle timeout going from `before` to `after`.
pub open spec fn timeout_change(before: Option<u64>, after: Option<u64>) -> TimeoutChange {
    if before == after {
        TimeoutChange::Unchanged
    } else if after is None {
        TimeoutChange::Disabled
    } else {
        TimeoutChange::Reset
    }
}

/// Replaces the settings by `incoming`, except that a direction for which
/// `incoming` names no active model keeps the one it had. Says what the
/// change means for the idle timer.
pub fn update_settings(current: &mut Settings, incoming: Settings) -> (change: TimeoutChange)
    ensures
        final(current).shortcuts == incoming.shortcuts,
        final(current).general == incoming.general,
        final(current).stt.language == incoming.stt.language,
        final(current).stt.injection_mode == incoming.stt.injection_mode,
        final(current).stt.recording_mode == incoming.stt.recording_mode,
        final(current).stt.model_idle_timeout_s == incoming.stt.model_idle_timeout_s,
        final(current).tts.speed_percent == incoming.tts.speed_percent,
        final(current).tts.voice_id == incoming.tts.voice_id,
        final(current).stt.active_model_id == (if incoming.stt.active_model_id is None {
            old(current).stt.active_model_id
        } else {
            incoming.stt.active_model_id
        }),
        final(current).tts.active_model_id == (if incoming.tts.active_model_id is None {
            old(current).tts.active_model_id
        } else {
            incoming.tts.active_model_id
        }),
        change == timeout_change(
            old(current).stt.model_idle_timeout_s,
            incoming.stt.model_idle_timeout_s,
        ),
{
    let stt_active: Option<String> = current.stt.active_model_id.take();
    let tts_active: Option<String> = current.tts.active_model_id.take();
    let old_timeout: Option<u64> = current.stt.model_idle_timeout_s;
    *current = incoming;
    if current.stt.active_model_id.is_none() {
        current.stt.active_model_id = stt_active;
    }
    if current.tts.active_model_id.is_none() {
        current.tts.active_model_id = tts_active;
    }
    let new_timeout: Option<u64> = current.stt.model_idle_timeout_s;
    let same: bool = match (old_timeout, new_timeout) {
        (Some(a), Some(b)) => a == b,
        (None, None) => true,
        _ => false,
    };
    if same {
        TimeoutChange::Unchanged
    } else if new_timeout.is_none() {
        TimeoutChange::Disabled
    } else {
        TimeoutChange::Reset
    }
}

/// Whether the active model is loaded at once when the idle timeout is
/// switched off: where one is named and none is loaded.
pub fn loads_eagerly(settings: &Settings, engine_loaded: bool) -> (load: bool)
    ensures
        load == (settings.stt.active_model_id is Some && !engine_loaded),
{
    settings.stt.active_model_id.is_some() && !engine_loaded
}

} // verus!
