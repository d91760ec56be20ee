//! What the application is doing, what a streaming session has gathered,
//! and the user's settings.

use vstd::prelude::*;
use vstd::string::StringExecFns;
use crate::engine::Segment;

verus! {

/// What the application is doing. One recording session at most is active:
/// `Idle`, then `Recording`, then `Transcribing`, then `Idle` again.
#[derive(Debug, Clone, Copy, PartialEq, Eq, Structural)]
pub enum AppStatus {
    Idle,
    Loading,
    Recording,
    Transcribing,
    Synthesizing,
    Playing,
}

impl Default for AppStatus {
    fn default() -> (status: Self)
        ensures
            status == AppStatus::Idle,
    {
        AppStatus::Idle
    }
}

/// What a recording session has transcribed so far.
#[derive(Debug, Clone, PartialEq, Eq)]
pub struct StreamingState {
    pub completed_text: String,
    pub chunks_completed: usize,
    pub locked_language: Option<String>,
    pub total_duration_ms: u64,
    pub segments: Vec<Segment>,
}

impl StreamingState {
    /// Nothing has been transcribed.
    pub open spec fn is_fresh(&self) -> bool {
        &&& self.completed_text@.len() == 0
        &&& self.chunks_completed == 0
        &&& self.locked_language is None
        &&& self.total_duration_ms == 0
        &&& self.segments@.len() == 0
    }
}

impl Default for StreamingState {
    fn default() -> (state: Self)
        ensures
            state.is_fresh(),
    {
        StreamingState {
            completed_text: String::new(),
            chunks_completed: 0,
            locked_language: None,
            total_duration_ms: 0,
            segments: Vec::new(),
        }
    }
}

/// The key combinations that start dictation and reading aloud.
#[derive(Debug, Clone, PartialEq, Eq)]
pub struct ShortcutSettings {
    pub stt: String,
    pub tts: String,
}

impl Default for ShortcutSettings {
    fn default() -> (shortcuts: Self)
        ensures
            shortcuts.stt@ == "Alt+Space"@,
            shortcuts.tts@ == "Alt+Shift+Space"@,
    {
        ShortcutSettings {
            stt: String::from_str("Alt+Space"),
            tts: String::from_str("Alt+Shift+Space"),
        }
    }
}

/// Seconds after which an unused model is unloaded, unless the user says
/// otherwise.
pub fn default_idle_timeout() -> (timeout: Option<u64>)
    ensures
        timeout == Some(300u64),
{
    Some(300)
}

/// How the finished text reaches the application in front.
#[derive(Debug, Clone, Copy, PartialEq, Eq, Structural)]
pub enum InjectionMode {
    Keystroke,
    Clipboard,
}

/// Whether the shortcut toggles recording or holds it.
#[derive(Debug, Clone, Copy, PartialEq, Eq, Structural)]
pub enum RecordingMode {
    Toggle,
    PushToTalk,
}

impl Default for RecordingMode {
    fn default() -> (mode: Self)
        ensures
            mode == RecordingMode::Toggle,
    {
        RecordingMode::Toggle
    }
}

/// Dictation settings.
#[derive(Debug, Clone, PartialEq, Eq)]
pub struct SttSettings {
    pub language: String,
    pub injection_mode: InjectionMode,
    pub recording_mode: RecordingMode,
    pub active_model_id: Option<String>,
    pub model_idle_timeout_s: Option<u64>,
}

impl Default for SttSettings {
    fn default() -> (stt: Self)
        ensures
            stt.language@ == "auto"@,
            stt.injection_mode == InjectionMode::Clipboard,
            stt.recording_mode == RecordingMode::Toggle,
            stt.active_model_id is None,
            stt.model_idle_timeout_s == Some(300u64),
    {
        SttSettings {
            language: String::from_str("auto"),
            injection_mode: InjectionMode::Clipboard,
            recording_mode: RecordingMode::Toggle,
            active_model_id: None,
            model_idle_timeout_s: Some(300),
        }
    }
}

/// Reading-aloud settings. The speed is in percent of the normal speed.
#[derive(Debug, Clone, PartialEq, Eq)]
pub struct TtsSettings {
    pub active_model_id: Option<String>,
    pub speed_percent: u32,
    pub voice_id: Option<String>,
}

impl Default for TtsSettings {
    fn default() -> (tts: Self)
        ensures
            tts.active_model_id is None,
            tts.speed_percent == 100,
            tts.voice_id is None,
    {
        TtsSettings { active_model_id: None, speed_percent: 100, voice_id: None }
    }
}

/// Settings of the application as a whole.
#[derive(Debug, Clone, Copy, PartialEq, Eq, Structural)]
pub struct GeneralSettings {
    pub launch_at_login: bool,
    pub sound_feedback: bool,
    pub onboarding_completed: bool,
}

impl Default for GeneralSettings {
    fn default() -> (general: Self)
        ensures
            general == (GeneralSettings {
                launch_at_login: false,
                sound_feedback: true,
                onboarding_completed: false,
            }),
    {
        GeneralSettings { launch_at_login: false, sound_feedback: true, onboarding_completed: false }
    }
}

/// All settings.
#[derive(Debug, Clone, PartialEq, Eq)]
pub struct Settings {
    pub shortcuts: ShortcutSettings,
    pub stt: SttSettings,
    pub tts: TtsSettings,
    pub general: GeneralSettings,
}

impl Default for Settings {
    fn default() -> (settings: Self)
        ensures
            settings.shortcuts.stt@ == "Alt+Space"@,
            settings.shortcuts.tts@ == "Alt+Shift+Space"@,
            settings.stt.language@ == "auto"@,
            settings.stt.injection_mode == InjectionMode::Clipboard,
            settings.stt.recording_mode == RecordingMode::Toggle,
            settings.stt.active_model_id is None,
            settings.stt.model_idle_timeout_s == Some(300u64),
            settings.tts.active_model_id is None,
            settings.tts.speed_percent == 100,
            settings.tts.voice_id is None,
            settings.general == (GeneralSettings {
                launch_at_login: false,
                sound_feedback: true,
                onboarding_completed: false,
            }),
    {
        Settings {
            shortcuts: ShortcutSettings::default(),
            stt: SttSettings::default(),
            tts: TtsSettings::default(),
            general: GeneralSettings::default(),
        }
    }
}

} // verus!
