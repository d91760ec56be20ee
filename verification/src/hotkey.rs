//! The dictation shortcut: which combinations exist, how they are shown,
//! and what a press or release does in each recording mode.

use vstd::prelude::*;
use vstd::string::StringExecFns;
use crate::state::{AppStatus, RecordingMode};
use crate::text::same_text;

verus! {

/// What a shortcut is bound to.
#[derive(Debug, Clone, Copy, PartialEq, Eq, Structural)]
pub enum HotkeyAction {
    ToggleStt,
    ToggleTts,
}

/// Whether the shortcut's key went down or came up.
#[derive(Debug, Clone, Copy, PartialEq, Eq, Structural)]
pub enum ShortcutState {
    Pressed,
    Released,
}

/// What the dictation shortcut brings about.
#[derive(Debug, Clone, Copy, PartialEq, Eq, Structural)]
pub enum ShortcutEffect {
    /// Start a recording session.
    StartRecording,
    /// Stop the session and transcribe.
    StopRecording,
    /// Nothing.
    Ignore,
}

/// The shortcut is one of the four that can be chosen.
pub open spec fn valid_shortcut(shortcut: Seq<char>) -> bool {
    shortcut == "Alt+Space"@ || shortcut == "Ctrl+Space"@ || shortcut == "Super+Shift+Space"@
        || shortcut == "RightCommand"@
}

/// Whether the shortcut is one of the four that can be chosen.
pub fn is_valid_shortcut(shortcut: &str) -> (valid: bool)
    ensures
        valid == valid_shortcut(shortcut@),
{
    same_text(shortcut, "Alt+Space") || same_text(shortcut, "Ctrl+Space") || same_text(
        shortcut,
        "Super+Shift+Space",
    ) || same_text(shortcut, "RightCommand")
}

/// The label of a shortcut, in key symbols.
pub open spec fn display_label(shortcut: Seq<char>) -> Seq<char> {
    if shortcut == "Ctrl+Space"@ {
        "\u{2303}Space"@
    } else if shortcut == "Super+Shift+Space"@ {
        "\u{2318}\u{21E7}Space"@
    } else if shortcut == "RightCommand"@ {
        "Right \u{2318}"@
    } else {
        "\u{2325}Space"@
    }
}

/// How a shortcut is shown to the user; an unknown one is shown as the
/// default, Option and Space.
pub fn shortcut_display_label(shortcut: &str) -> (label: &'static str)
    ensures
        label@ == display_label(shortcut@),
{
    if same_text(shortcut, "Ctrl+Space") {
        "\u{2303}Space"
    } else if same_text(shortcut, "Super+Shift+Space") {
        "\u{2318}\u{21E7}Space"
    } else if same_text(shortcut, "RightCommand") {
        "Right \u{2318}"
    } else {
        "\u{2325}Space"
    }
}

/// What the dictation shortcut does.
///
/// In toggle mode a release does nothing; a press starts a session when the
/// application is idle and stops it while it records or loads. In
/// push-to-talk mode a press starts a session when idle and a release
/// stops it while it records or loads.
pub open spec fn shortcut_effect(mode: RecordingMode, status: AppStatus, key: ShortcutState)
    -> ShortcutEffect {
    let busy = status == AppStatus::Recording || status == AppStatus::Loading;
    match (mode, key) {
        (RecordingMode::Toggle, ShortcutState::Released) => ShortcutEffect::Ignore,
        (RecordingMode::Toggle, ShortcutState::Pressed) => if status == AppStatus::Idle {
            ShortcutEffect::StartRecording
        } else if busy {
            ShortcutEffect::StopRecording
        } else {
            ShortcutEffect::Ignore
        },
        (RecordingMode::PushToTalk, ShortcutState::Pressed) => if status == AppStatus::Idle {
            ShortcutEffect::StartRecording
        } else {
            ShortcutEffect::Ignore
        },
        (RecordingMode::PushToTalk, ShortcutState::Released) => if busy {
            ShortcutEffect::StopRecording
        } else {
            ShortcutEffect::Ignore
        },
    }
}

/// Decides what a press or release of the dictation shortcut does.
pub fn handle_stt_shortcut(mode: RecordingMode, status: AppStatus, key: ShortcutState) -> (effect:
    ShortcutEffect)
    ensures
        effect == shortcut_effect(mode, status, key),
{
    let idle: bool = match status {
        AppStatus::Idle => true,
        _ => false,
    };
    let busy: bool = match status {
        AppStatus::Recording => true,
        AppStatus::Loading => true,
        _ => false,
    };
    match (mode, key) {
        (RecordingMode::Toggle, ShortcutState::Released) => ShortcutEffect::Ignore,
        (RecordingMode::Toggle, ShortcutState::Pressed) => {
            if idle {
                ShortcutEffect::StartRecording
            } else if busy {
                ShortcutEffect::StopRecording
            } else {
                ShortcutEffect::Ignore
            }
        },
        (RecordingMode::PushToTalk, ShortcutState::Pressed) => {
            if idle {
                ShortcutEffect::StartRecording
            } else {
                ShortcutEffect::Ignore
            }
        },
        (RecordingMode::PushToTalk, ShortcutState::Released) => {
            if busy {
                ShortcutEffect::StopRecording
            } else {
                ShortcutEffect::Ignore
            }
        },
    }
}

/// What a hotkey does: the dictation shortcut acts as `handle_stt_shortcut`
/// says, the reading-aloud one does nothing yet.
pub fn handle_hotkey(
    action: HotkeyAction,
    mode: RecordingMode,
    status: AppStatus,
    key: ShortcutState,
) -> (effect: ShortcutEffect)
    ensures
        effect == (match action {
            HotkeyAction::ToggleStt => shortcut_effect(mode, status, key),
            HotkeyAction::ToggleTts => ShortcutEffect::Ignore,
        }),
{
    match action {
        HotkeyAction::ToggleStt => handle_stt_shortcut(mode, status, key),
        HotkeyAction::ToggleTts => ShortcutEffect::Ignore,
    }
}

/// What a request to change the dictation shortcut asks for.
#[derive(Debug, Clone, Copy, PartialEq, Eq, Structural)]
pub enum ShortcutChange {
    /// The new shortcut is the old one.
    Unchanged,
    /// Unregister the old shortcut and register the new one.
    Rebind,
}

/// Why a shortcut was not changed.
#[derive(Debug, Clone, Copy, PartialEq, Eq, Structural)]
pub enum HotkeyError {
    /// The shortcut is none of those that can be chosen.
    InvalidShortcut,
    /// The shortcut cannot change while a recording runs.
    Recording,
}

/// Decides on a change of the dictation shortcut: refused while recording
/// and for a shortcut that cannot be chosen, nothing to do for the
/// shortcut already in use, a rebinding otherwise.
pub fn update_stt_shortcut(status: AppStatus, old_shortcut: &str, new_shortcut: &str) -> (change:
    Result<ShortcutChange, HotkeyError>)
    ensures
        change == (if status == AppStatus::Recording {
            Err::<ShortcutChange, HotkeyError>(HotkeyError::Recording)
        } else if !valid_shortcut(new_shortcut@) {
            Err::<ShortcutChange, HotkeyError>(HotkeyError::InvalidShortcut)
        } else if old_shortcut@ == new_shortcut@ {
            Ok::<ShortcutChange, HotkeyError>(ShortcutChange::Unchanged)
        } else {
            Ok::<ShortcutChange, HotkeyError>(ShortcutChange::Rebind)
        }),
{
    let recording: bool = match status {
        AppStatus::Recording => true,
        _ => false,
    };
    if recording {
        Err(HotkeyError::Recording)
    } else if !is_valid_shortcut(new_shortcut) {
        Err(HotkeyError::InvalidShortcut)
    } else if same_text(old_shortcut, new_shortcut) {
        Ok(ShortcutChange::Unchanged)
    } else {
        Ok(ShortcutChange::Rebind)
    }
}

/// The modifier flag that only the right Command key sets.
pub const RIGHT_COMMAND_MASK: u64 = 0x10;

/// What a change of the modifier flags means for the right Command key:
/// a press when its flag appears, a release when it goes, nothing otherwise.
pub fn right_command_transition(flags: u64, was_down: bool) -> (key: Option<ShortcutState>)
    ensures
        key == (if (flags & RIGHT_COMMAND_MASK) != 0 && !was_down {
            Some(ShortcutState::Pressed)
        } else if (flags & RIGHT_COMMAND_MASK) == 0 && was_down {
            Some(ShortcutState::Released)
        } else {
            None
        }),
{
    let down: bool = (flags & RIGHT_COMMAND_MASK) != 0;
    if down && !was_down {
        Some(ShortcutState::Pressed)
    } else if !down && was_down {
        Some(ShortcutState::Released)
    } else {
        None
    }
}


/// How a shortcut is listened for.
#[derive(Debug, Clone, Copy, PartialEq, Eq, Structural)]
pub enum ShortcutBackend {
    /// A tap on the modifier flags, for the right Command key alone.
    RightCommandTap,
    /// The system's global shortcuts.
    GlobalShortcut,
}

/// The way a shortcut is listened for: the right Command key needs the
/// tap, every other shortcut is a global one.
pub fn shortcut_backend(shortcut: &str) -> (backend: ShortcutBackend)
    ensures
        backend == (if shortcut@ == "RightCommand"@ {
            ShortcutBackend::RightCommandTap
        } else {
            ShortcutBackend::GlobalShortcut
        }),
{
    if same_text(shortcut, "RightCommand") {
        ShortcutBackend::RightCommandTap
    } else {
        ShortcutBackend::GlobalShortcut
    }
}

/// The line of the tray menu that shows the dictation shortcut.
pub fn tray_shortcut_label(shortcut: &str) -> (line: String)
    ensures
        line@ == "  Shortcut: "@ + display_label(shortcut@),
{
    let mut line: String = String::from_str("  Shortcut: ");
    line.append(shortcut_display_label(shortcut));
    line
}

/// The shortcut to fall back on when the saved one cannot be registered:
/// the default, unless that is the one that failed.
pub fn fallback_shortcut(saved: &str) -> (fallback: Option<&'static str>)
    ensures
        saved@ == "Alt+Space"@ ==> fallback is None,
        saved@ != "Alt+Space"@ ==> (fallback matches Some(s) && s@ == "Alt+Space"@),
{
    if same_text(saved, "Alt+Space") {
        None
    } else {
        Some("Alt+Space")
    }
}

} // verus!
