use talk_to_me::commands::models::{
    activates_on_install, capability_dir, delete_model, file_url, find_model, get_active_model,
    get_catalog, listing_capability, model_slug, parse_capability, startup_action, total_size,
    CatalogError, StartupAction, Unloaded,
};
use talk_to_me::commands::settings::{loads_eagerly, update_settings, TimeoutChange};
use talk_to_me::engine::{EngineType, ModelCapability};
use talk_to_me::hotkey::{
    fallback_shortcut, handle_hotkey, handle_stt_shortcut, is_valid_shortcut,
    right_command_transition, shortcut_backend, shortcut_display_label, tray_shortcut_label,
    update_stt_shortcut, HotkeyAction, HotkeyError, ShortcutBackend, ShortcutChange,
    ShortcutEffect, ShortcutState,
};
use talk_to_me::hub::api::{download_url, model_info_url};
use talk_to_me::hub::registry::{
    add_installed_model, list_installed_models, remove_installed_model, CatalogModel,
    InstalledModel, ModelFile,
};
use talk_to_me::state::{
    default_idle_timeout, AppStatus, GeneralSettings, InjectionMode, RecordingMode, Settings,
    ShortcutSettings, SttSettings, TtsSettings,
};

#[test]
fn shortcut_labels_are_key_symbols() {
    assert_eq!(shortcut_display_label("Alt+Space"), "\u{2325}Space");
    assert_eq!(shortcut_display_label("Ctrl+Space"), "\u{2303}Space");
    assert_eq!(shortcut_display_label("Super+Shift+Space"), "\u{2318}\u{21E7}Space");
    assert_eq!(shortcut_display_label("RightCommand"), "Right \u{2318}");
    assert_eq!(shortcut_display_label("F13"), "\u{2325}Space");
    assert_eq!(shortcut_display_label(""), "\u{2325}Space");
}

#[test]
fn four_shortcuts_can_be_chosen() {
    for s in ["Alt+Space", "Ctrl+Space", "Super+Shift+Space", "RightCommand"] {
        assert!(is_valid_shortcut(s));
    }
    for s in ["", "alt+space", "Escape", "Alt+Shift+Space"] {
        assert!(!is_valid_shortcut(s));
    }
}

#[test]
fn toggle_mode_acts_on_press_only() {
    let m = RecordingMode::Toggle;
    for s in [AppStatus::Idle, AppStatus::Loading, AppStatus::Recording, AppStatus::Transcribing, AppStatus::Synthesizing, AppStatus::Playing] {
        assert_eq!(handle_stt_shortcut(m, s, ShortcutState::Released), ShortcutEffect::Ignore);
    }
    assert_eq!(handle_stt_shortcut(m, AppStatus::Idle, ShortcutState::Pressed), ShortcutEffect::StartRecording);
    assert_eq!(handle_stt_shortcut(m, AppStatus::Recording, ShortcutState::Pressed), ShortcutEffect::StopRecording);
    assert_eq!(handle_stt_shortcut(m, AppStatus::Loading, ShortcutState::Pressed), ShortcutEffect::StopRecording);
    assert_eq!(handle_stt_shortcut(m, AppStatus::Transcribing, ShortcutState::Pressed), ShortcutEffect::Ignore);
    assert_eq!(handle_stt_shortcut(m, AppStatus::Playing, ShortcutState::Pressed), ShortcutEffect::Ignore);
}

#[test]
fn push_to_talk_starts_on_press_and_stops_on_release() {
    let m = RecordingMode::PushToTalk;
    assert_eq!(handle_stt_shortcut(m, AppStatus::Idle, ShortcutState::Pressed), ShortcutEffect::StartRecording);
    assert_eq!(handle_stt_shortcut(m, AppStatus::Recording, ShortcutState::Pressed), ShortcutEffect::Ignore);
    assert_eq!(handle_stt_shortcut(m, AppStatus::Recording, ShortcutState::Released), ShortcutEffect::StopRecording);
    assert_eq!(handle_stt_shortcut(m, AppStatus::Loading, ShortcutState::Released), ShortcutEffect::StopRecording);
    assert_eq!(handle_stt_shortcut(m, AppStatus::Idle, ShortcutState::Released), ShortcutEffect::Ignore);
    assert_eq!(handle_stt_shortcut(m, AppStatus::Transcribing, ShortcutState::Released), ShortcutEffect::Ignore);
    assert_eq!(
        handle_hotkey(HotkeyAction::ToggleTts, m, AppStatus::Idle, ShortcutState::Pressed),
        ShortcutEffect::Ignore
    );
    assert_eq!(
        handle_hotkey(HotkeyAction::ToggleStt, m, AppStatus::Idle, ShortcutState::Pressed),
        ShortcutEffect::StartRecording
    );
}

#[test]
fn shortcut_changes_are_checked() {
    assert_eq!(
        update_stt_shortcut(AppStatus::Recording, "Alt+Space", "Ctrl+Space"),
        Err(HotkeyError::Recording)
    );
    assert_eq!(
        update_stt_shortcut(AppStatus::Idle, "Alt+Space", "F1"),
        Err(HotkeyError::InvalidShortcut)
    );
    assert_eq!(
        update_stt_shortcut(AppStatus::Idle, "Alt+Space", "Alt+Space"),
        Ok(ShortcutChange::Unchanged)
    );
    assert_eq!(
        update_stt_shortcut(AppStatus::Transcribing, "Alt+Space", "RightCommand"),
        Ok(ShortcutChange::Rebind)
    );
}

#[test]
fn right_command_flag_edges_are_presses_and_releases() {
    assert_eq!(right_command_transition(0x10, false), Some(ShortcutState::Pressed));
    assert_eq!(right_command_transition(0x100110, false), Some(ShortcutState::Pressed));
    assert_eq!(right_command_transition(0x10, true), None);
    assert_eq!(right_command_transition(0x08, true), Some(ShortcutState::Released));
    assert_eq!(right_command_transition(0, false), None);
}

#[test]
fn hub_addresses() {
    assert_eq!(
        download_url("nvidia/parakeet", "model.onnx"),
        "https://huggingface.co/nvidia/parakeet/resolve/main/model.onnx"
    );
    assert_eq!(download_url("", ""), "https://huggingface.co//resolve/main/");
    assert_eq!(model_info_url("a/b"), "https://huggingface.co/api/models/a/b");
}

fn installed(id: &str, capability: ModelCapability) -> InstalledModel {
    InstalledModel {
        id: id.to_string(),
        name: id.to_uppercase(),
        capability,
        engine: EngineType::Onnx,
        path: format!("/models/{}", id),
        installed_at: "0".to_string(),
        size_bytes: 1,
    }
}

#[test]
fn installed_models_are_listed_by_capability() {
    let stt = ModelCapability::SpeechToText;
    let tts = ModelCapability::TextToSpeech;
    let all = vec![installed("a", stt), installed("b", tts), installed("c", stt)];
    assert_eq!(list_installed_models(all.clone(), None), all);
    assert_eq!(
        list_installed_models(all.clone(), Some(&stt)),
        vec![installed("a", stt), installed("c", stt)]
    );
    assert_eq!(list_installed_models(all.clone(), Some(&tts)), vec![installed("b", tts)]);
    assert_eq!(list_installed_models(Vec::new(), Some(&tts)), Vec::new());
}

#[test]
fn adding_a_model_replaces_one_with_the_same_id() {
    let stt = ModelCapability::SpeechToText;
    let all = vec![installed("a", stt), installed("b", stt), installed("a", stt)];
    let mut again = installed("a", stt);
    again.size_bytes = 99;
    assert_eq!(
        add_installed_model(all.clone(), again.clone()),
        vec![installed("b", stt), again.clone()]
    );
    assert_eq!(add_installed_model(Vec::new(), again.clone()), vec![again]);
    assert_eq!(remove_installed_model(all.clone(), "a"), vec![installed("b", stt)]);
    assert_eq!(remove_installed_model(all.clone(), "zz"), all);
}

#[test]
fn capabilities_have_names_and_directories() {
    assert_eq!(parse_capability("stt"), Some(ModelCapability::SpeechToText));
    assert_eq!(parse_capability("tts"), Some(ModelCapability::TextToSpeech));
    assert_eq!(parse_capability("STT"), None);
    assert_eq!(listing_capability("tts"), ModelCapability::TextToSpeech);
    assert_eq!(listing_capability("anything"), ModelCapability::SpeechToText);
    assert_eq!(capability_dir(ModelCapability::SpeechToText), "stt");
    assert_eq!(capability_dir(ModelCapability::TextToSpeech), "tts");
}

#[test]
fn model_directories_have_no_slash() {
    assert_eq!(model_slug("nvidia/parakeet-tdt"), "nvidia--parakeet-tdt");
    assert_eq!(model_slug("a/b/c/"), "a--b--c--");
    assert_eq!(model_slug("plain"), "plain");
    assert_eq!(model_slug(""), "");
}

fn file(size: u64) -> ModelFile {
    ModelFile { filename: "f".to_string(), size_bytes: size, hf_repo: None }
}

#[test]
fn model_size_is_the_sum_of_its_files() {
    assert_eq!(total_size(&vec![file(1), file(20), file(300)]), Some(321));
    assert_eq!(total_size(&Vec::new()), Some(0));
    assert_eq!(total_size(&vec![file(u64::MAX), file(0)]), Some(u64::MAX));
    assert_eq!(total_size(&vec![file(u64::MAX), file(1), file(5)]), None);
}

fn catalog_model(id: &str) -> CatalogModel {
    CatalogModel {
        id: id.to_string(),
        name: id.to_string(),
        description: None,
        capability: ModelCapability::SpeechToText,
        engine: EngineType::Onnx,
        languages: vec![],
        files: vec![],
        preprocessing: None,
        available_from_version: None,
    }
}

#[test]
fn catalog_models_are_found_by_id() {
    let catalog = vec![catalog_model("a"), catalog_model("b"), catalog_model("a")];
    assert_eq!(find_model(&catalog, "a"), Some(0));
    assert_eq!(find_model(&catalog, "b"), Some(1));
    assert_eq!(find_model(&catalog, "c"), None);
}

#[test]
fn deleting_the_active_model_clears_it() {
    let mut s = Settings::default();
    s.stt.active_model_id = Some("m".to_string());
    s.tts.active_model_id = Some("other".to_string());
    assert_eq!(delete_model(&mut s, "m"), Unloaded { stt: true, tts: false });
    assert_eq!(s.stt.active_model_id, None);
    assert_eq!(s.tts.active_model_id, Some("other".to_string()));
    assert_eq!(delete_model(&mut s, "m"), Unloaded { stt: false, tts: false });
    assert_eq!(delete_model(&mut s, "other"), Unloaded { stt: false, tts: true });
    assert_eq!(s.tts.active_model_id, None);
}

#[test]
fn active_models_are_read_by_capability_name() {
    let mut s = Settings::default();
    s.stt.active_model_id = Some("m".to_string());
    assert_eq!(get_active_model(&s, "stt"), &Some("m".to_string()));
    assert_eq!(get_active_model(&s, "tts"), &None);
    assert_eq!(get_active_model(&s, "x"), &None);
    assert!(!activates_on_install(ModelCapability::SpeechToText, &s));
    s.stt.active_model_id = None;
    assert!(activates_on_install(ModelCapability::SpeechToText, &s));
    assert!(!activates_on_install(ModelCapability::TextToSpeech, &s));
}

#[test]
fn default_settings() {
    let s = Settings::default();
    assert_eq!(
        s.shortcuts,
        ShortcutSettings { stt: "Alt+Space".to_string(), tts: "Alt+Shift+Space".to_string() }
    );
    assert_eq!(
        s.stt,
        SttSettings {
            language: "auto".to_string(),
            injection_mode: InjectionMode::Clipboard,
            recording_mode: RecordingMode::Toggle,
            active_model_id: None,
            model_idle_timeout_s: Some(300),
        }
    );
    assert_eq!(s.tts, TtsSettings { active_model_id: None, speed_percent: 100, voice_id: None });
    assert_eq!(
        s.general,
        GeneralSettings { launch_at_login: false, sound_feedback: true, onboarding_completed: false }
    );
    assert_eq!(default_idle_timeout(), Some(300));
    assert_eq!(AppStatus::default(), AppStatus::Idle);
    assert_eq!(RecordingMode::default(), RecordingMode::Toggle);
}

#[test]
fn updating_settings_keeps_active_models_that_are_not_named() {
    let mut current = Settings::default();
    current.stt.active_model_id = Some("stt-model".to_string());
    current.tts.active_model_id = Some("tts-model".to_string());
    let mut incoming = Settings::default();
    incoming.stt.language = "fr".to_string();
    incoming.tts.active_model_id = Some("new-tts".to_string());
    incoming.general.sound_feedback = false;
    assert_eq!(update_settings(&mut current, incoming), TimeoutChange::Unchanged);
    assert_eq!(current.stt.language, "fr");
    assert_eq!(current.stt.active_model_id, Some("stt-model".to_string()));
    assert_eq!(current.tts.active_model_id, Some("new-tts".to_string()));
    assert!(!current.general.sound_feedback);
}

#[test]
fn a_changed_idle_timeout_sets_off_the_timer() {
    let mut current = Settings::default();
    let mut incoming = Settings::default();
    incoming.stt.model_idle_timeout_s = None;
    assert_eq!(update_settings(&mut current, incoming), TimeoutChange::Disabled);
    let mut incoming = Settings::default();
    incoming.stt.model_idle_timeout_s = None;
    assert_eq!(update_settings(&mut current, incoming), TimeoutChange::Unchanged);
    let mut incoming = Settings::default();
    incoming.stt.model_idle_timeout_s = Some(60);
    assert_eq!(update_settings(&mut current, incoming), TimeoutChange::Reset);
    let mut incoming = Settings::default();
    incoming.stt.model_idle_timeout_s = Some(61);
    assert_eq!(update_settings(&mut current, incoming), TimeoutChange::Reset);
    current.stt.active_model_id = Some("m".to_string());
    assert!(loads_eagerly(&current, false));
    assert!(!loads_eagerly(&current, true));
    current.stt.active_model_id = None;
    assert!(!loads_eagerly(&current, false));
}

#[test]
fn catalog_is_cut_down_by_capability_name() {
    let mut tts = catalog_model("t");
    tts.capability = ModelCapability::TextToSpeech;
    let catalog = vec![catalog_model("a"), tts.clone(), catalog_model("b")];
    assert_eq!(get_catalog(catalog.clone(), None), Ok(catalog.clone()));
    assert_eq!(
        get_catalog(catalog.clone(), Some("stt")),
        Ok(vec![catalog_model("a"), catalog_model("b")])
    );
    assert_eq!(get_catalog(catalog.clone(), Some("tts")), Ok(vec![tts]));
    assert_eq!(get_catalog(catalog, Some("all")), Err(CatalogError::InvalidCapability));
}

#[test]
fn files_come_from_their_own_repository_where_they_name_one() {
    let mut f = file(1);
    f.filename = "model.onnx".to_string();
    assert_eq!(file_url(&f, "org/model"), "https://huggingface.co/org/model/resolve/main/model.onnx");
    f.hf_repo = Some("other/repo".to_string());
    assert_eq!(file_url(&f, "org/model"), "https://huggingface.co/other/repo/resolve/main/model.onnx");
}

#[test]
fn start_up_loads_defers_or_forgets_the_active_model() {
    let stt = ModelCapability::SpeechToText;
    let on_disk = vec![installed("a", stt), installed("m", stt)];
    let mut s = Settings::default();
    assert_eq!(startup_action(&s, &on_disk), StartupAction::Nothing);
    s.stt.active_model_id = Some("m".to_string());
    assert_eq!(startup_action(&s, &on_disk), StartupAction::Defer);
    s.stt.model_idle_timeout_s = None;
    assert_eq!(startup_action(&s, &on_disk), StartupAction::Load);
    s.stt.active_model_id = Some("gone".to_string());
    assert_eq!(startup_action(&s, &on_disk), StartupAction::Forget);
    assert_eq!(startup_action(&s, &Vec::new()), StartupAction::Forget);
}

#[test]
fn right_command_is_listened_for_by_a_tap() {
    assert_eq!(shortcut_backend("RightCommand"), ShortcutBackend::RightCommandTap);
    assert_eq!(shortcut_backend("Alt+Space"), ShortcutBackend::GlobalShortcut);
    assert_eq!(tray_shortcut_label("Ctrl+Space"), "  Shortcut: \u{2303}Space");
    assert_eq!(fallback_shortcut("Ctrl+Space"), Some("Alt+Space"));
    assert_eq!(fallback_shortcut("Alt+Space"), None);
}
