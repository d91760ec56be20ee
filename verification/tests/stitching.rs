use talk_to_me::commands::stt::{
    append_chunk_text, cancel_session, finish_session, injection_route, poll_action,
    requested_language, start_session, stop_session, streaming_threshold, InjectionRoute,
    PollAction, SessionError,
};
use talk_to_me::engine::{Segment, TranscriptionResult};
use talk_to_me::state::{AppStatus, InjectionMode, StreamingState};

fn stitch(acc: &str, chunk: &str) -> String {
    let mut text = acc.to_string();
    append_chunk_text(&mut text, chunk);
    text
}

#[test]
fn sentence_mark_is_dropped_before_lowercase() {
    assert_eq!(stitch("Hello there.", "and more"), "Hello there and more");
    assert_eq!(stitch("Really!", "yes"), "Really yes");
    assert_eq!(stitch("Really?", "yes"), "Really yes");
}

#[test]
fn sentence_mark_is_kept_before_uppercase() {
    assert_eq!(stitch("Hello there.", "And more"), "Hello there. And more");
    assert_eq!(stitch("Hello there.", "1 more"), "Hello there. 1 more");
}

#[test]
fn lowercase_beyond_ascii_counts() {
    assert_eq!(stitch("Oui.", "\u{e9}t\u{e9}"), "Oui \u{e9}t\u{e9}");
    assert_eq!(stitch("Oui.", "\u{c9}t\u{e9}"), "Oui. \u{c9}t\u{e9}");
}

#[test]
fn other_endings_are_kept() {
    assert_eq!(stitch("Hello there,", "and more"), "Hello there, and more");
    assert_eq!(stitch("Hello there", "and more"), "Hello there and more");
    assert_eq!(stitch("Wait..", "and"), "Wait. and");
}

#[test]
fn chunk_is_trimmed_and_empty_chunks_add_nothing() {
    assert_eq!(stitch("Hello.", "   "), "Hello.");
    assert_eq!(stitch("Hello.", ""), "Hello.");
    assert_eq!(stitch("", "  first  "), "first");
    assert_eq!(stitch("a", "  b "), "a b");
    assert_eq!(stitch("", ""), "");
}

fn result(text: &str, language: Option<&str>, ms: u64, segs: Option<Vec<Segment>>) -> TranscriptionResult {
    TranscriptionResult {
        text: text.to_string(),
        language: language.map(|l| l.to_string()),
        duration_ms: ms,
        segments: segs,
    }
}

fn seg(a: u64, b: u64, t: &str) -> Segment {
    Segment { start_ms: a, end_ms: b, text: t.to_string() }
}

#[test]
fn chunks_accumulate_in_order() {
    let mut s = StreamingState::default();
    s.record_chunk(result(" Hello there. ", None, 120, Some(vec![seg(0, 10, "Hello")])));
    s.record_chunk(result("and more.", Some("en"), 80, None));
    s.record_chunk(result("Next", Some("fr"), 5, Some(vec![seg(10, 20, "a"), seg(20, 30, "b")])));
    assert_eq!(s.completed_text, "Hello there and more. Next");
    assert_eq!(s.chunks_completed, 3);
    assert_eq!(s.locked_language, Some("en".to_string()));
    assert_eq!(s.total_duration_ms, 205);
    assert_eq!(s.segments, vec![seg(0, 10, "Hello"), seg(10, 20, "a"), seg(20, 30, "b")]);
}

#[test]
fn language_locks_to_the_first_named() {
    let mut s = StreamingState::default();
    s.record_chunk(result("a", Some(""), 1, None));
    assert_eq!(s.locked_language, None);
    s.record_chunk(result("b", Some("de"), 1, None));
    s.record_chunk(result("c", Some("en"), 1, None));
    s.record_chunk(result("d", None, 1, None));
    assert_eq!(s.locked_language, Some("de".to_string()));
}

#[test]
fn session_result_has_segments_only_where_there_are_some() {
    let mut s = StreamingState::default();
    s.record_chunk(result("a", Some("en"), 7, None));
    let r = s.into_result();
    assert_eq!(r, result("a", Some("en"), 7, None));
    let mut s = StreamingState::default();
    s.record_chunk(result("a", None, 7, Some(vec![seg(1, 2, "a")])));
    assert_eq!(s.into_result().segments, Some(vec![seg(1, 2, "a")]));
}

#[test]
fn session_starts_only_from_idle() {
    let mut status = AppStatus::Idle;
    let mut streaming = None;
    assert_eq!(start_session(&mut status, &mut streaming), Ok(()));
    assert_eq!(status, AppStatus::Recording);
    assert_eq!(streaming, Some(StreamingState::default()));
    streaming.as_mut().unwrap().record_chunk(result("kept", None, 1, None));
    for busy in [
        AppStatus::Recording,
        AppStatus::Loading,
        AppStatus::Transcribing,
        AppStatus::Synthesizing,
        AppStatus::Playing,
    ] {
        let mut status = busy;
        let before = streaming.clone();
        assert_eq!(
            start_session(&mut status, &mut streaming),
            Err(SessionError::NotIdle { current: busy })
        );
        assert_eq!(status, busy);
        assert_eq!(streaming, before);
    }
}

#[test]
fn session_walks_idle_recording_transcribing_idle() {
    let mut status = AppStatus::Idle;
    let mut streaming = None;
    start_session(&mut status, &mut streaming).unwrap();
    streaming.as_mut().unwrap().record_chunk(result("one", None, 3, None));
    let gathered = stop_session(&mut status, &mut streaming, true).unwrap();
    assert_eq!(status, AppStatus::Transcribing);
    assert_eq!(streaming, None);
    assert_eq!(gathered.completed_text, "one");
    finish_session(&mut status);
    assert_eq!(status, AppStatus::Idle);
}

#[test]
fn stop_without_capture_is_refused() {
    let mut status = AppStatus::Recording;
    let mut streaming = Some(StreamingState::default());
    assert_eq!(
        stop_session(&mut status, &mut streaming, false),
        Err(SessionError::NoActiveRecording)
    );
    assert_eq!(status, AppStatus::Recording);
    assert!(streaming.is_some());
}

#[test]
fn stop_without_gathered_state_gives_a_fresh_one() {
    let mut status = AppStatus::Recording;
    let mut streaming = None;
    let gathered = stop_session(&mut status, &mut streaming, true).unwrap();
    assert_eq!(gathered, StreamingState::default());
}

#[test]
fn cancel_drops_everything() {
    for from in [AppStatus::Recording, AppStatus::Transcribing, AppStatus::Idle] {
        let mut status = from;
        let mut streaming = Some(StreamingState::default());
        cancel_session(&mut status, &mut streaming);
        assert_eq!(status, AppStatus::Idle);
        assert_eq!(streaming, None);
    }
}

#[test]
fn chunk_loop_waits_for_twenty_seconds_of_audio() {
    assert_eq!(streaming_threshold(16000), 320000);
    assert_eq!(streaming_threshold(48000), 960000);
    assert_eq!(poll_action(false, 1_000_000, 320000), PollAction::Stop);
    assert_eq!(poll_action(true, 319999, 320000), PollAction::Wait);
    assert_eq!(poll_action(true, 320000, 320000), PollAction::Drain);
}

#[test]
fn auto_language_asks_for_none() {
    assert_eq!(requested_language("auto"), None);
    assert_eq!(requested_language("fr"), Some("fr".to_string()));
    assert_eq!(requested_language(""), Some(String::new()));
}

#[test]
fn keystrokes_need_the_accessibility_permission() {
    assert_eq!(injection_route(InjectionMode::Keystroke, true), InjectionRoute::Keystrokes);
    assert_eq!(injection_route(InjectionMode::Keystroke, false), InjectionRoute::Clipboard);
    assert_eq!(injection_route(InjectionMode::Clipboard, true), InjectionRoute::Clipboard);
    assert_eq!(injection_route(InjectionMode::Clipboard, false), InjectionRoute::Clipboard);
}
