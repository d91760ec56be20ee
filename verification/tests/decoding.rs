use talk_to_me::engine::onnx_stt::{
    ctc_decode, read_step, tdt_decode, TdtDecoder, TdtStep, Vocabulary,
};

fn vocab() -> Vocabulary {
    let tokens: Vec<String> =
        ["\u{2581}he", "llo", "\u{2581}wor", "ld", "<blk>"].iter().map(|s| s.to_string()).collect();
    Vocabulary::new(tokens).unwrap()
}

fn frame(token: usize, size: usize) -> Vec<i32> {
    (0..size).map(|i| if i == token { 10 } else { -10 }).collect()
}

fn logits(tokens: &[usize], size: usize) -> Vec<i32> {
    tokens.iter().flat_map(|&t| frame(t, size)).collect()
}

#[test]
fn vocabulary_takes_last_token_as_blank() {
    let v = vocab();
    assert_eq!(v.blank_id, 4);
    assert_eq!(v.vocab_size, 5);
    assert!(Vocabulary::new(Vec::new()).is_none());
}

#[test]
fn ctc_joins_tokens_and_restores_spaces() {
    let v = vocab();
    let l = logits(&[0, 1, 4, 2, 3], 5);
    assert_eq!(ctc_decode(&l, 5, 5, &v), "hello world");
}

#[test]
fn ctc_collapses_immediate_repeats() {
    let v = vocab();
    let l = logits(&[1, 1, 1], 5);
    assert_eq!(ctc_decode(&l, 3, 5, &v), "llo");
}

#[test]
fn ctc_keeps_repeats_parted_by_a_blank() {
    let v = vocab();
    let l = logits(&[1, 4, 1], 5);
    assert_eq!(ctc_decode(&l, 3, 5, &v), "llollo");
}

#[test]
fn ctc_ignores_inserted_blanks() {
    let v = vocab();
    let plain = ctc_decode(&logits(&[0, 1, 2, 3], 5), 4, 5, &v);
    let padded = ctc_decode(&logits(&[4, 0, 4, 4, 1, 2, 4, 3, 4], 5), 9, 5, &v);
    assert_eq!(plain, "hello world");
    assert_eq!(padded, plain);
}

#[test]
fn ctc_takes_the_last_of_equal_scores() {
    let v = vocab();
    let l = vec![7, 7, 0, 7, 0];
    assert_eq!(ctc_decode(&l, 1, 5, &v), "ld");
}

#[test]
fn ctc_stops_at_the_first_incomplete_frame() {
    let v = vocab();
    let mut l = logits(&[0, 1], 5);
    l.extend_from_slice(&[1, 2, 3]);
    assert_eq!(ctc_decode(&l, 3, 5, &v), "hello");
}

#[test]
fn ctc_skips_tokens_without_a_text() {
    let v = vocab();
    let l = logits(&[0, 6, 1], 7);
    assert_eq!(ctc_decode(&l, 3, 7, &v), "hello");
}

#[test]
fn ctc_of_nothing_is_empty() {
    let v = vocab();
    assert_eq!(ctc_decode(&[], 0, 5, &v), "");
    assert_eq!(ctc_decode(&[], 4, 0, &v), "");
}

#[test]
fn step_reading_splits_tokens_and_durations() {
    let v = vocab();
    let mut l = frame(2, 5);
    l.extend_from_slice(&[0, 0, 9, 0, 0]);
    assert_eq!(read_step(&l, &v), Some(TdtStep { token: 2, duration: 2 }));
    assert_eq!(read_step(&frame(2, 5), &v), Some(TdtStep { token: 2, duration: 0 }));
    assert_eq!(read_step(&[1, 2, 3, 4], &v), None);
}

#[test]
fn decoder_stays_on_a_frame_until_the_cap() {
    let v = vocab();
    let mut d = TdtDecoder::new(30, 3, 10, &v, 2);
    assert_eq!(d.frames, 3);
    assert!(d.advance(TdtStep { token: 0, duration: 0 }, &v));
    assert_eq!((d.frame, d.emitted_this_step, d.prev_token), (0, 1, 0));
    assert!(d.advance(TdtStep { token: 1, duration: 0 }, &v));
    assert_eq!((d.frame, d.emitted_this_step, d.prev_token), (1, 0, 1));
    assert!(!d.advance(TdtStep { token: 4, duration: 0 }, &v));
    assert_eq!((d.frame, d.emitted_this_step, d.prev_token), (2, 0, 1));
    assert!(d.advance(TdtStep { token: 2, duration: 3 }, &v));
    assert_eq!(d.frame, 5);
    assert!(d.is_done());
    assert_eq!(d.tokens, vec![0, 1, 2]);
    assert_eq!(d.text(&v), "hello wor");
}

#[test]
fn decoder_reads_only_whole_encoder_frames() {
    let v = vocab();
    assert_eq!(TdtDecoder::new(25, 3, 10, &v, 10).frames, 2);
    assert_eq!(TdtDecoder::new(25, 2, 10, &v, 10).frames, 2);
    assert_eq!(TdtDecoder::new(0, 3, 0, &v, 10).frames, 3);
}

#[test]
fn transducer_ends_on_all_blank_scores() {
    let v = vocab();
    let calls = std::cell::Cell::new(0usize);
    let out = tdt_decode(
        |_frame, _prev, _adopt| -> Result<Vec<i32>, String> {
            calls.set(calls.get() + 1);
            Ok(frame(4, 5))
        },
        80,
        8,
        10,
        &v,
        10,
    )
    .unwrap();
    assert_eq!(out.text, "");
    assert!(out.tokens.is_empty());
    assert_eq!(calls.get(), 8);
    assert_eq!(out.frame, 8);
}

#[test]
fn transducer_ends_on_zero_duration_forever() {
    let v = vocab();
    let calls = std::cell::Cell::new(0usize);
    let out = tdt_decode(
        |_frame, _prev, _adopt| -> Result<Vec<i32>, String> {
            calls.set(calls.get() + 1);
            Ok(frame(1, 5))
        },
        40,
        4,
        10,
        &v,
        10,
    )
    .unwrap();
    assert_eq!(calls.get(), 40);
    assert_eq!(out.tokens.len(), 40);
    assert_eq!(out.frame, 4);
    assert_eq!(out.text, "llo".repeat(40));
}

#[test]
fn transducer_follows_durations_and_context() {
    let v = vocab();
    let seen = std::cell::RefCell::new(Vec::new());
    let out = tdt_decode(
        |at, prev, adopt| -> Result<Vec<i32>, String> {
            seen.borrow_mut().push((at, prev, adopt));
            let (token, duration) = match at {
                0 => (0, 1),
                1 => (1, 2),
                3 => (4, 0),
                4 => (2, 1),
                _ => (3, 4),
            };
            let mut scores = frame(token, 5);
            scores.extend(frame(duration, 5));
            Ok(scores)
        },
        60,
        6,
        10,
        &v,
        10,
    )
    .unwrap();
    assert_eq!(out.tokens, vec![0, 1, 2, 3]);
    assert_eq!(out.text, "hello world");
    assert_eq!(out.frame, 9);
    assert!(!out.unreadable);
    assert_eq!(
        out.steps,
        vec![
            TdtStep { token: 0, duration: 1 },
            TdtStep { token: 1, duration: 2 },
            TdtStep { token: 4, duration: 0 },
            TdtStep { token: 2, duration: 1 },
            TdtStep { token: 3, duration: 4 },
        ]
    );
    assert_eq!(
        *seen.borrow(),
        vec![(0, 4, false), (1, 0, true), (3, 1, true), (4, 1, false), (5, 2, true)]
    );
}

#[test]
fn transducer_stops_on_short_scores_and_keeps_the_text() {
    let v = vocab();
    let out = tdt_decode(
        |at, _prev, _adopt| -> Result<Vec<i32>, String> {
            if at == 0 {
                let mut scores = frame(0, 5);
                scores.extend(frame(1, 5));
                Ok(scores)
            } else {
                Ok(vec![1, 2, 3])
            }
        },
        30,
        3,
        10,
        &v,
        10,
    )
    .unwrap();
    assert_eq!(out.text, "he");
    assert_eq!(out.frame, 1);
    assert!(out.unreadable);
    assert_eq!(out.steps, vec![TdtStep { token: 0, duration: 1 }]);
}

#[test]
fn transducer_hands_on_the_step_error() {
    let v = vocab();
    let out = tdt_decode(
        |_at, _prev, _adopt| -> Result<Vec<i32>, String> { Err("no session".to_string()) },
        30,
        3,
        10,
        &v,
        10,
    );
    assert_eq!(out.err(), Some("no session".to_string()));
}

#[test]
fn transducer_with_zero_cap_emits_once_per_frame() {
    let v = vocab();
    let out = tdt_decode(
        |_at, _prev, _adopt| -> Result<Vec<i32>, String> { Ok(frame(1, 5)) },
        30,
        3,
        10,
        &v,
        0,
    )
    .unwrap();
    assert_eq!(out.tokens, vec![1, 1, 1]);
}

#[test]
fn transducer_without_frames_makes_no_call() {
    let v = vocab();
    for (len, frames, dim) in [(0usize, 0usize, 10usize), (5, 3, 10), (100, 0, 10)] {
        let out = tdt_decode(
            |_at, _prev, _adopt| -> Result<Vec<i32>, String> { panic!("called") },
            len,
            frames,
            dim,
            &v,
            10,
        )
        .unwrap();
        assert_eq!(out.text, "");
        assert!(out.tokens.is_empty() && out.steps.is_empty());
        assert_eq!(out.frame, 0);
        assert!(!out.unreadable);
    }
}

#[test]
fn transducer_stops_at_the_first_failed_step() {
    let v = vocab();
    let calls = std::cell::Cell::new(0usize);
    let out = tdt_decode(
        |at, _prev, _adopt| -> Result<Vec<i32>, String> {
            calls.set(calls.get() + 1);
            if at == 2 {
                Err(format!("failed at {}", at))
            } else {
                Ok(frame(4, 5))
            }
        },
        50,
        5,
        10,
        &v,
        10,
    );
    assert_eq!(out.err(), Some("failed at 2".to_string()));
    assert_eq!(calls.get(), 3);
}
