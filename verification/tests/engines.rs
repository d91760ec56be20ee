use talk_to_me::engine::onnx_stt::{
    ctc_layout, detect_variant, encoded_length, encoder_layout, mel_config_for, read_dimension,
    required_files, transpose, EncoderLayout, LogitsLayout, OnnxSttEngine, ParakeetVariant,
    ShapeError, StateShape, Vocabulary,
};
use talk_to_me::engine::onnx_tts::OnnxTtsEngine;
use talk_to_me::engine::whisper_stt::{to_milliseconds, WhisperSegment, WhisperSttEngine};
use talk_to_me::engine::{
    create_engine, Engine, EngineError, EngineKind, EngineType, ModelCapability, Segment,
};

#[test]
fn engines_exist_for_three_combinations() {
    assert_eq!(
        create_engine(&EngineType::WhisperCpp, &ModelCapability::SpeechToText),
        Ok(EngineKind::WhisperStt)
    );
    assert_eq!(
        create_engine(&EngineType::Onnx, &ModelCapability::SpeechToText),
        Ok(EngineKind::OnnxStt)
    );
    assert_eq!(
        create_engine(&EngineType::Onnx, &ModelCapability::TextToSpeech),
        Ok(EngineKind::OnnxTts)
    );
    assert_eq!(
        create_engine(&EngineType::WhisperCpp, &ModelCapability::TextToSpeech),
        Err(EngineError::UnsupportedCombination {
            engine: EngineType::WhisperCpp,
            capability: ModelCapability::TextToSpeech
        })
    );
}

#[test]
fn variant_follows_from_the_model_id() {
    assert_eq!(detect_variant("nvidia/parakeet-tdt-0.6b-v3"), ParakeetVariant::Tdt);
    assert_eq!(detect_variant("nvidia/parakeet-ctc-1.1b"), ParakeetVariant::Ctc);
    assert_eq!(detect_variant("TDT"), ParakeetVariant::Ctc);
    assert_eq!(detect_variant(""), ParakeetVariant::Ctc);
    assert_eq!(detect_variant("td-tdt"), ParakeetVariant::Tdt);
}

#[test]
fn each_variant_has_its_files_and_features() {
    assert_eq!(required_files(ParakeetVariant::Ctc), vec!["model.onnx"]);
    assert_eq!(
        required_files(ParakeetVariant::Tdt),
        vec!["encoder-model.onnx", "decoder_joint-model.onnx"]
    );
    let ctc = mel_config_for(ParakeetVariant::Ctc);
    let tdt = mel_config_for(ParakeetVariant::Tdt);
    assert_eq!((ctc.n_mels, ctc.win_length, ctc.hop_length, ctc.n_fft), (80, 400, 160, 512));
    assert_eq!((tdt.n_mels, tdt.win_length, tdt.hop_length, tdt.n_fft), (128, 400, 160, 512));
    assert!(ctc.log_scale && ctc.normalize_per_feature && ctc.sample_rate == 16000);
}

#[test]
fn ctc_shapes_of_rank_two_and_three_are_read() {
    assert_eq!(ctc_layout(&[1, 50, 1025]), Ok(LogitsLayout { time_steps: 50, vocab_size: 1025 }));
    assert_eq!(ctc_layout(&[50, 1025]), Ok(LogitsLayout { time_steps: 50, vocab_size: 1025 }));
    assert_eq!(ctc_layout(&[50]), Err(ShapeError::UnexpectedRank { rank: 1 }));
    assert_eq!(ctc_layout(&[]), Err(ShapeError::UnexpectedRank { rank: 0 }));
    assert_eq!(ctc_layout(&[1, 1, 2, 3]), Err(ShapeError::UnexpectedRank { rank: 4 }));
    assert_eq!(ctc_layout(&[1, -1, 5]), Err(ShapeError::BadDimension));
    assert_eq!(ctc_layout(&[-1, 4, 5]), Ok(LogitsLayout { time_steps: 4, vocab_size: 5 }));
}

#[test]
fn encoder_shape_must_have_rank_three() {
    assert_eq!(encoder_layout(&[1, 1024, 37]), Ok(EncoderLayout { dim: 1024, frames: 37 }));
    assert_eq!(encoder_layout(&[1024, 37]), Err(ShapeError::UnexpectedRank { rank: 2 }));
    assert_eq!(encoder_layout(&[1, 1024, -2]), Err(ShapeError::BadDimension));
    assert_eq!(encoded_length(&[37, 5]), Ok(37));
    assert_eq!(encoded_length(&[]), Err(ShapeError::TooFewValues));
    assert_eq!(encoded_length(&[-1]), Err(ShapeError::BadDimension));
    assert_eq!(read_dimension(0), Some(0));
    assert_eq!(read_dimension(i64::MIN), None);
}

#[test]
fn transpose_turns_features_by_frame_into_frames_by_feature() {
    // 2 features, 3 frames
    assert_eq!(transpose(&[1, 2, 3, 4, 5, 6], 2, 3), Ok(vec![1, 4, 2, 5, 3, 6]));
    assert_eq!(transpose(&[1, 2, 3, 4, 5, 6, 7], 3, 2), Ok(vec![1, 3, 5, 2, 4, 6]));
    assert_eq!(transpose(&[1.5f32, 2.5], 1, 2), Ok(vec![1.5, 2.5]));
    assert_eq!(transpose(&[] as &[i16], 0, 5), Ok(vec![]));
    assert_eq!(transpose(&[1, 2, 3], 2, 2), Err(ShapeError::TooFewValues));
    assert_eq!(transpose(&[1, 2, 3], usize::MAX, 2), Err(ShapeError::TooFewValues));
}

#[test]
fn state_shape_is_taken_from_the_first_step() {
    let assumed = StateShape::assumed();
    assert_eq!(assumed, StateShape { layers: 2, width: 640 });
    assert_eq!(assumed.len(), Some(1280));
    assert_eq!(assumed.detect(&[1, 1, 512]), StateShape { layers: 1, width: 512 });
    assert_eq!(assumed.detect(&[2, 640]), assumed);
    assert_eq!(assumed.detect(&[]), assumed);
    assert_eq!(assumed.detect(&[2, 1, -1]), assumed);
    assert_eq!(StateShape { layers: usize::MAX, width: 2 }.len(), None);
}

#[test]
fn parakeet_engine_is_loaded_with_a_vocabulary() {
    let mut e = OnnxSttEngine::new();
    assert!(!e.is_loaded());
    assert_eq!(e.capability(), ModelCapability::SpeechToText);
    assert_eq!(e.variant, ParakeetVariant::Ctc);
    let v = Vocabulary::new(vec!["a".to_string(), "<blk>".to_string()]).unwrap();
    e.load_model("nvidia/parakeet-tdt-0.6b-v3", v);
    assert!(e.is_loaded());
    assert_eq!(e.variant, ParakeetVariant::Tdt);
    assert_eq!(e.mel_config.n_mels, 128);
    assert_eq!(e.vocabulary.as_ref().unwrap().blank_id, 1);
    e.unload_model();
    assert!(!e.is_loaded());
    let r = OnnxSttEngine::result_of("hi".to_string(), 12);
    assert_eq!((r.text.as_str(), r.language.as_deref(), r.duration_ms, r.segments), ("hi", Some("en"), 12, None));
}

#[test]
fn tts_engine_holds_no_model() {
    let mut e = OnnxTtsEngine::new();
    assert!(!e.is_loaded());
    assert_eq!(e.capability(), ModelCapability::TextToSpeech);
    e.loaded = true;
    assert!(e.is_loaded());
    e.unload_model();
    assert!(!e.is_loaded());
}

#[test]
fn whisper_segments_become_one_result() {
    let segments = vec![
        WhisperSegment { text: " Hello".to_string(), t0: 0, t1: 150 },
        WhisperSegment { text: " world. ".to_string(), t0: 150, t1: 312 },
    ];
    let r = WhisperSttEngine::result_of(segments, Some("en".to_string()), 42);
    assert_eq!(r.text, "Hello world.");
    assert_eq!(r.language, Some("en".to_string()));
    assert_eq!(r.duration_ms, 42);
    assert_eq!(
        r.segments,
        Some(vec![
            Segment { start_ms: 0, end_ms: 1500, text: " Hello".to_string() },
            Segment { start_ms: 1500, end_ms: 3120, text: " world. ".to_string() },
        ])
    );
    let empty = WhisperSttEngine::result_of(Vec::new(), None, 0);
    assert_eq!((empty.text.as_str(), empty.segments), ("", Some(vec![])));
}

#[test]
fn whisper_times_are_hundredths_of_a_second() {
    assert_eq!(to_milliseconds(0), 0);
    assert_eq!(to_milliseconds(123), 1230);
    assert_eq!(to_milliseconds(-5), 0);
    assert_eq!(to_milliseconds(i64::MAX), u64::MAX);
    let mut e = WhisperSttEngine::new();
    assert!(!e.is_loaded());
    e.load_model();
    assert!(e.is_loaded());
    assert_eq!(e.capability(), ModelCapability::SpeechToText);
    e.unload_model();
    assert!(!e.is_loaded());
}
