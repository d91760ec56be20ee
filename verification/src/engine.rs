//! Transcription engines: the model families, their metadata, and the
//! results they produce.

use vstd::prelude::*;

pub mod onnx_stt;
pub mod onnx_tts;
pub mod vocabulary;
pub mod whisper_stt;

use crate::engine::onnx_tts::OnnxTtsEngine;

verus! {

/// Direction in which a model works.
#[derive(Debug, Clone, Copy, PartialEq, Eq, Hash, Structural)]
pub enum ModelCapability {
    SpeechToText,
    TextToSpeech,
}

/// Runtime that executes a model.
#[derive(Debug, Clone, Copy, PartialEq, Eq, Hash, Structural)]
pub enum EngineType {
    WhisperCpp,
    Onnx,
}

/// What is known of a model, whatever runs it.
#[derive(Debug, Clone, PartialEq, Eq)]
pub struct ModelInfo {
    pub id: String,
    pub name: String,
    pub capability: ModelCapability,
    pub engine: EngineType,
    pub languages: Vec<String>,
    pub size_bytes: u64,
}

/// Mono 16-bit PCM audio handed from one stage to the next.
#[derive(Debug, Clone, PartialEq, Eq)]
pub struct AudioBuffer {
    pub samples: Vec<i16>,
    pub sample_rate: u32,
    pub channels: u16,
}

/// A stretch of a transcription with its place in time.
#[derive(Debug, Clone, PartialEq, Eq)]
pub struct Segment {
    pub start_ms: u64,
    pub end_ms: u64,
    pub text: String,
}

/// What transcribing one piece of audio gives.
#[derive(Debug, Clone, PartialEq, Eq)]
pub struct TranscriptionResult {
    pub text: String,
    pub language: Option<String>,
    pub duration_ms: u64,
    pub segments: Option<Vec<Segment>>,
}

/// What every engine can say of itself and do, model files aside.
pub trait Engine {
    /// Whether a model is loaded.
    spec fn loaded(&self) -> bool;

    /// The direction this engine works in.
    spec fn direction(&self) -> ModelCapability;

    /// Drops the loaded model, if any.
    fn unload_model(&mut self)
        ensures
            !final(self).loaded(),
            final(self).direction() == old(self).direction(),
    ;

    /// Whether a model is loaded.
    fn is_loaded(&self) -> (loaded: bool)
        ensures
            loaded == self.loaded(),
    ;

    /// The direction this engine works in.
    fn capability(&self) -> (capability: ModelCapability)
        ensures
            capability == self.direction(),
    ;
}

/// The engines that exist, by runtime and direction.
#[derive(Debug, Clone, Copy, PartialEq, Eq, Structural)]
pub enum EngineKind {
    WhisperStt,
    OnnxStt,
    OnnxTts,
}

/// Why no engine could be made.
#[derive(Debug, Clone, Copy, PartialEq, Eq, Structural)]
pub enum EngineError {
    /// No engine runs this capability on this runtime.
    UnsupportedCombination { engine: EngineType, capability: ModelCapability },
}

/// The engine for a runtime and a direction, where there is one.
pub open spec fn engine_for(engine_type: EngineType, capability: ModelCapability) -> Result<
    EngineKind,
    EngineError,
> {
    match (engine_type, capability) {
        (EngineType::WhisperCpp, ModelCapability::SpeechToText) => Ok(EngineKind::WhisperStt),
        (EngineType::Onnx, ModelCapability::SpeechToText) => Ok(EngineKind::OnnxStt),
        (EngineType::Onnx, ModelCapability::TextToSpeech) => Ok(EngineKind::OnnxTts),
        (EngineType::WhisperCpp, ModelCapability::TextToSpeech) => Err(
            EngineError::UnsupportedCombination { engine: engine_type, capability },
        ),
    }
}

/// Picks the engine for a runtime and a direction. Whisper does not
/// synthesise speech: that combination is refused.
pub fn create_engine(engine_type: &EngineType, capability: &ModelCapability) -> (engine: Result<
    EngineKind,
    EngineError,
>)
    ensures
        engine == engine_for(*engine_type, *capability),
{
    match (engine_type, capability) {
        (EngineType::WhisperCpp, ModelCapability::SpeechToText) => Ok(EngineKind::WhisperStt),
        (EngineType::Onnx, ModelCapability::SpeechToText) => Ok(EngineKind::OnnxStt),
        (EngineType::Onnx, ModelCapability::TextToSpeech) => Ok(EngineKind::OnnxTts),
        (EngineType::WhisperCpp, ModelCapability::TextToSpeech) => Err(
            EngineError::UnsupportedCombination {
                engine: EngineType::WhisperCpp,
                capability: ModelCapability::TextToSpeech,
            },
        ),
    }
}

} // verus!
