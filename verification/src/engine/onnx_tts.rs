//! The speech-synthesis engine: it holds no model yet.

use vstd::prelude::*;
use crate::engine::{Engine, ModelCapability};

verus! {

/// Speech synthesis on the tensor runtime.
#[derive(Debug, Clone, Copy, PartialEq, Eq, Structural)]
pub struct OnnxTtsEngine {
    pub loaded: bool,
}

impl OnnxTtsEngine {
    /// An engine with no model loaded.
    pub fn new() -> (engine: Self)
        ensures
            !engine.loaded,
    {
        OnnxTtsEngine { loaded: false }
    }
}

impl Engine for OnnxTtsEngine {
    open spec fn loaded(&self) -> bool {
        self.loaded
    }

    open spec fn direction(&self) -> ModelCapability {
        ModelCapability::TextToSpeech
    }

    fn unload_model(&mut self) {
        self.loaded = false;
    }

    fn is_loaded(&self) -> (loaded: bool) {
        self.loaded
    }

    fn capability(&self) -> (capability: ModelCapability) {
        ModelCapability::TextToSpeech
    }
}

} // verus!
