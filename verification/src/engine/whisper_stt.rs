//! The Whisper engine, as far as it lives outside the inference library:
//! how the segments it reports become one result.

use vstd::prelude::*;
use crate::engine::{Engine, ModelCapability, Segment, TranscriptionResult};
use crate::text::{chars_of, slice_chars, string_of, trim_bounds, trimmed};

verus! {

/// One segment as the inference library reports it: its text and its
/// bounds in hundredths of a second.
pub struct WhisperSegment {
    pub text: String,
    pub t0: i64,
    pub t1: i64,
}

/// Hundredths of a second as milliseconds; a time before 0 is 0 and one
/// past the range of milliseconds is the greatest.
pub open spec fn milliseconds(t: i64) -> int {
    if t < 0 {
        0
    } else if t * 10 > u64::MAX {
        u64::MAX as int
    } else {
        t * 10
    }
}

/// Turns hundredths of a second into milliseconds.
pub fn to_milliseconds(t: i64) -> (ms: u64)
    ensures
        ms == milliseconds(t),
{
    if t < 0 {
        0
    } else {
        match (t as u64).checked_mul(10) {
            Some(ms) => ms,
            None => u64::MAX,
        }
    }
}

/// The texts of the first `n` segments, joined.
pub open spec fn joined_text(segments: Seq<WhisperSegment>, n: int) -> Seq<char>
    decreases n,
{
    if n <= 0 {
        Seq::empty()
    } else {
        joined_text(segments, n - 1) + segments[n - 1].text@
    }
}

/// The Whisper engine's state outside the inference library.
#[derive(Debug, Clone, Copy, PartialEq, Eq, Structural)]
pub struct WhisperSttEngine {
    pub loaded: bool,
}

impl WhisperSttEngine {
    /// An engine with no model loaded.
    pub fn new() -> (engine: Self)
        ensures
            !engine.loaded,
    {
        WhisperSttEngine { loaded: false }
    }

    /// Notes that the inference library has loaded a model.
    pub fn load_model(&mut self)
        ensures
            final(self).loaded,
    {
        self.loaded = true;
    }

    /// The result that a run of the model gives: the segments' texts joined
    /// and trimmed, every segment with its bounds in milliseconds, and the
    /// language that the model detected.
    pub fn result_of(
        segments: Vec<WhisperSegment>,
        language: Option<String>,
        duration_ms: u64,
    ) -> (result: TranscriptionResult)
        ensures
            result.text@ == trimmed(joined_text(segments@, segments@.len() as int)),
            result.language == language,
            result.duration_ms == duration_ms,
            result.segments matches Some(list) && list@.len() == segments@.len() && forall|i: int|
                0 <= i < list@.len() ==> (#[trigger] list@[i]).text == segments@[i].text
                    && list@[i].start_ms == milliseconds(segments@[i].t0) && list@[i].end_ms
                    == milliseconds(segments@[i].t1),
    {
        let ghost all = segments@;
        let mut raw: Vec<char> = Vec::new();
        let mut list: Vec<Segment> = Vec::new();
        for segment in it: segments
            invariant
                it.seq() == all,
                raw@ == joined_text(all, it.index()),
                list@.len() == it.index(),
                forall|i: int|
                    0 <= i < list@.len() ==> (#[trigger] list@[i]).text == all[i].text
                        && list@[i].start_ms == milliseconds(all[i].t0) && list@[i].end_ms
                        == milliseconds(all[i].t1),
        {
            let mut piece: Vec<char> = chars_of(segment.text.as_str());
            raw.append(&mut piece);
            let start_ms: u64 = to_milliseconds(segment.t0);
            let end_ms: u64 = to_milliseconds(segment.t1);
            list.push(Segment { start_ms, end_ms, text: segment.text });
        }
        let bounds: (usize, usize) = trim_bounds(raw.as_slice());
        let kept: Vec<char> = slice_chars(raw.as_slice(), bounds.0, bounds.1);
        TranscriptionResult {
            text: string_of(kept.as_slice()),
            language,
            duration_ms,
            segments: Some(list),
        }
    }
}

impl Engine for WhisperSttEngine {
    open spec fn loaded(&self) -> bool {
        self.loaded
    }

    open spec fn direction(&self) -> ModelCapability {
        ModelCapability::SpeechToText
    }

    fn unload_model(&mut self) {
        self.loaded = false;
    }

    fn is_loaded(&self) -> (loaded: bool) {
        self.loaded
    }

    fn capability(&self) -> (capability: ModelCapability) {
        ModelCapability::SpeechToText
    }
}

} // verus!
