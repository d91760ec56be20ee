//! A recording session: when it may start and end, when buffered audio is
//! taken for transcription, and how chunk transcripts become one text.

use vstd::prelude::*;
use crate::audio::processing::{split_at_silence, split_points, ChunkBoundary};
use crate::engine::{Segment, TranscriptionResult};
use crate::state::{AppStatus, InjectionMode, StreamingState};
use crate::text::{chars_of, is_lowercase, lowercase, same_text, string_of, trim_bounds, trimmed};

verus! {

/// Length aimed at for a streamed chunk, in milliseconds.
pub const STREAMING_CHUNK_DURATION_MS: u32 = 20000;

/// How far around the aimed-at length a quiet point is searched, in milliseconds.
pub const STREAMING_SEARCH_WINDOW_MS: u32 = 2000;

/// Length of one energy window, in milliseconds.
pub const STREAMING_RMS_WINDOW_MS: u32 = 100;

/// Pause between two looks at the capture buffer, in milliseconds.
pub const STREAMING_POLL_INTERVAL_MS: u64 = 500;

/// Sample rate that the models take.
pub const TARGET_SAMPLE_RATE: u32 = 16000;

/// `s` ends in `.`, `!` or `?`.
pub open spec fn ends_sentence(s: Seq<char>) -> bool {
    s.len() > 0 && (s.last() == '.' || s.last() == '!' || s.last() == '?')
}

/// `s` starts with a lowercase letter.
pub open spec fn starts_lowercase(s: Seq<char>) -> bool {
    s.len() > 0 && lowercase(s[0])
}

/// The accumulated text after a chunk's text is added.
///
/// The chunk is trimmed; an empty one adds nothing, and the first one is
/// the text. Otherwise it follows after one space, and where the text so
/// far ends a sentence but the chunk goes on in lowercase, that sentence
/// mark is taken out first.
pub open spec fn stitched(accumulated: Seq<char>, new_chunk: Seq<char>) -> Seq<char> {
    let chunk = trimmed(new_chunk);
    if chunk.len() == 0 {
        accumulated
    } else if accumulated.len() == 0 {
        chunk
    } else if ends_sentence(accumulated) && starts_lowercase(chunk) {
        accumulated.drop_last() + seq![' '] + chunk
    } else {
        accumulated + seq![' '] + chunk
    }
}

/// Adds a chunk's text to the accumulated text, smoothing the sentence mark
/// that a model puts at the end of its audio window.
pub fn append_chunk_text(accumulated: &mut String, new_chunk: &str)
    ensures
        final(accumulated)@ == stitched(old(accumulated)@, new_chunk@),
{
    let chunk: Vec<char> = chars_of(new_chunk);
    let bounds: (usize, usize) = trim_bounds(chunk.as_slice());
    if bounds.0 == bounds.1 {
        assert(trimmed(new_chunk@).len() == 0);
        return ;
    }
    let mut text: Vec<char> = chars_of(accumulated.as_str());
    let ghost before = text@;
    let ghost added = trimmed(new_chunk@);
    assert(added[0] == chunk@[bounds.0 as int]);
    if text.len() > 0 {
        let last: char = text[text.len() - 1];
        let ends: bool = last == '.' || last == '!' || last == '?';
        if ends && is_lowercase(chunk[bounds.0]) {
            text.pop();
            assert(text@ =~= before.drop_last());
        }
        text.push(' ');
    }
    let ghost head = text@;
    let mut i: usize = bounds.0;
    while i < bounds.1
        invariant
            bounds.0 <= i <= bounds.1 <= chunk@.len(),
            text@ == head + chunk@.subrange(bounds.0 as int, i as int),
        decreases bounds.1 - i,
    {
        text.push(chunk[i]);
        assert(chunk@.subrange(bounds.0 as int, i + 1) =~= chunk@.subrange(
            bounds.0 as int,
            i as int,
        ).push(chunk@[i as int]));
        assert(text@ =~= head + chunk@.subrange(bounds.0 as int, i + 1));
        i = i + 1;
    }
    assert(text@ =~= stitched(before, new_chunk@));
    *accumulated = string_of(text.as_slice());
}

/// Why a session command was refused.
#[derive(Debug, Clone, Copy, PartialEq, Eq, Structural)]
pub enum SessionError {
    /// A session can only start from `Idle`.
    NotIdle { current: AppStatus },
    /// There is no recording to stop.
    NoActiveRecording,
}

/// Starts a session: only from `Idle`, and with nothing gathered. A start
/// while anything else goes on is refused and changes nothing.
pub fn start_session(status: &mut AppStatus, streaming: &mut Option<StreamingState>) -> (started:
    Result<(), SessionError>)
    ensures
        *old(status) == AppStatus::Idle ==> started is Ok && *final(status) == AppStatus::Recording
            && (*final(streaming) matches Some(s) && s.is_fresh()),
        *old(status) != AppStatus::Idle ==> started == Err::<(), SessionError>(
            SessionError::NotIdle { current: *old(status) },
        ) && *final(status) == *old(status) && *final(streaming) == *old(streaming),
{
    match *status {
        AppStatus::Idle => {
            *status = AppStatus::Recording;
            *streaming = Some(StreamingState::default());
            Ok(())
        },
        current => Err(SessionError::NotIdle { current }),
    }
}

/// Ends the recording part of a session: what was gathered is handed out
/// and the application is `Transcribing` the tail. Without a capture to
/// stop this is refused and changes nothing. A session whose gathered
/// state is gone gets a fresh one.
pub fn stop_session(
    status: &mut AppStatus,
    streaming: &mut Option<StreamingState>,
    capturing: bool,
) -> (gathered: Result<StreamingState, SessionError>)
    ensures
        !capturing ==> gathered == Err::<StreamingState, SessionError>(
            SessionError::NoActiveRecording,
        ) && *final(status) == *old(status) && *final(streaming) == *old(streaming),
        capturing ==> *final(status) == AppStatus::Transcribing && *final(streaming) is None && (
        gathered matches Ok(state) && match *old(streaming) {
            Some(s) => state == s,
            None => state.is_fresh(),
        }),
{
    if !capturing {
        return Err(SessionError::NoActiveRecording);
    }
    *status = AppStatus::Transcribing;
    match streaming.take() {
        Some(state) => Ok(state),
        None => Ok(StreamingState::default()),
    }
}

/// Ends a session once its text is delivered.
pub fn finish_session(status: &mut AppStatus)
    ensures
        *final(status) == AppStatus::Idle,
{
    *status = AppStatus::Idle;
}

/// Cancels a session: what was gathered is dropped and the application is
/// `Idle`, whatever it was doing.
pub fn cancel_session(status: &mut AppStatus, streaming: &mut Option<StreamingState>)
    ensures
        *final(status) == AppStatus::Idle,
        *final(streaming) is None,
{
    *streaming = None;
    *status = AppStatus::Idle;
}

/// What the chunk loop does after a look at the capture buffer.
#[derive(Debug, Clone, Copy, PartialEq, Eq, Structural)]
pub enum PollAction {
    /// The capture has ended: leave the loop.
    Stop,
    /// Too little audio so far: look again later.
    Wait,
    /// Take the buffered audio and transcribe it.
    Drain,
}

/// Samples that must be buffered at `device_rate` before a chunk is taken.
pub fn streaming_threshold(device_rate: u32) -> (threshold: u64)
    ensures
        threshold == (STREAMING_CHUNK_DURATION_MS as int / 1000) * device_rate,
{
    (STREAMING_CHUNK_DURATION_MS as u64 / 1000) * device_rate as u64
}

/// Decides what the chunk loop does: it stops when the capture is no longer
/// active, waits while fewer than `threshold` samples are buffered, and
/// drains otherwise.
pub fn poll_action(active: bool, available: usize, threshold: u64) -> (action: PollAction)
    ensures
        action == (if !active {
            PollAction::Stop
        } else if available < threshold {
            PollAction::Wait
        } else {
            PollAction::Drain
        }),
{
    if !active {
        PollAction::Stop
    } else if (available as u64) < threshold {
        PollAction::Wait
    } else {
        PollAction::Drain
    }
}

/// The language to ask the engine for: none when the setting is `auto`.
pub fn requested_language(setting: &str) -> (language: Option<String>)
    ensures
        setting@ == "auto"@ ==> language is None,
        setting@ != "auto"@ ==> (language matches Some(l) && l@ == setting@),
{
    if same_text(setting, "auto") {
        None
    } else {
        Some(setting.to_owned())
    }
}

/// The segments that a chunk's result carries, none where it has no list.
pub open spec fn segments_of(result: TranscriptionResult) -> Seq<Segment> {
    match result.segments {
        Some(list) => list@,
        None => Seq::empty(),
    }
}

/// `n`, or `max` where `n` is greater.
pub open spec fn capped(n: int, max: int) -> int {
    if n > max {
        max
    } else {
        n
    }
}

/// Whether a chunk's result names a language.
pub open spec fn names_language(result: TranscriptionResult) -> bool {
    result.language matches Some(l) && l@.len() > 0
}

/// `after` is `before` with the result of one chunk taken in: the text
/// stitched on, the language locked to the first one named, the segments
/// appended, the duration added and the chunk counted.
pub open spec fn recorded(
    before: StreamingState,
    result: TranscriptionResult,
    after: StreamingState,
) -> bool {
    &&& after.completed_text@ == stitched(before.completed_text@, result.text@)
    &&& after.locked_language == (if before.locked_language is None && names_language(result) {
        result.language
    } else {
        before.locked_language
    })
    &&& after.segments@ == before.segments@ + segments_of(result)
    &&& after.total_duration_ms == capped(
        before.total_duration_ms + result.duration_ms,
        u64::MAX as int,
    )
    &&& after.chunks_completed == capped(before.chunks_completed + 1, usize::MAX as int)
}

impl StreamingState {
    /// Takes in the result of one chunk.
    ///
    /// The text is stitched on, the segments follow the earlier ones, the
    /// durations add up, and the count of chunks goes up by one; neither
    /// number goes past what its type holds. The language is locked to the
    /// first one that a chunk names and is never changed afterwards.
    pub fn record_chunk(&mut self, result: TranscriptionResult)
        ensures
            recorded(*old(self), result, *final(self)),
            final(self).completed_text@ == stitched(old(self).completed_text@, result.text@),
            final(self).locked_language == (if old(self).locked_language is None && names_language(
                result,
            ) {
                result.language
            } else {
                old(self).locked_language
            }),
            final(self).segments@ == old(self).segments@ + segments_of(result),
            final(self).total_duration_ms == capped(
                old(self).total_duration_ms + result.duration_ms,
                u64::MAX as int,
            ),
            final(self).chunks_completed == capped(
                old(self).chunks_completed + 1,
                usize::MAX as int,
            ),
    {
        let TranscriptionResult { text, language, duration_ms, segments } = result;
        if self.locked_language.is_none() {
            let named: bool = match &language {
                Some(l) => l.as_str().unicode_len() > 0,
                None => false,
            };
            if named {
                self.locked_language = language;
            }
        }
        append_chunk_text(&mut self.completed_text, text.as_str());
        match segments {
            Some(list) => {
                let mut list: Vec<Segment> = list;
                self.segments.append(&mut list);
            },
            None => {
                assert(self.segments@ + Seq::<Segment>::empty() =~= self.segments@);
            },
        }
        self.total_duration_ms = self.total_duration_ms.saturating_add(duration_ms);
        self.chunks_completed = self.chunks_completed.saturating_add(1);
    }

    /// The session's result: the stitched text, the locked language, the
    /// summed duration, and the segments, if there are any.
    pub fn into_result(self) -> (result: TranscriptionResult)
        ensures
            result.text == self.completed_text,
            result.language == self.locked_language,
            result.duration_ms == self.total_duration_ms,
            self.segments@.len() == 0 ==> result.segments is None,
            self.segments@.len() > 0 ==> result.segments == Some(self.segments),
    {
        let StreamingState { completed_text, locked_language, total_duration_ms, segments, .. } =
            self;
        let segments: Option<Vec<Segment>> = if segments.len() == 0 {
            None
        } else {
            Some(segments)
        };
        TranscriptionResult {
            text: completed_text,
            language: locked_language,
            duration_ms: total_duration_ms,
            segments,
        }
    }
}

/// The chunks that a session cuts `samples` into.
pub open spec fn session_chunks(samples: Seq<i16>) -> Seq<ChunkBoundary> {
    split_points(
        samples,
        TARGET_SAMPLE_RATE as int,
        STREAMING_CHUNK_DURATION_MS as int,
        STREAMING_SEARCH_WINDOW_MS as int,
        STREAMING_RMS_WINDOW_MS as int,
    )
}

/// Cuts audio at the target rate into the chunks of a session.
pub fn split_for_session(samples: &[i16]) -> (chunks: Vec<ChunkBoundary>)
    ensures
        chunks@ == session_chunks(samples@),
{
    split_at_silence(
        samples,
        TARGET_SAMPLE_RATE,
        STREAMING_CHUNK_DURATION_MS,
        STREAMING_SEARCH_WINDOW_MS,
        STREAMING_RMS_WINDOW_MS,
    )
}

/// What the chunk loop does with the next chunk of drained audio.
#[derive(Debug, Clone, Copy, PartialEq, Eq, Structural)]
pub enum ChunkAction {
    /// The capture has ended or the session was cancelled: leave the chunks.
    Abandon,
    /// Transcribe the chunk.
    Transcribe,
}

/// Decides on the next chunk: it is transcribed only while the capture is
/// active and the session still has its gathered state.
pub fn chunk_action(capture_active: bool, session_alive: bool) -> (action: ChunkAction)
    ensures
        action == (if capture_active && session_alive {
            ChunkAction::Transcribe
        } else {
            ChunkAction::Abandon
        }),
{
    if capture_active && session_alive {
        ChunkAction::Transcribe
    } else {
        ChunkAction::Abandon
    }
}

/// How the transcription of one streamed chunk went.
#[derive(Debug, Clone, Copy, PartialEq, Eq, Structural)]
pub enum ChunkOutcome {
    /// The engine gave a result.
    Transcribed,
    /// The engine failed on this chunk.
    Failed,
    /// No engine is loaded.
    NoEngine,
}

/// What the chunk loop does after one chunk.
#[derive(Debug, Clone, Copy, PartialEq, Eq, Structural)]
pub enum ChunkNext {
    /// Take the result in and go on with the next chunk.
    Record,
    /// Pass over this chunk and go on with the next.
    Skip,
    /// Leave the chunks of this drain.
    Leave,
}

/// Decides what follows a chunk: a result is recorded, a failure costs that
/// chunk alone, and without an engine the rest of the chunks is left.
pub fn after_chunk(outcome: ChunkOutcome) -> (next: ChunkNext)
    ensures
        next == (match outcome {
            ChunkOutcome::Transcribed => ChunkNext::Record,
            ChunkOutcome::Failed => ChunkNext::Skip,
            ChunkOutcome::NoEngine => ChunkNext::Leave,
        }),
{
    match outcome {
        ChunkOutcome::Transcribed => ChunkNext::Record,
        ChunkOutcome::Failed => ChunkNext::Skip,
        ChunkOutcome::NoEngine => ChunkNext::Leave,
    }
}

/// `transcribe`, given the samples of `chunk`, answered `made`.
pub open spec fn chunk_transcribed<E, F: Fn(&[i16]) -> Result<TranscriptionResult, E>>(
    transcribe: F,
    samples: Seq<i16>,
    chunk: ChunkBoundary,
    made: Result<TranscriptionResult, E>,
) -> bool {
    exists|audio: &[i16]|
        audio@ == samples.subrange(chunk.start_sample as int, chunk.end_sample as int)
            && #[trigger] call_ensures(transcribe, (audio,), made)
}

/// Chunk `k` was transcribed and its result taken in: that led from
/// `states[k]` to `states[k + 1]`.
pub open spec fn chunk_recorded<E, F: Fn(&[i16]) -> Result<TranscriptionResult, E>>(
    transcribe: F,
    samples: Seq<i16>,
    chunks: Seq<ChunkBoundary>,
    states: Seq<StreamingState>,
    k: int,
) -> bool {
    exists|result: TranscriptionResult|
        chunk_transcribed(transcribe, samples, chunks[k], Ok::<TranscriptionResult, E>(result))
            && #[trigger] recorded(states[k], result, states[k + 1])
}

/// The chunks before the last of `states` were transcribed and recorded one
/// after the other, each leading from one of `states` to the next.
pub open spec fn tail_recorded<E, F: Fn(&[i16]) -> Result<TranscriptionResult, E>>(
    transcribe: F,
    samples: Seq<i16>,
    chunks: Seq<ChunkBoundary>,
    states: Seq<StreamingState>,
) -> bool {
    &&& 1 <= states.len() <= chunks.len() + 1
    &&& forall|k: int|
        0 <= k < states.len() - 1 ==> #[trigger] chunk_recorded(
            transcribe,
            samples,
            chunks,
            states,
            k,
        )
}

/// Transcribes the audio that was captured after the last streamed chunk.
///
/// The tail is cut at quiet points like streamed audio, and every chunk is
/// handed to `transcribe` in order and its result taken in with
/// `record_chunk`. An empty tail is not transcribed at all. The first error
/// of `transcribe` ends the work and is returned; what the chunks before it
/// gave stays recorded. Returns the number of chunks transcribed.
pub fn transcribe_tail<E, F: Fn(&[i16]) -> Result<TranscriptionResult, E>>(
    samples: &[i16],
    state: &mut StreamingState,
    transcribe: F,
) -> (transcribed: Result<usize, E>)
    requires
        forall|chunk: &[i16]| #[trigger] call_requires(transcribe, (chunk,)),
    ensures
        samples@.len() == 0 ==> transcribed == Ok::<usize, E>(0) && *final(state) == *old(state),
        samples@.len() > 0 ==> exists|states: Seq<StreamingState>| #[trigger]
            tail_recorded(transcribe, samples@, session_chunks(samples@), states) && states[0]
                == *old(state) && states[states.len() - 1] == *final(state) && (match transcribed {
                Ok(n) => n == session_chunks(samples@).len() && states.len() == n + 1,
                Err(e) => states.len() <= session_chunks(samples@).len() && chunk_transcribed(
                    transcribe,
                    samples@,
                    session_chunks(samples@)[states.len() - 1],
                    Err::<TranscriptionResult, E>(e),
                ),
            }),
        transcribed matches Ok(n) ==> final(state).chunks_completed == capped(
            old(state).chunks_completed + n,
            usize::MAX as int,
        ),
        old(state).locked_language is Some ==> final(state).locked_language == old(
            state,
        ).locked_language,
        old(state).segments@.len() <= final(state).segments@.len(),
{
    if samples.len() == 0 {
        return Ok(0);
    }
    let chunks: Vec<ChunkBoundary> = split_for_session(samples);
    proof {
        crate::audio::processing::lemma_split_covers_buffer(
            samples@,
            TARGET_SAMPLE_RATE as int,
            STREAMING_CHUNK_DURATION_MS as int,
            STREAMING_SEARCH_WINDOW_MS as int,
            STREAMING_RMS_WINDOW_MS as int,
        );
    }
    let ghost mut states: Seq<StreamingState> = seq![*state];
    let mut k: usize = 0;
    while k < chunks.len()
        invariant
            forall|chunk: &[i16]| #[trigger] call_requires(transcribe, (chunk,)),
            k <= chunks@.len(),
            samples@.len() > 0,
            chunks@ == session_chunks(samples@),
            crate::audio::processing::covers(chunks@, 0, samples@.len() as int),
            states.len() == k + 1,
            states[0] == *old(state),
            states[k as int] == *state,
            tail_recorded(transcribe, samples@, chunks@, states),
            state.chunks_completed == capped(old(state).chunks_completed + k, usize::MAX as int),
            old(state).locked_language is Some ==> state.locked_language == old(
                state,
            ).locked_language,
            old(state).segments@.len() <= state.segments@.len(),
        decreases chunks@.len() - k,
    {
        let chunk: ChunkBoundary = chunks[k];
        proof {
            crate::audio::processing::lemma_chunk_in_buffer(chunks@, samples@.len() as int, k as int);
        }
        let piece: Vec<i16> = copy_range(samples, chunk.start_sample, chunk.end_sample);
        let audio: &[i16] = piece.as_slice();
        let made: Result<TranscriptionResult, E> = transcribe(audio);
        let ghost witness = made;
        match made {
            Ok(result) => {
                let ghost before = *state;
                let ghost got = result;
                let ghost earlier = states;
                state.record_chunk(result);
                proof {
                    states = earlier.push(*state);
                    assert(chunk_transcribed(transcribe, samples@, chunks@[k as int], witness));
                    assert(recorded(states[k as int], got, states[k + 1]));
                    assert forall|j: int| 0 <= j < states.len() - 1 implies #[trigger] chunk_recorded(
                        transcribe,
                        samples@,
                        chunks@,
                        states,
                        j,
                    ) by {
                        if j < k {
                            assert(chunk_recorded(transcribe, samples@, chunks@, earlier, j));
                            let r = choose|r: TranscriptionResult|
                                chunk_transcribed(
                                    transcribe,
                                    samples@,
                                    chunks@[j],
                                    Ok::<TranscriptionResult, E>(r),
                                ) && #[trigger] recorded(earlier[j], r, earlier[j + 1]);
                            assert(recorded(states[j], r, states[j + 1]));
                        }
                    }
                }
            },
            Err(e) => {
                assert(chunk_transcribed(transcribe, samples@, chunks@[k as int], witness));
                return Err(e);
            },
        }
        k = k + 1;
    }
    Ok(k)
}

/// A copy of `samples[start .. end]`.
pub fn copy_range(samples: &[i16], start: usize, end: usize) -> (piece: Vec<i16>)
    requires
        start <= end <= samples@.len(),
    ensures
        piece@ == samples@.subrange(start as int, end as int),
{
    let mut piece: Vec<i16> = Vec::new();
    let mut i: usize = start;
    while i < end
        invariant
            start <= i <= end <= samples@.len(),
            piece@ == samples@.subrange(start as int, i as int),
        decreases end - i,
    {
        piece.push(samples[i]);
        assert(samples@.subrange(start as int, i + 1) =~= samples@.subrange(
            start as int,
            i as int,
        ).push(samples@[i as int]));
        i = i + 1;
    }
    piece
}

/// How a finished text is delivered.
#[derive(Debug, Clone, Copy, PartialEq, Eq, Structural)]
pub enum InjectionRoute {
    /// Typed into the application in front.
    Keystrokes,
    /// Put on the clipboard.
    Clipboard,
}

/// Keystrokes need the accessibility permission: without it, and in
/// clipboard mode, the text goes by the clipboard.
pub fn injection_route(mode: InjectionMode, accessibility_granted: bool) -> (route: InjectionRoute)
    ensures
        route == (if mode == InjectionMode::Keystroke && accessibility_granted {
            InjectionRoute::Keystrokes
        } else {
            InjectionRoute::Clipboard
        }),
{
    match mode {
        InjectionMode::Keystroke => {
            if accessibility_granted {
                InjectionRoute::Keystrokes
            } else {
                InjectionRoute::Clipboard
            }
        },
        InjectionMode::Clipboard => InjectionRoute::Clipboard,
    }
}

} // verus!
