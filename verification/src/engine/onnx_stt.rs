//! Decoding for the Parakeet model family: the vocabulary, CTC greedy
//! decoding, and the transducer's token-and-duration state machine.
//!
//! Scores are integers. A caller that holds floating-point logits maps them
//! to integers in an order-preserving way before decoding.

use vstd::prelude::*;
use vstd::string::StringExecFns;
use crate::audio::processing::MelConfig;
use crate::engine::{Engine, ModelCapability, TranscriptionResult};
use crate::text::{
    chars_of, contains, contains_chars, replace_char, replaced, slice_chars, string_of,
    trim_bounds, trimmed,
};

verus! {

/// The marker that the tokenizer writes where a word begins.
pub const WORD_BOUNDARY: char = '\u{2581}';

/// Token texts by token id, and the id that stands for "nothing emitted".
#[derive(Debug, Clone)]
pub struct Vocabulary {
    /// Text of each token, indexed by id.
    pub tokens: Vec<String>,
    /// Id of the blank token.
    pub blank_id: usize,
    /// Number of token classes that a model scores, the blank included.
    pub vocab_size: usize,
}

impl Vocabulary {
    /// The token texts, as character sequences.
    pub open spec fn texts(&self) -> Seq<Seq<char>> {
        Seq::new(self.tokens@.len(), |i: int| self.tokens@[i]@)
    }

    /// Every scored class has a text and the blank is one of them.
    pub open spec fn wf(&self) -> bool {
        &&& self.tokens@.len() >= 1
        &&& self.vocab_size == self.tokens@.len()
        &&& self.blank_id < self.tokens@.len()
    }

    /// A vocabulary over `tokens` whose last token is the blank; `None`
    /// when there is no token at all.
    pub fn new(tokens: Vec<String>) -> (vocab: Option<Vocabulary>)
        ensures
            tokens@.len() == 0 ==> vocab is None,
            tokens@.len() > 0 ==> vocab == Some(
                Vocabulary {
                    tokens,
                    blank_id: (tokens@.len() - 1) as usize,
                    vocab_size: tokens@.len() as usize,
                },
            ),
            vocab matches Some(v) ==> v.wf(),
    {
        let n: usize = tokens.len();
        if n == 0 {
            None
        } else {
            Some(Vocabulary { tokens, blank_id: n - 1, vocab_size: n })
        }
    }
}

/// Index of the greatest score; of the last one where several are greatest.
pub open spec fn argmax(scores: Seq<i32>) -> int
    decreases scores.len(),
{
    if scores.len() <= 1 {
        0
    } else {
        let best = argmax(scores.drop_last());
        if scores.last() >= scores[best] {
            scores.len() - 1
        } else {
            best
        }
    }
}

/// The token that a frame of scores votes for: its arg-max, or `blank`
/// when the frame is empty.
pub open spec fn frame_token(frame: Seq<i32>, blank: int) -> int {
    if frame.len() == 0 {
        blank
    } else {
        argmax(frame)
    }
}

/// The arg-max is an index of the greatest score, and the last such index.
pub proof fn lemma_argmax(scores: Seq<i32>)
    requires
        scores.len() >= 1,
    ensures
        0 <= argmax(scores) < scores.len(),
        forall|i: int| 0 <= i < scores.len() ==> #[trigger] scores[i] <= scores[argmax(scores)],
        forall|i: int|
            argmax(scores) < i < scores.len() ==> #[trigger] scores[i] < scores[argmax(scores)],
    decreases scores.len(),
{
    if scores.len() > 1 {
        let front = scores.drop_last();
        lemma_argmax(front);
        assert forall|i: int| 0 <= i < front.len() implies front[i] == scores[i] by {}
    }
}

/// Arg-max of `scores[start .. end]`.
pub fn argmax_in(scores: &[i32], start: usize, end: usize) -> (best: usize)
    requires
        start < end <= scores@.len(),
    ensures
        best == argmax(scores@.subrange(start as int, end as int)),
        best < end - start,
{
    let ghost frame = scores@.subrange(start as int, end as int);
    let mut best: usize = 0;
    let mut i: usize = 1;
    assert(frame.take(1).len() == 1);
    while i < end - start
        invariant
            start < end <= scores@.len(),
            frame == scores@.subrange(start as int, end as int),
            1 <= i <= end - start,
            best < i,
            best == argmax(frame.take(i as int)),
        decreases end - start - i,
    {
        assert(frame.take(i + 1).drop_last() =~= frame.take(i as int));
        if scores[start + i] >= scores[start + best] {
            best = i;
        }
        i = i + 1;
    }
    assert(frame.take(i as int) =~= frame);
    best
}

/// Number of whole frames of `vocab_size` scores that a decoder reads from
/// `len` scores when told there are `time_steps`.
pub open spec fn usable_frames(len: int, time_steps: int, vocab_size: int) -> int {
    if vocab_size == 0 || time_steps <= len / vocab_size {
        time_steps
    } else {
        len / vocab_size
    }
}

/// The token that each usable frame votes for.
pub open spec fn frame_ids(logits: Seq<i32>, time_steps: int, vocab_size: int, blank: int) -> Seq<
    int,
> {
    Seq::new(
        usable_frames(logits.len() as int, time_steps, vocab_size) as nat,
        |t: int| frame_token(logits.subrange(t * vocab_size, t * vocab_size + vocab_size), blank),
    )
}

/// CTC collapsing: blanks are dropped, and so is a token that repeats the
/// frame just before it.
pub open spec fn ctc_collapse(ids: Seq<int>, blank: int) -> Seq<int>
    decreases ids.len(),
{
    if ids.len() == 0 {
        Seq::empty()
    } else {
        let front = ctc_collapse(ids.drop_last(), blank);
        let id = ids.last();
        if id == blank || (ids.len() >= 2 && ids[ids.len() - 2] == id) {
            front
        } else {
            front.push(id)
        }
    }
}

/// The texts of the tokens `ids`, joined; an id without a text adds nothing.
pub open spec fn token_text(ids: Seq<int>, texts: Seq<Seq<char>>) -> Seq<char>
    decreases ids.len(),
{
    if ids.len() == 0 {
        Seq::empty()
    } else {
        token_text(ids.drop_last(), texts) + (if 0 <= ids.last() < texts.len() {
            texts[ids.last()]
        } else {
            Seq::empty()
        })
    }
}

/// Joined token text made readable: word-boundary markers become spaces and
/// the white space around the whole is removed.
pub open spec fn readable(raw: Seq<char>) -> Seq<char> {
    trimmed(replaced(raw, WORD_BOUNDARY, ' '))
}

/// The text that CTC greedy decoding reads from a sequence of frame votes.
pub open spec fn ctc_text(ids: Seq<int>, blank: int, texts: Seq<Seq<char>>) -> Seq<char> {
    readable(token_text(ctc_collapse(ids, blank), texts))
}

/// A blank vote added at the end changes nothing.
pub proof fn lemma_collapse_push_blank(ids: Seq<int>, blank: int)
    ensures
        ctc_collapse(ids.push(blank), blank) == ctc_collapse(ids, blank),
{
    assert(ids.push(blank).drop_last() =~= ids);
}

/// A blank vote inserted before position `i` leaves the decoded tokens
/// unchanged, unless it parts two neighbouring votes for the same token.
pub proof fn lemma_blank_insertion(ids: Seq<int>, blank: int, i: int)
    requires
        0 <= i <= ids.len(),
        !(0 < i < ids.len() && ids[i - 1] == ids[i] && ids[i] != blank),
    ensures
        ctc_collapse(ids.insert(i, blank), blank) == ctc_collapse(ids, blank),
    decreases ids.len(),
{
    let ins = ids.insert(i, blank);
    if i == ids.len() {
        assert(ins =~= ids.push(blank));
        lemma_collapse_push_blank(ids, blank);
    } else {
        let front = ids.drop_last();
        assert(ins.drop_last() =~= front.insert(i, blank));
        assert(ins.last() == ids.last());
        if i < ids.len() - 1 {
            lemma_blank_insertion(front, blank, i);
            assert(ins[ins.len() - 2] == ids[ids.len() - 2]);
        } else {
            assert(front.insert(i, blank) =~= front.push(blank));
            lemma_collapse_push_blank(front, blank);
            assert(ins[ins.len() - 2] == blank);
        }
    }
}

/// A blank vote that parts two neighbouring votes for the same token makes
/// the decoder emit that token once more.
pub proof fn lemma_blank_splits_repeat(ids: Seq<int>, blank: int, i: int)
    requires
        0 < i < ids.len(),
        ids[i - 1] == ids[i],
        ids[i] != blank,
    ensures
        ctc_collapse(ids.insert(i, blank), blank).len() == ctc_collapse(ids, blank).len() + 1,
    decreases ids.len(),
{
    let ins = ids.insert(i, blank);
    let front = ids.drop_last();
    assert(ins.drop_last() =~= front.insert(i, blank));
    assert(ins.last() == ids.last());
    if i < ids.len() - 1 {
        lemma_blank_splits_repeat(front, blank, i);
        assert(ins[ins.len() - 2] == ids[ids.len() - 2]);
    } else {
        assert(front.insert(i, blank) =~= front.push(blank));
        lemma_collapse_push_blank(front, blank);
        assert(ins[ins.len() - 2] == blank);
    }
}

/// A run of votes for one token, with no blank between them, decodes to
/// that token once.
pub proof fn lemma_run_collapses(id: int, blank: int, n: nat)
    requires
        n >= 1,
        id != blank,
    ensures
        ctc_collapse(Seq::new(n, |k: int| id), blank) == seq![id],
    decreases n,
{
    let run = Seq::new(n, |k: int| id);
    if n == 1 {
        assert(run.drop_last() =~= Seq::<int>::empty());
        assert(ctc_collapse(run.drop_last(), blank) == Seq::<int>::empty());
        assert(Seq::<int>::empty().push(id) =~= seq![id]);
    } else {
        assert(run.drop_last() =~= Seq::new((n - 1) as nat, |k: int| id));
        lemma_run_collapses(id, blank, (n - 1) as nat);
    }
}

/// Two votes for one token with a blank between them decode to that token
/// twice.
pub proof fn lemma_blank_keeps_repeat(id: int, blank: int)
    requires
        id != blank,
    ensures
        ctc_collapse(seq![id, blank, id], blank) == seq![id, id],
{
    let s3 = seq![id, blank, id];
    let s2 = seq![id, blank];
    let s1 = seq![id];
    assert(s3.drop_last() =~= s2);
    assert(s2.drop_last() =~= s1);
    assert(s1.drop_last() =~= Seq::<int>::empty());
    assert(ctc_collapse(s1.drop_last(), blank) == Seq::<int>::empty());
    assert(ctc_collapse(s1, blank) =~= seq![id]);
    assert(ctc_collapse(s2, blank) == ctc_collapse(s1, blank));
    assert(ctc_collapse(s3, blank) =~= seq![id, id]);
}

/// `logits` with `frame` inserted as frame number `i`.
pub open spec fn insert_frame(logits: Seq<i32>, frame: Seq<i32>, i: int) -> Seq<i32> {
    logits.subrange(0, i * frame.len()) + frame + logits.subrange(
        i * frame.len(),
        logits.len() as int,
    )
}

/// Inserting a frame that votes blank anywhere among the frames of `logits`
/// never changes the decoded text, unless the frame parts two neighbouring
/// frames that vote for the same token.
pub proof fn lemma_blank_frame_insertion(
    logits: Seq<i32>,
    frame: Seq<i32>,
    time_steps: int,
    blank: int,
    i: int,
    texts: Seq<Seq<char>>,
)
    requires
        frame.len() >= 1,
        logits.len() == time_steps * frame.len(),
        0 <= i <= time_steps,
        argmax(frame) == blank,
        !(0 < i < time_steps && frame_ids(logits, time_steps, frame.len() as int, blank)[i - 1]
            == frame_ids(logits, time_steps, frame.len() as int, blank)[i] && frame_ids(
            logits,
            time_steps,
            frame.len() as int,
            blank,
        )[i] != blank),
    ensures
        frame_ids(insert_frame(logits, frame, i), time_steps + 1, frame.len() as int, blank)
            == frame_ids(logits, time_steps, frame.len() as int, blank).insert(i, blank),
        ctc_text(
            frame_ids(insert_frame(logits, frame, i), time_steps + 1, frame.len() as int, blank),
            blank,
            texts,
        ) == ctc_text(frame_ids(logits, time_steps, frame.len() as int, blank), blank, texts),
{
    let v = frame.len() as int;
    let longer = insert_frame(logits, frame, i);
    let before = frame_ids(logits, time_steps, v, blank);
    let after = frame_ids(longer, time_steps + 1, v, blank);
    assert(i * v <= time_steps * v) by (nonlinear_arith)
        requires
            0 <= i <= time_steps,
            v >= 1,
    ;
    assert(0 <= i * v) by (nonlinear_arith)
        requires
            0 <= i,
            v >= 1,
    ;
    assert(longer.len() == (time_steps + 1) * v) by (nonlinear_arith)
        requires
            longer.len() == time_steps * v + v,
    ;
    assert((time_steps * v) / v == time_steps) by (nonlinear_arith)
        requires
            v >= 1,
            time_steps >= 0,
    ;
    assert(((time_steps + 1) * v) / v == time_steps + 1) by (nonlinear_arith)
        requires
            v >= 1,
            time_steps >= 0,
    ;
    assert(before.len() == time_steps);
    assert(after.len() == time_steps + 1);
    assert forall|t: int| 0 <= t < time_steps + 1 implies after[t] == before.insert(i, blank)[t] by {
        let piece = longer.subrange(t * v, t * v + v);
        assert(0 <= t * v && t * v + v <= (time_steps + 1) * v) by (nonlinear_arith)
            requires
                0 <= t < time_steps + 1,
                v >= 1,
        ;
        if t < i {
            assert(t * v + v <= i * v) by (nonlinear_arith)
                requires
                    0 <= t < i,
                    v >= 1,
            ;
            assert(piece =~= logits.subrange(t * v, t * v + v));
        } else if t == i {
            assert(piece =~= frame);
        } else {
            assert((t - 1) * v == t * v - v) by (nonlinear_arith);
            assert(i * v + v <= t * v) by (nonlinear_arith)
                requires
                    i < t,
                    v >= 1,
            ;
            assert(piece =~= logits.subrange((t - 1) * v, (t - 1) * v + v));
        }
    }
    assert(after =~= before.insert(i, blank));
    lemma_blank_insertion(before, blank, i);
}

/// Turns joined token text into readable text.
pub fn finish_text(raw: Vec<char>) -> (text: String)
    ensures
        text@ == readable(raw@),
{
    let mut chars: Vec<char> = raw;
    replace_char(&mut chars, WORD_BOUNDARY, ' ');
    let bounds: (usize, usize) = trim_bounds(chars.as_slice());
    let kept: Vec<char> = slice_chars(chars.as_slice(), bounds.0, bounds.1);
    string_of(kept.as_slice())
}

/// Appends the text of token `id` to `raw`; an id without a text adds nothing.
pub fn push_token(raw: &mut Vec<char>, id: usize, vocab: &Vocabulary)
    ensures
        final(raw)@ == old(raw)@ + (if id < vocab.texts().len() {
            vocab.texts()[id as int]
        } else {
            Seq::empty()
        }),
{
    if id < vocab.tokens.len() {
        let mut piece: Vec<char> = chars_of(vocab.tokens[id].as_str());
        raw.append(&mut piece);
    } else {
        assert(raw@ + Seq::<char>::empty() =~= raw@);
    }
}

/// CTC greedy decoding of `time_steps` frames of `vocab_size` scores each.
///
/// Each frame votes for its arg-max. Blank votes are skipped, a vote that
/// repeats the frame before it is dropped, and the texts of the remaining
/// tokens are joined and made readable. Frames that `logits` does not hold
/// in full are not read.
pub fn ctc_decode(logits: &[i32], time_steps: usize, vocab_size: usize, vocab: &Vocabulary) -> (text:
    String)
    ensures
        text@ == ctc_text(
            frame_ids(logits@, time_steps as int, vocab_size as int, vocab.blank_id as int),
            vocab.blank_id as int,
            vocab.texts(),
        ),
{
    let len: usize = logits.len();
    let ghost ids = frame_ids(logits@, time_steps as int, vocab_size as int, vocab.blank_id as int);
    let ghost blank = vocab.blank_id as int;
    let mut raw: Vec<char> = Vec::new();
    let mut prev: Option<usize> = None;
    let mut t: usize = 0;
    let mut reading: bool = true;
    assert(ids.take(0) =~= Seq::<int>::empty());
    while reading && t < time_steps
        invariant
            len == logits@.len(),
            blank == vocab.blank_id,
            ids == frame_ids(logits@, time_steps as int, vocab_size as int, blank),
            t <= time_steps,
            t <= ids.len(),
            !reading ==> t == ids.len(),
            t * vocab_size <= len,
            raw@ == token_text(ctc_collapse(ids.take(t as int), blank), vocab.texts()),
            prev is None <==> (t == 0 || ids[t - 1] == blank),
            prev matches Some(p) ==> p == ids[t - 1],
        decreases (if reading { 1 + time_steps - t } else { 0 }),
    {
        let fits: bool = vocab_size <= len - t * vocab_size;
        if !fits {
            proof {
                assert(t == len as int / vocab_size as int) by (nonlinear_arith)
                    requires
                        t * vocab_size <= len,
                        len < t * vocab_size + vocab_size,
                        vocab_size > 0,
                        t >= 0,
                ;
            }
            reading = false;
        } else {
            proof {
                assert((t + 1) * vocab_size == t * vocab_size + vocab_size) by (nonlinear_arith);
                if vocab_size > 0 {
                    assert(t + 1 <= len as int / vocab_size as int) by (nonlinear_arith)
                        requires
                            (t + 1) * vocab_size <= len,
                            vocab_size > 0,
                    ;
                }
            }
            let start: usize = t * vocab_size;
            let end: usize = start + vocab_size;
            let id: usize = if vocab_size == 0 {
                vocab.blank_id
            } else {
                argmax_in(logits, start, end)
            };
            assert(id == ids[t as int]);
            proof {
                assert(ids.take(t + 1).drop_last() =~= ids.take(t as int));
                assert(ids.take(t + 1).last() == ids[t as int]);
                if t > 0 {
                    assert(ids.take(t + 1)[t - 1] == ids[t - 1]);
                }
            }
            let repeats: bool = match prev {
                Some(p) => p == id,
                None => false,
            };
            let ghost front = ctc_collapse(ids.take(t as int), blank);
            if id == vocab.blank_id {
                prev = None;
                assert(ctc_collapse(ids.take(t + 1), blank) == front);
            } else if repeats {
                assert(ctc_collapse(ids.take(t + 1), blank) == front);
            } else {
                prev = Some(id);
                push_token(&mut raw, id, vocab);
                proof {
                    assert(front.push(id as int).drop_last() =~= front);
                    assert(ctc_collapse(ids.take(t + 1), blank) == front.push(id as int));
                }
            }
            t = t + 1;
        }
    }
    assert(ids.take(t as int) =~= ids);
    finish_text(raw)
}


/// Number of duration classes that a transducer step scores: skips of 0 to 4
/// frames.
pub const TDT_DURATIONS: usize = 5;

/// Emissions allowed on one frame when the caller has no better value.
pub const DEFAULT_MAX_TOKENS_PER_STEP: usize = 10;

/// What the scores of one transducer step say: the token voted for and the
/// number of frames to skip.
#[derive(Debug, Clone, Copy, PartialEq, Eq, Structural)]
pub struct TdtStep {
    pub token: usize,
    pub duration: usize,
}

/// How the scores of one step are read: the first `vocab_size` scores vote
/// for a token, the `TDT_DURATIONS` scores after them, if they are all
/// there, for a duration. Fewer than `vocab_size` scores cannot be read.
pub open spec fn tdt_reading(logits: Seq<i32>, vocab_size: int, blank: int) -> Option<TdtStep> {
    if logits.len() < vocab_size {
        None
    } else {
        Some(
            TdtStep {
                token: frame_token(logits.subrange(0, vocab_size), blank) as usize,
                duration: if logits.len() >= vocab_size + TDT_DURATIONS {
                    argmax(logits.subrange(vocab_size, vocab_size + TDT_DURATIONS)) as usize
                } else {
                    0
                },
            },
        )
    }
}

/// Reads the scores of one transducer step; `None` when there are fewer
/// scores than token classes.
pub fn read_step(logits: &[i32], vocab: &Vocabulary) -> (step: Option<TdtStep>)
    ensures
        step == tdt_reading(logits@, vocab.vocab_size as int, vocab.blank_id as int),
{
    let len: usize = logits.len();
    let v: usize = vocab.vocab_size;
    if len < v {
        return None;
    }
    let token: usize = if v == 0 {
        vocab.blank_id
    } else {
        argmax_in(logits, 0, v)
    };
    let duration: usize = if len - v >= TDT_DURATIONS {
        argmax_in(logits, v, v + TDT_DURATIONS)
    } else {
        0
    };
    Some(TdtStep { token, duration })
}

/// The transducer's decoding state: the frame cursor, the emissions made on
/// the current frame, the last emitted token, and all tokens emitted so far.
#[derive(Debug, Clone)]
pub struct TdtDecoder {
    /// Number of encoder frames to decode.
    pub frames: usize,
    /// Emissions after which the cursor leaves a frame whatever the scores say.
    pub max_tokens_per_step: usize,
    /// The frame cursor.
    pub frame: usize,
    /// Emissions made since the cursor last moved.
    pub emitted_this_step: usize,
    /// The token that conditions the next step: the last one emitted, the
    /// blank before any.
    pub prev_token: usize,
    /// The tokens emitted so far.
    pub tokens: Vec<usize>,
}

/// The ids in `tokens` as integers.
pub open spec fn ids_of(tokens: Seq<usize>) -> Seq<int> {
    Seq::new(tokens.len(), |i: int| tokens[i] as int)
}

/// A decoding state as plain values: what a `TdtDecoder` holds.
pub struct TdtState {
    pub frames: usize,
    pub max_tokens_per_step: usize,
    pub frame: usize,
    pub emitted_this_step: usize,
    pub prev_token: usize,
    pub tokens: Seq<usize>,
}

impl View for TdtDecoder {
    type V = TdtState;

    open spec fn view(&self) -> TdtState {
        TdtState {
            frames: self.frames,
            max_tokens_per_step: self.max_tokens_per_step,
            frame: self.frame,
            emitted_this_step: self.emitted_this_step,
            prev_token: self.prev_token,
            tokens: self.tokens@,
        }
    }
}

/// The state that decoding starts from: the cursor on frame 0 of the
/// frames that the encoder output holds in full, nothing emitted, and the
/// blank as context.
pub open spec fn tdt_start(
    encoder_out_len: usize,
    encoded_length: usize,
    encoder_dim: usize,
    blank: usize,
    max_tokens_per_step: usize,
) -> TdtState {
    TdtState {
        frames: usable_frames(
            encoder_out_len as int,
            encoded_length as int,
            encoder_dim as int,
        ) as usize,
        max_tokens_per_step,
        frame: 0,
        emitted_this_step: 0,
        prev_token: blank,
        tokens: Seq::empty(),
    }
}

impl TdtState {
    /// The cursor has reached the end of the encoder output.
    pub open spec fn finished(self) -> bool {
        self.frame >= self.frames
    }

    /// Whether the cursor stays on its frame after `step`: a token was
    /// emitted with duration 0 and the cap is not reached.
    pub open spec fn stays(self, step: TdtStep, vocab: Vocabulary) -> bool {
        step.duration == 0 && TdtDecoder::emits(step, vocab) && self.emitted_this_step + 1
            < self.max_tokens_per_step
    }

    /// The state after one step's reading is taken in.
    pub open spec fn after(self, step: TdtStep, vocab: Vocabulary) -> TdtState {
        TdtState {
            frames: self.frames,
            max_tokens_per_step: self.max_tokens_per_step,
            frame: if step.duration > 0 {
                if self.frame + step.duration > usize::MAX {
                    usize::MAX
                } else {
                    (self.frame + step.duration) as usize
                }
            } else if self.stays(step, vocab) {
                self.frame
            } else {
                (self.frame + 1) as usize
            },
            emitted_this_step: if self.stays(step, vocab) {
                (self.emitted_this_step + 1) as usize
            } else {
                0
            },
            prev_token: if TdtDecoder::emits(step, vocab) {
                step.token
            } else {
                self.prev_token
            },
            tokens: if TdtDecoder::emits(step, vocab) {
                self.tokens.push(step.token)
            } else {
                self.tokens
            },
        }
    }

    /// The state after the readings `steps` are taken in, in order.
    pub open spec fn run(self, steps: Seq<TdtStep>, vocab: Vocabulary) -> TdtState
        decreases steps.len(),
    {
        if steps.len() == 0 {
            self
        } else {
            self.run(steps.drop_last(), vocab).after(steps.last(), vocab)
        }
    }
}

impl TdtDecoder {
    /// The emissions that one frame can take: the configured cap, and one
    /// even where the cap is 0.
    pub open spec fn cap(&self) -> int {
        if self.max_tokens_per_step == 0 {
            1
        } else {
            self.max_tokens_per_step as int
        }
    }

    /// The cursor has reached the end of the encoder output.
    pub open spec fn finished(&self) -> bool {
        self.frame >= self.frames
    }

    /// While frames remain, fewer emissions than the cap were made on the
    /// current one.
    pub open spec fn wf(&self) -> bool {
        !self.finished() ==> self.emitted_this_step < self.cap()
    }

    /// Upper bound on the steps still to come: every step lowers it.
    pub open spec fn rank(&self) -> int {
        if self.finished() {
            0
        } else {
            (self.frames - self.frame) * self.cap() - self.emitted_this_step
        }
    }

    /// Whether a step's token is emitted: it is not the blank and has a text.
    pub open spec fn emits(step: TdtStep, vocab: Vocabulary) -> bool {
        step.token != vocab.blank_id && step.token < vocab.tokens@.len()
    }

    /// Whether the cursor stays on its frame after `step`: a token was
    /// emitted with duration 0 and the cap is not reached.
    pub open spec fn stays(&self, step: TdtStep, vocab: Vocabulary) -> bool {
        step.duration == 0 && Self::emits(step, vocab) && self.emitted_this_step + 1
            < self.max_tokens_per_step
    }

    /// The cursor after `step`.
    pub open spec fn next_frame(&self, step: TdtStep, vocab: Vocabulary) -> int {
        if step.duration > 0 {
            if self.frame + step.duration > usize::MAX {
                usize::MAX as int
            } else {
                self.frame + step.duration
            }
        } else if self.stays(step, vocab) {
            self.frame as int
        } else {
            self.frame + 1
        }
    }

    /// A decoder at frame 0 for the `encoded_length` frames of `encoder_dim`
    /// values that `encoder_out_len` values hold in full.
    pub fn new(
        encoder_out_len: usize,
        encoded_length: usize,
        encoder_dim: usize,
        vocab: &Vocabulary,
        max_tokens_per_step: usize,
    ) -> (decoder: Self)
        ensures
            decoder.frames == usable_frames(
                encoder_out_len as int,
                encoded_length as int,
                encoder_dim as int,
            ),
            decoder.max_tokens_per_step == max_tokens_per_step,
            decoder.frame == 0,
            decoder.emitted_this_step == 0,
            decoder.prev_token == vocab.blank_id,
            decoder.tokens@.len() == 0,
            decoder@ == tdt_start(
                encoder_out_len,
                encoded_length,
                encoder_dim,
                vocab.blank_id,
                max_tokens_per_step,
            ),
            decoder.wf(),
            decoder.rank() == decoder.frames * decoder.cap(),
            decoder.rank() >= 0,
    {
        let frames: usize = if encoder_dim == 0 || encoded_length <= encoder_out_len
            / encoder_dim {
            encoded_length
        } else {
            encoder_out_len / encoder_dim
        };
        let decoder = TdtDecoder {
            frames,
            max_tokens_per_step,
            frame: 0,
            emitted_this_step: 0,
            prev_token: vocab.blank_id,
            tokens: Vec::new(),
        };
        proof {
            assert(decoder@.tokens =~= Seq::<usize>::empty());
            let cap = decoder.cap();
            assert(frames == 0 ==> frames * cap == 0) by (nonlinear_arith);
            assert(frames * cap >= 0) by (nonlinear_arith)
                requires
                    frames >= 0,
                    cap >= 1,
            ;
            assert((frames - 0) * cap - 0 == frames * cap) by (nonlinear_arith);
        }
        decoder
    }

    /// Whether the cursor has reached the end of the encoder output.
    pub fn is_done(&self) -> (done: bool)
        ensures
            done == self.finished(),
    {
        self.frame >= self.frames
    }

    /// Takes in one step's reading.
    ///
    /// A token that is not the blank is emitted and becomes the context of
    /// the next step. A positive duration moves the cursor by that many
    /// frames. With duration 0 the cursor moves one frame on, unless a token
    /// was emitted and the cap on emissions per frame is not reached: then
    /// it stays. Returns whether a token was emitted, which is when the
    /// caller adopts the recurrent state that the step produced.
    pub fn advance(&mut self, step: TdtStep, vocab: &Vocabulary) -> (emitted: bool)
        requires
            old(self).wf(),
            !old(self).finished(),
        ensures
            final(self)@ == old(self)@.after(step, *vocab),
            emitted == Self::emits(step, *vocab),
            final(self).frames == old(self).frames,
            final(self).max_tokens_per_step == old(self).max_tokens_per_step,
            final(self).frame == old(self).next_frame(step, *vocab),
            final(self).emitted_this_step == (if old(self).stays(step, *vocab) {
                old(self).emitted_this_step + 1
            } else {
                0
            }),
            final(self).prev_token == (if emitted {
                step.token
            } else {
                old(self).prev_token
            }),
            final(self).tokens@ == (if emitted {
                old(self).tokens@.push(step.token)
            } else {
                old(self).tokens@
            }),
            final(self).wf(),
            0 <= final(self).rank() < old(self).rank(),
            final(self).tokens@.len() + final(self).rank() <= old(self).tokens@.len() + old(
                self,
            ).rank(),
    {
        let ghost before = *self;
        let emitted: bool = step.token != vocab.blank_id && step.token < vocab.tokens.len();
        let mut on_frame: usize = self.emitted_this_step;
        if emitted {
            self.prev_token = step.token;
            self.tokens.push(step.token);
            on_frame = on_frame + 1;
        }
        proof {
            let left = before.frames - before.frame;
            let cap = before.cap();
            assert(left * cap >= cap) by (nonlinear_arith)
                requires
                    left >= 1,
                    cap >= 1,
            ;
            assert((left - 1) * cap == left * cap - cap) by (nonlinear_arith);
        }
        if step.duration > 0 {
            self.frame = self.frame.saturating_add(step.duration);
            self.emitted_this_step = 0;
            proof {
                if !self.finished() {
                    let d = self.frame - before.frame;
                    let left = before.frames - before.frame;
                    let cap = before.cap();
                    assert((left - d) * cap <= (left - 1) * cap) by (nonlinear_arith)
                        requires
                            1 <= d,
                            cap >= 1,
                    ;
                }
            }
        } else if !emitted || on_frame >= self.max_tokens_per_step {
            self.frame = self.frame + 1;
            self.emitted_this_step = 0;
        } else {
            self.emitted_this_step = on_frame;
        }
        emitted
    }

    /// The readable text of the tokens emitted so far.
    pub fn text(&self, vocab: &Vocabulary) -> (text: String)
        ensures
            text@ == readable(token_text(ids_of(self.tokens@), vocab.texts())),
    {
        let mut raw: Vec<char> = Vec::new();
        let mut i: usize = 0;
        let ghost ids = ids_of(self.tokens@);
        assert(ids.take(0) =~= Seq::<int>::empty());
        while i < self.tokens.len()
            invariant
                i <= self.tokens@.len(),
                ids == ids_of(self.tokens@),
                raw@ == token_text(ids.take(i as int), vocab.texts()),
            decreases self.tokens@.len() - i,
        {
            assert(ids.take(i + 1).drop_last() =~= ids.take(i as int));
            push_token(&mut raw, self.tokens[i], vocab);
            i = i + 1;
        }
        assert(ids.take(i as int) =~= ids);
        finish_text(raw)
    }
}


/// Decoding ends: the rank of a decoder is a natural number that `advance`
/// lowers with every step, it starts at the number of frames times the
/// cap, and a decoder whose rank is 0 has its cursor at the end of the
/// encoder output.
pub proof fn lemma_decoding_ends(decoder: TdtDecoder)
    requires
        decoder.wf(),
    ensures
        0 <= decoder.rank() <= decoder.frames * decoder.cap(),
        decoder.rank() == 0 <==> decoder.finished(),
{
    let cap = decoder.cap();
    let frames = decoder.frames as int;
    assert(frames * cap >= 0) by (nonlinear_arith)
        requires
            frames >= 0,
            cap >= 1,
    ;
    if !decoder.finished() {
        let left = decoder.frames - decoder.frame;
        assert(cap <= left * cap <= frames * cap) by (nonlinear_arith)
            requires
                1 <= left <= frames,
                cap >= 1,
        ;
    }
}

/// What transducer decoding yields.
#[derive(Debug, Clone)]
pub struct TdtTranscript {
    /// The readable text of the tokens.
    pub text: String,
    /// The tokens emitted, in order.
    pub tokens: Vec<usize>,
    /// The frame at which the cursor stopped.
    pub frame: usize,
    /// The readings of the steps that were taken in, in order.
    pub steps: Vec<TdtStep>,
    /// Whether decoding stopped early because a step gave fewer scores than
    /// there are token classes. The text is then what was decoded before.
    pub unreadable: bool,
}

/// Whether the step after the first `k` of `steps` adopts the recurrent
/// state of the step before it: where that step emitted a token.
pub open spec fn adopts(steps: Seq<TdtStep>, k: int, vocab: Vocabulary) -> bool {
    k > 0 && TdtDecoder::emits(steps[k - 1], vocab)
}

/// Run in the state `at`, the decoder network gave scores that read as
/// `reading`.
pub open spec fn step_read<E, F: Fn(usize, usize, bool) -> Result<Vec<i32>, E>>(
    decoder_step: F,
    at: TdtState,
    adopt: bool,
    vocab: Vocabulary,
    reading: Option<TdtStep>,
) -> bool {
    exists|made: Result<Vec<i32>, E>| #[trigger]
        call_ensures(decoder_step, (at.frame, at.prev_token, adopt), made) && (made matches Ok(
            scores,
        ) && tdt_reading(scores@, vocab.vocab_size as int, vocab.blank_id as int) == reading)
}

/// Step `k` of `steps` is the reading of what the decoder network gave in
/// the state that the steps before it led to, and frames were left then.
pub open spec fn step_taken<E, F: Fn(usize, usize, bool) -> Result<Vec<i32>, E>>(
    decoder_step: F,
    start: TdtState,
    steps: Seq<TdtStep>,
    vocab: Vocabulary,
    k: int,
) -> bool {
    !start.run(steps.take(k), vocab).finished() && step_read(
        decoder_step,
        start.run(steps.take(k), vocab),
        adopts(steps, k, vocab),
        vocab,
        Some(steps[k]),
    )
}

/// `steps` are the readings of a decoding from `start`: each is what the
/// decoder network gave when run with the cursor and the context that the
/// readings before it led to.
pub open spec fn decoded<E, F: Fn(usize, usize, bool) -> Result<Vec<i32>, E>>(
    decoder_step: F,
    start: TdtState,
    steps: Seq<TdtStep>,
    vocab: Vocabulary,
) -> bool {
    forall|k: int|
        0 <= k < steps.len() ==> #[trigger] step_taken(decoder_step, start, steps, vocab, k)
}

/// A decoding from `start` took the readings `steps`, frames were still
/// left, and the step that followed answered `made`.
pub open spec fn stepped_after<E, F: Fn(usize, usize, bool) -> Result<Vec<i32>, E>>(
    decoder_step: F,
    start: TdtState,
    steps: Seq<TdtStep>,
    vocab: Vocabulary,
    made: Result<Vec<i32>, E>,
) -> bool {
    &&& decoded(decoder_step, start, steps, vocab)
    &&& !start.run(steps, vocab).finished()
    &&& call_ensures(
        decoder_step,
        (
            start.run(steps, vocab).frame,
            start.run(steps, vocab).prev_token,
            adopts(steps, steps.len() as int, vocab),
        ),
        made,
    )
}

/// Taking in one more reading is one more `after`.
pub proof fn lemma_run_push(start: TdtState, steps: Seq<TdtStep>, step: TdtStep, vocab: Vocabulary)
    ensures
        start.run(steps.push(step), vocab) == start.run(steps, vocab).after(step, vocab),
{
    assert(steps.push(step).drop_last() =~= steps);
}

/// A decoding that has nothing to decode takes no step.
pub proof fn lemma_no_frames_no_steps<E, F: Fn(usize, usize, bool) -> Result<Vec<i32>, E>>(
    decoder_step: F,
    start: TdtState,
    steps: Seq<TdtStep>,
    vocab: Vocabulary,
)
    requires
        start.finished(),
        decoded(decoder_step, start, steps, vocab),
    ensures
        steps.len() == 0,
{
    if steps.len() > 0 {
        assert(step_taken(decoder_step, start, steps, vocab, 0));
        assert(steps.take(0) =~= Seq::<TdtStep>::empty());
    }
}

/// Transducer greedy decoding over `encoded_length` encoder frames.
///
/// `decoder_step` runs the decoder network once: it is given the frame
/// cursor, the token that conditions the step, and whether the recurrent
/// state that the step before produced is to be adopted first; it returns
/// the step's scores. The first call is for frame 0 with the blank as
/// context and nothing to adopt. Each step is read with `read_step` and
/// taken in with `TdtDecoder::advance`, until the cursor reaches the end of
/// the encoder output. Without a frame to decode no call is made and the
/// transcript is empty.
///
/// The first error of `decoder_step` ends the decoding and is returned:
/// an error is the answer of the step that followed the readings taken in
/// until then.
/// Scores too short to read end it too: the transcript then holds what was
/// decoded before and says so in `unreadable`.
///
/// Whatever the scores are, the decoding ends: no frame takes more
/// emissions than the cap.
pub fn tdt_decode<E, F: Fn(usize, usize, bool) -> Result<Vec<i32>, E>>(
    decoder_step: F,
    encoder_out_len: usize,
    encoded_length: usize,
    encoder_dim: usize,
    vocab: &Vocabulary,
    max_tokens_per_step: usize,
) -> (result: Result<TdtTranscript, E>)
    requires
        forall|frame: usize, prev: usize, adopt: bool| #[trigger]
            call_requires(decoder_step, (frame, prev, adopt)),
    ensures
        usable_frames(encoder_out_len as int, encoded_length as int, encoder_dim as int) == 0
            ==> (result matches Ok(out) && out.steps@.len() == 0 && out.tokens@.len() == 0
            && out.frame == 0 && !out.unreadable),
        result matches Ok(out) ==> {
            let start = tdt_start(
                encoder_out_len,
                encoded_length,
                encoder_dim,
                vocab.blank_id,
                max_tokens_per_step,
            );
            let end = start.run(out.steps@, *vocab);
            &&& decoded(decoder_step, start, out.steps@, *vocab)
            &&& out.tokens@ == end.tokens
            &&& out.frame == end.frame
            &&& out.unreadable <==> !end.finished()
            &&& out.unreadable ==> step_read(
                decoder_step,
                end,
                adopts(out.steps@, out.steps@.len() as int, *vocab),
                *vocab,
                None,
            )
            &&& out.text@ == readable(token_text(ids_of(out.tokens@), vocab.texts()))
            &&& forall|i: int|
                0 <= i < out.tokens@.len() ==> (#[trigger] out.tokens@[i]) != vocab.blank_id
                    && out.tokens@[i] < vocab.tokens@.len()
            &&& out.tokens@.len() <= start.frames * (if max_tokens_per_step == 0 {
                1
            } else {
                max_tokens_per_step as int
            })
        },
        result matches Err(e) ==> exists|steps: Seq<TdtStep>, made: Result<Vec<i32>, E>|
            made == Err::<Vec<i32>, E>(e) && #[trigger] stepped_after(
                decoder_step,
                tdt_start(
                    encoder_out_len,
                    encoded_length,
                    encoder_dim,
                    vocab.blank_id,
                    max_tokens_per_step,
                ),
                steps,
                *vocab,
                made,
            ),
{
    let mut decoder: TdtDecoder = TdtDecoder::new(
        encoder_out_len,
        encoded_length,
        encoder_dim,
        vocab,
        max_tokens_per_step,
    );
    let ghost start = decoder@;
    let ghost budget = decoder.rank();
    let mut steps: Vec<TdtStep> = Vec::new();
    let mut adopt: bool = false;
    let mut unreadable: bool = false;
    while !unreadable && !decoder.is_done()
        invariant
            forall|frame: usize, prev: usize, adopt: bool| #[trigger]
                call_requires(decoder_step, (frame, prev, adopt)),
            start == tdt_start(
                encoder_out_len,
                encoded_length,
                encoder_dim,
                vocab.blank_id,
                max_tokens_per_step,
            ),
            decoder@ == start.run(steps@, *vocab),
            decoded(decoder_step, start, steps@, *vocab),
            adopt == adopts(steps@, steps@.len() as int, *vocab),
            unreadable ==> !decoder.finished() && step_read(
                decoder_step,
                decoder@,
                adopt,
                *vocab,
                None,
            ),
            start.finished() ==> steps@.len() == 0 && !unreadable,
            decoder.wf(),
            decoder.rank() >= 0,
            decoder.frames == start.frames,
            budget == start.frames * decoder.cap(),
            decoder.tokens@.len() + decoder.rank() <= budget,
            forall|i: int|
                0 <= i < decoder.tokens@.len() ==> (#[trigger] decoder.tokens@[i])
                    != vocab.blank_id && decoder.tokens@[i] < vocab.tokens@.len(),
        decreases
                (if unreadable {
                    0
                } else {
                    1 + decoder.rank()
                }),
    {
        let made: Result<Vec<i32>, E> = decoder_step(decoder.frame, decoder.prev_token, adopt);
        let ghost stepped = made;
        let logits: Vec<i32> = match made {
            Ok(scores) => scores,
            Err(e) => {
                assert(call_ensures(
                    decoder_step,
                    (decoder@.frame, decoder@.prev_token, adopt),
                    stepped,
                ));
                assert(stepped_after(decoder_step, start, steps@, *vocab, stepped));
                return Err(e);
            },
        };
        assert(call_ensures(decoder_step, (decoder@.frame, decoder@.prev_token, adopt), stepped));
        match read_step(logits.as_slice(), vocab) {
            None => {
                assert(step_read(decoder_step, decoder@, adopt, *vocab, None));
                unreadable = true;
            },
            Some(step) => {
                let ghost before = decoder@;
                let ghost earlier = steps@;
                assert(step_read(decoder_step, before, adopt, *vocab, Some(step)));
                adopt = decoder.advance(step, vocab);
                steps.push(step);
                proof {
                    lemma_run_push(start, earlier, step, *vocab);
                    assert forall|k: int| 0 <= k < steps@.len() implies #[trigger] step_taken(
                        decoder_step,
                        start,
                        steps@,
                        *vocab,
                        k,
                    ) by {
                        if k < earlier.len() {
                            assert(step_taken(decoder_step, start, earlier, *vocab, k));
                            assert(steps@.take(k) =~= earlier.take(k));
                        } else {
                            assert(steps@.take(k) =~= earlier);
                        }
                    }
                }
            },
        }
    }
    let text: String = decoder.text(vocab);
    Ok(TdtTranscript { text, tokens: decoder.tokens, frame: decoder.frame, steps, unreadable })
}

/// The two architectures of the model family.
#[derive(Debug, Clone, Copy, PartialEq, Eq, Structural)]
pub enum ParakeetVariant {
    /// One network; greedy CTC decoding.
    Ctc,
    /// An encoder and a joint decoder; transducer decoding.
    Tdt,
}

/// The architecture that a model id names: the transducer where the id
/// holds `tdt`, CTC otherwise.
pub fn detect_variant(model_id: &str) -> (variant: ParakeetVariant)
    ensures
        variant == (if contains(model_id@, "tdt"@) {
            ParakeetVariant::Tdt
        } else {
            ParakeetVariant::Ctc
        }),
{
    let id: Vec<char> = chars_of(model_id);
    let mark: Vec<char> = chars_of("tdt");
    if contains_chars(id.as_slice(), mark.as_slice()) {
        ParakeetVariant::Tdt
    } else {
        ParakeetVariant::Ctc
    }
}

/// The model files that an architecture needs in its directory.
pub fn required_files(variant: ParakeetVariant) -> (files: Vec<&'static str>)
    ensures
        variant == ParakeetVariant::Ctc ==> files@.len() == 1 && files@[0]@ == "model.onnx"@,
        variant == ParakeetVariant::Tdt ==> files@.len() == 2 && files@[0]@
            == "encoder-model.onnx"@ && files@[1]@ == "decoder_joint-model.onnx"@,
{
    let mut files: Vec<&'static str> = Vec::new();
    match variant {
        ParakeetVariant::Ctc => {
            files.push("model.onnx");
        },
        ParakeetVariant::Tdt => {
            files.push("encoder-model.onnx");
            files.push("decoder_joint-model.onnx");
        },
    }
    files
}

/// The features that an architecture is fed: the default shape, with 80 mel
/// bands for CTC and 128 for the transducer.
pub open spec fn features_for(variant: ParakeetVariant) -> MelConfig {
    MelConfig {
        sample_rate: 16000,
        n_fft: 512,
        hop_length: 160,
        win_length: 400,
        n_mels: if variant == ParakeetVariant::Ctc {
            80
        } else {
            128
        },
        fmin: 0,
        fmax: 0,
        log_scale: true,
        normalize_per_feature: true,
    }
}

/// The features that an architecture is fed.
pub fn mel_config_for(variant: ParakeetVariant) -> (config: MelConfig)
    ensures
        config == features_for(variant),
{
    let n_mels: usize = match variant {
        ParakeetVariant::Ctc => 80,
        ParakeetVariant::Tdt => 128,
    };
    MelConfig {
        sample_rate: 16000,
        n_fft: 512,
        hop_length: 160,
        win_length: 400,
        n_mels,
        fmin: 0,
        fmax: 0,
        log_scale: true,
        normalize_per_feature: true,
    }
}

/// Why the output of a network could not be decoded.
#[derive(Debug, Clone, Copy, PartialEq, Eq, Structural)]
pub enum ShapeError {
    /// The tensor has a number of dimensions that the decoder has no reading for.
    UnexpectedRank { rank: usize },
    /// A dimension is negative or does not fit the machine.
    BadDimension,
    /// The tensor holds fewer values than its shape says.
    TooFewValues,
}

/// A dimension as a size.
pub open spec fn dimension(d: i64) -> Option<usize> {
    if 0 <= d <= usize::MAX {
        Some(d as usize)
    } else {
        None
    }
}

/// Reads a dimension as a size.
pub fn read_dimension(d: i64) -> (size: Option<usize>)
    ensures
        size == dimension(d),
{
    if d < 0 {
        None
    } else if d as u64 > usize::MAX as u64 {
        None
    } else {
        Some(d as usize)
    }
}

/// How the scores of a CTC network are laid out.
#[derive(Debug, Clone, Copy, PartialEq, Eq, Structural)]
pub struct LogitsLayout {
    pub time_steps: usize,
    pub vocab_size: usize,
}

/// The layout that a shape gives: `[batch, time, vocabulary]` or
/// `[time, vocabulary]`.
pub open spec fn layout_of(dims: Seq<i64>) -> Result<LogitsLayout, ShapeError> {
    if dims.len() == 3 || dims.len() == 2 {
        let time = dimension(dims[dims.len() - 2]);
        let vocab = dimension(dims[dims.len() - 1]);
        if time is Some && vocab is Some {
            Ok(LogitsLayout { time_steps: time->0, vocab_size: vocab->0 })
        } else {
            Err(ShapeError::BadDimension)
        }
    } else {
        Err(ShapeError::UnexpectedRank { rank: dims.len() as usize })
    }
}

/// Reads the layout of CTC scores from the shape of the output tensor.
pub fn ctc_layout(dims: &[i64]) -> (layout: Result<LogitsLayout, ShapeError>)
    ensures
        layout == layout_of(dims@),
{
    let rank: usize = dims.len();
    if rank == 3 || rank == 2 {
        match (read_dimension(dims[rank - 2]), read_dimension(dims[rank - 1])) {
            (Some(time_steps), Some(vocab_size)) => Ok(LogitsLayout { time_steps, vocab_size }),
            _ => Err(ShapeError::BadDimension),
        }
    } else {
        Err(ShapeError::UnexpectedRank { rank })
    }
}

/// How the output of the transducer's encoder is laid out: `frames`
/// columns of `dim` values each.
#[derive(Debug, Clone, Copy, PartialEq, Eq, Structural)]
pub struct EncoderLayout {
    pub dim: usize,
    pub frames: usize,
}

/// The layout that the shape `[batch, dim, frames]` gives.
pub open spec fn encoder_layout_of(dims: Seq<i64>) -> Result<EncoderLayout, ShapeError> {
    if dims.len() == 3 {
        let dim = dimension(dims[1]);
        let frames = dimension(dims[2]);
        if dim is Some && frames is Some {
            Ok(EncoderLayout { dim: dim->0, frames: frames->0 })
        } else {
            Err(ShapeError::BadDimension)
        }
    } else {
        Err(ShapeError::UnexpectedRank { rank: dims.len() as usize })
    }
}

/// Reads the layout of the encoder's output from the shape of its tensor.
pub fn encoder_layout(dims: &[i64]) -> (layout: Result<EncoderLayout, ShapeError>)
    ensures
        layout == encoder_layout_of(dims@),
{
    let rank: usize = dims.len();
    if rank == 3 {
        match (read_dimension(dims[1]), read_dimension(dims[2])) {
            (Some(dim), Some(frames)) => Ok(EncoderLayout { dim, frames }),
            _ => Err(ShapeError::BadDimension),
        }
    } else {
        Err(ShapeError::UnexpectedRank { rank })
    }
}

/// The number of encoder frames that are valid: the first of the lengths
/// that the encoder reports.
pub fn encoded_length(lengths: &[i64]) -> (length: Result<usize, ShapeError>)
    ensures
        length == (if lengths@.len() == 0 {
            Err::<usize, ShapeError>(ShapeError::TooFewValues)
        } else {
            match dimension(lengths@[0]) {
                Some(n) => Ok::<usize, ShapeError>(n),
                None => Err::<usize, ShapeError>(ShapeError::BadDimension),
            }
        }),
{
    if lengths.len() == 0 {
        Err(ShapeError::TooFewValues)
    } else {
        match read_dimension(lengths[0]) {
            Some(n) => Ok(n),
            None => Err(ShapeError::BadDimension),
        }
    }
}

/// `rows` rows of `cols` values turned into `cols` rows of `rows` values.
pub open spec fn transposed<T>(data: Seq<T>, rows: int, cols: int) -> Seq<T> {
    Seq::new((rows * cols) as nat, |k: int| data[(k % rows) * cols + k / rows])
}

/// Turns the encoder's output, one row per feature, into one row per
/// frame, which is how the decoder reads it.
pub fn transpose<T: Copy>(data: &[T], rows: usize, cols: usize) -> (out: Result<
    Vec<T>,
    ShapeError,
>)
    ensures
        match out {
            Ok(v) => rows * cols <= data@.len() && v@ == transposed(
                data@,
                rows as int,
                cols as int,
            ),
            Err(e) => e == ShapeError::TooFewValues && rows * cols > data@.len(),
        },
{
    let len: usize = data.len();
    let total: usize = match rows.checked_mul(cols) {
        Some(n) => n,
        None => {
            return Err(ShapeError::TooFewValues);
        },
    };
    if total > len {
        return Err(ShapeError::TooFewValues);
    }
    let mut out: Vec<T> = Vec::new();
    let mut j: usize = 0;
    while j < cols
        invariant
            total == rows * cols,
            total <= data@.len(),
            j <= cols,
            out@.len() == j * rows,
            forall|k: int|
                0 <= k < out@.len() ==> (#[trigger] out@[k]) == data@[(k % (rows as int)) * cols
                    + k / (rows as int)],
        decreases cols - j,
    {
        let mut i: usize = 0;
        let ghost base = out@.len() as int;
        while i < rows
            invariant
                total == rows * cols,
                total <= data@.len(),
                j < cols,
                i <= rows,
                base == j * rows,
                out@.len() == base + i,
                forall|k: int|
                    0 <= k < out@.len() ==> (#[trigger] out@[k]) == data@[(k % (rows as int))
                        * cols + k / (rows as int)],
            decreases rows - i,
        {
            proof {
                let r = rows as int;
                let c = cols as int;
                assert(i * c + j < r * c) by (nonlinear_arith)
                    requires
                        0 <= i < r,
                        0 <= j < c,
                ;
                assert((j * r + i) % r == i && (j * r + i) / r == j) by (nonlinear_arith)
                    requires
                        0 <= i < r,
                        0 <= j,
                ;
            }
            out.push(data[i * cols + j]);
            i = i + 1;
        }
        proof {
            assert((j + 1) * rows == j * rows + rows) by (nonlinear_arith);
        }
        j = j + 1;
    }
    proof {
        assert(cols * rows == rows * cols) by (nonlinear_arith);
    }
    assert(out@ =~= transposed(data@, rows as int, cols as int));
    Ok(out)
}

/// Decodes the output of a CTC network: the scores are laid out as the
/// shape of their tensor says and decoded greedily. A tensor of three
/// dimensions must hold all the values that its shape promises.
pub fn decode_ctc_output(dims: &[i64], logits: &[i32], vocab: &Vocabulary) -> (text: Result<
    String,
    ShapeError,
>)
    ensures
        match layout_of(dims@) {
            Err(e) => text == Err::<String, ShapeError>(e),
            Ok(layout) => if dims@.len() == 3 && layout.time_steps * layout.vocab_size
                > logits@.len() {
                text == Err::<String, ShapeError>(ShapeError::TooFewValues)
            } else {
                text matches Ok(t) && t@ == ctc_text(
                    frame_ids(
                        logits@,
                        layout.time_steps as int,
                        layout.vocab_size as int,
                        vocab.blank_id as int,
                    ),
                    vocab.blank_id as int,
                    vocab.texts(),
                )
            },
        },
{
    let layout: LogitsLayout = match ctc_layout(dims) {
        Ok(layout) => layout,
        Err(e) => {
            return Err(e);
        },
    };
    if dims.len() == 3 {
        let len: usize = logits.len();
        let enough: bool = match layout.time_steps.checked_mul(layout.vocab_size) {
            Some(n) => n <= len,
            None => false,
        };
        if !enough {
            return Err(ShapeError::TooFewValues);
        }
    }
    Ok(ctc_decode(logits, layout.time_steps, layout.vocab_size, vocab))
}

/// What the transducer's encoder put out, ready for decoding: one row of
/// `dim` values per frame, and the number of frames that are valid.
#[derive(Debug, Clone, PartialEq)]
pub struct EncoderOutput<T> {
    pub frames: Vec<T>,
    pub dim: usize,
    pub encoded_length: usize,
}

/// Reads the output of the transducer's encoder: the tensor of shape
/// `[batch, dim, frames]` is turned into one row per frame, and the first
/// reported length is the number of valid frames.
pub fn prepare_encoder_output<T: Copy>(dims: &[i64], data: &[T], lengths: &[i64]) -> (out: Result<
    EncoderOutput<T>,
    ShapeError,
>)
    ensures
        match encoder_layout_of(dims@) {
            Err(e) => out == Err::<EncoderOutput<T>, ShapeError>(e),
            Ok(layout) => if layout.dim * layout.frames > data@.len() || lengths@.len() == 0 {
                out == Err::<EncoderOutput<T>, ShapeError>(ShapeError::TooFewValues)
            } else if dimension(lengths@[0]) is None {
                out == Err::<EncoderOutput<T>, ShapeError>(ShapeError::BadDimension)
            } else {
                out matches Ok(o) && o.dim == layout.dim && o.encoded_length == dimension(
                    lengths@[0],
                )->0 && o.frames@ == transposed(data@, layout.dim as int, layout.frames as int)
            },
        },
{
    let layout: EncoderLayout = match encoder_layout(dims) {
        Ok(layout) => layout,
        Err(e) => {
            return Err(e);
        },
    };
    let frames: Vec<T> = match transpose(data, layout.dim, layout.frames) {
        Ok(frames) => frames,
        Err(e) => {
            return Err(e);
        },
    };
    match encoded_length(lengths) {
        Ok(n) => Ok(EncoderOutput { frames, dim: layout.dim, encoded_length: n }),
        Err(e) => Err(e),
    }
}

/// The shape of one recurrent state of the transducer's decoder:
/// `[layers, 1, width]`.
#[derive(Debug, Clone, Copy, PartialEq, Eq, Structural)]
pub struct StateShape {
    pub layers: usize,
    pub width: usize,
}

impl StateShape {
    /// The shape assumed until a decoder step has shown the real one:
    /// two layers of 640.
    pub fn assumed() -> (shape: Self)
        ensures
            shape == (StateShape { layers: 2, width: 640 }),
    {
        StateShape { layers: 2, width: 640 }
    }

    /// The shape after a decoder step reported a state of shape `dims`: the
    /// first and last of three sizes, and the shape as it was where `dims`
    /// does not hold three sizes.
    pub open spec fn detected(self, dims: Seq<i64>) -> StateShape {
        if dims.len() == 3 && dimension(dims[0]) is Some && dimension(dims[2]) is Some {
            StateShape { layers: dimension(dims[0])->0, width: dimension(dims[2])->0 }
        } else {
            self
        }
    }

    /// Takes the shape of the state from what the first decoder step put out.
    pub fn detect(self, dims: &[i64]) -> (shape: Self)
        ensures
            shape == self.detected(dims@),
    {
        if dims.len() == 3 {
            match (read_dimension(dims[0]), read_dimension(dims[2])) {
                (Some(layers), Some(width)) => StateShape { layers, width },
                _ => self,
            }
        } else {
            self
        }
    }

    /// Number of values in a state of this shape, where that fits the machine.
    pub fn len(&self) -> (n: Option<usize>)
        ensures
            n == (if self.layers * self.width <= usize::MAX {
                Some((self.layers * self.width) as usize)
            } else {
                None
            }),
    {
        self.layers.checked_mul(self.width)
    }
}

/// The speech-to-text engine of the Parakeet family, as far as it lives
/// outside the tensor runtime: the architecture, the feature shape, and
/// the vocabulary.
#[derive(Debug, Clone)]
pub struct OnnxSttEngine {
    pub vocabulary: Option<Vocabulary>,
    pub variant: ParakeetVariant,
    pub mel_config: MelConfig,
}

impl OnnxSttEngine {
    /// An engine with no model: CTC and the default features until one is loaded.
    pub fn new() -> (engine: Self)
        ensures
            engine.vocabulary is None,
            engine.variant == ParakeetVariant::Ctc,
            engine.mel_config == features_for(ParakeetVariant::Ctc),
    {
        OnnxSttEngine {
            vocabulary: None,
            variant: ParakeetVariant::Ctc,
            mel_config: mel_config_for(ParakeetVariant::Ctc),
        }
    }

    /// Takes in a model whose networks the runtime has loaded: the
    /// architecture follows from the model's id, the features from the
    /// architecture.
    pub fn load_model(&mut self, model_id: &str, vocabulary: Vocabulary)
        ensures
            final(self).vocabulary == Some(vocabulary),
            final(self).variant == (if contains(model_id@, "tdt"@) {
                ParakeetVariant::Tdt
            } else {
                ParakeetVariant::Ctc
            }),
            final(self).mel_config == features_for(final(self).variant),
    {
        let variant: ParakeetVariant = detect_variant(model_id);
        self.variant = variant;
        self.mel_config = mel_config_for(variant);
        self.vocabulary = Some(vocabulary);
    }

    /// The result of transcribing with this engine: the decoded text, in
    /// English, without segments.
    pub fn result_of(text: String, duration_ms: u64) -> (result: TranscriptionResult)
        ensures
            result.text == text,
            result.language matches Some(l) && l@ == "en"@,
            result.duration_ms == duration_ms,
            result.segments is None,
    {
        TranscriptionResult {
            text,
            language: Some(String::from_str("en")),
            duration_ms,
            segments: None,
        }
    }
}

impl Engine for OnnxSttEngine {
    open spec fn loaded(&self) -> bool {
        self.vocabulary is Some
    }

    open spec fn direction(&self) -> ModelCapability {
        ModelCapability::SpeechToText
    }

    fn unload_model(&mut self) {
        self.vocabulary = None;
    }

    fn is_loaded(&self) -> (loaded: bool) {
        self.vocabulary.is_some()
    }

    fn capability(&self) -> (capability: ModelCapability) {
        ModelCapability::SpeechToText
    }
}

} // verus!
