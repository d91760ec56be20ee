//! Speech-to-text core: audio buffering, silence-aware chunking, feature
//! framing, CTC and transducer decoding, and the bookkeeping that stitches
//! chunk transcripts into one text.
//!
//! Samples are 16-bit PCM and model scores are integers, so every rule in
//! this crate is exact integer arithmetic.

pub mod audio;
pub mod commands;
pub mod engine;
pub mod hotkey;
pub mod hub;
pub mod state;
pub mod text;
