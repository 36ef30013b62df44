//! The core of a speech-to-text dispatcher. It normalises WAV audio into
//! mono samples at 16000 Hz, recognises which of three model layouts a
//! directory holds, keeps the state of the loaded engine, cleans what the
//! in-process recogniser returns, and prepares and interprets a run of the
//! external recogniser.
//!
//! Everything here works on integers, strings and plain data. An audio
//! sample is a single-precision number held by its 32-bit pattern, and the
//! arithmetic on samples is done on those patterns, with the results that
//! single-precision hardware gives. Files, processes, locks and the
//! recognisers themselves are the caller's.

pub mod arith;
pub mod audio;
pub mod digits;
pub mod engine;
pub mod json;
pub mod model;
pub mod resolver;
pub mod rounding;
pub mod sidecar;
pub mod single;
pub mod text;
pub mod transcript;
pub mod vocabulary;
pub mod wav;

pub use audio::AudioBuffer;
pub use engine::{AppState, TranscriptionEngine};
pub use model::{SherpaConfig, SherpaModelType};
