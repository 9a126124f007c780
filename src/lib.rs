//! A sixteen-step drum-machine core: a sample store, a beat scheduler that
//! retriggers voices on the beats their masks select, and an integer mixer
//! that renders interleaved signed 16-bit PCM.
//!
//! Samples are kept as signed 16-bit values; a gain is a Q15 fixed-point
//! factor, where `GAIN_UNIT` stands for a gain of one.

pub mod pcm;
pub mod store;
pub mod engine;
pub mod sdl;

pub use engine::{AudioEngine, EngineError, Voice, MAX_VOICES, SAMPLE_RATE, STEPS};
pub use pcm::{decode_s16le, to_output, GAIN_UNIT};
pub use sdl::SDL_RWops;
pub use store::{SampleStore, SoundEntry};
