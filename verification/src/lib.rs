//! Core logic of a voice-dictation desktop backend.
//!
//! The crate models and verifies the parts of the backend that make
//! decisions: the session orchestrator that runs a chunked
//! capture/transcribe/persist loop, the supervisor that tracks one external
//! synthesis-service process, the transcription-history bookkeeping, and the
//! PCM/WAV container round trip. All I/O (microphone capture, files, the
//! database, process spawning, HTTP) stays outside, in thin adapters that
//! feed plain values in and carry actions out.

pub mod history;
pub mod session;
pub mod supervisor;
pub mod text;
pub mod translation;
pub mod wav;
