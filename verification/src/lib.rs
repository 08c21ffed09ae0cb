//! Core of an audio-memo ingestion server: WAV container encoding, a
//! device liveness registry, a bounded transcript log with legacy
//! timestamp normalization, and a fan-out event hub.
//!
//! Everything here is verified; the HTTP surface, file I/O and the
//! transcription engine live outside the library and call into it with
//! plain values.

pub mod codec;
pub mod hub;
pub mod ingest;
pub mod registry;
pub mod store;
pub mod timestamp;
