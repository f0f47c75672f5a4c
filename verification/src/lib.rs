//! Target-speaker gating.
//!
//! The library decides, frame by frame, whether a microphone signal belongs to
//! an enrolled voice, and shapes the audio accordingly. It holds the data
//! structures, rules and state machines; neural models, device streams and
//! files are driven from outside and hand in plain values.
pub mod apo;
pub mod assembly;
pub mod chain;
pub mod cli;
pub mod config;
pub mod decisions;
pub mod devices;
pub mod dfn3;
pub mod embedding;
pub mod engine;
pub mod enrollment;
pub mod f0;
pub mod features;
pub mod gating;
pub mod hf_fetch;
pub mod laws;
pub mod models;
pub mod offline;
pub mod ort_threads;
pub mod overlap;
pub mod pipeline;
pub mod recording;
pub mod refresh;
pub mod resample;
pub mod rings;
pub mod scalar;
pub mod session;
pub mod shapes;
pub mod speech;
pub mod streaming;
pub mod streams;
pub mod text;
pub mod tse;
pub mod tse_stage;
pub mod turn;
pub mod vad;
