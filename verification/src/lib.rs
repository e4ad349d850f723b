//! Thoth core logic: voice-activity smoothing, speech gating, audio ring
//! buffering, configuration, dictionary and prompt handling, changelog
//! parsing, and the other decision-making parts of the dictation app, with
//! their behaviour stated and proved.

pub mod smoothed;
pub mod ring_buffer;
pub mod vad;
pub mod speech_gate;
pub mod text;
pub mod config;
pub mod paths;
pub mod dictionary;
pub mod changelog;
pub mod clipboard;
pub mod prompts;
pub mod enhancement;
pub mod control_api;
pub mod jobs;
pub mod canonical;
pub mod insights;
pub mod silero;
pub mod detector;
pub mod recordings;
pub mod suggest;
pub mod recorder;
