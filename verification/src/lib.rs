//! Verified core of Hi-Voicer, a local offline speech workbench.
pub mod text;
pub mod paths;
pub mod config;
pub mod app_state;
pub mod engine;
pub mod sherpa_output;
pub mod protobuf;
pub mod websocket;
pub mod hotwords;
pub mod subtitles;
pub mod acceleration;
pub mod directml;
pub mod qwen;
pub mod audio;
pub mod transcription;
pub mod cli;
pub mod wav_chunks;
pub mod diagnostics;
pub mod child_probe;
