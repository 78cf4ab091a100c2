//! Verified core of a speech-transcription and OCR desktop tool.
use vstd::prelude::*;

pub mod text;
pub mod errors;
pub mod export;
pub mod models;
pub mod paths;
pub mod model_manager;
pub mod progress;
pub mod formats;
pub mod media;
pub mod dictionary;
pub mod lifecycle;
pub mod downloads;
pub mod ffmpeg_output;
pub mod config;
pub mod history;
pub mod pipeline;
pub mod shell;

verus! {
} // verus!
