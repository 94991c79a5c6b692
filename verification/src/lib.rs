//! Decision logic and persistence rules for a local meeting recorder.
pub mod database;
pub mod summary;
pub mod text;
pub mod transcription;
pub mod engines;
pub mod json;
pub mod recording;
pub mod sql;
