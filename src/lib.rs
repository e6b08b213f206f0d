//! A streaming transcoding core: a registry of serialization formats, a
//! format-agnostic token model, and an engine that checks and degrades a
//! token stream for a target format.
pub mod format;
pub mod token;
pub mod engine;
pub mod laws;
pub mod cli;
