//! Conditioning of what comes in: recognized text and PCM audio.

pub mod audio;
pub mod text;
