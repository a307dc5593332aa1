//! Front end of a voice-command assistant: the resampler and the signal
//! conditioner that prepare the microphone's signal for the recognizer, the
//! session machine that waits for the wake word and opens a window for one
//! command, the classifier that finds the command in a recognized text, and
//! the executor that carries it out.
//!
//! Every fractional quantity is held as an integer, so that the behaviour is
//! exact and the same on every machine.

pub mod audio;
pub mod bindings;
pub mod commands;
pub mod fixed;
pub mod normalizer;
pub mod session;
pub mod settings;
