//! What is done to the signal before the conditioner sees it.

pub mod resample;
