//! Register-level model of an SN76489-family sound generator, and the
//! detection of note events from the chip state sampled at time ticks.
pub mod chip;
pub mod pitch;
pub mod detector;
