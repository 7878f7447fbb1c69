//! The state machine of a delay-line octave and pitch-smear effect.
//!
//! The effect writes each incoming sample into a ring buffer, reads the
//! buffer back through two independently scheduled cursors, and feeds the
//! mixture through a soft clipper, a DC blocker and a breakpoint waveshaper.
//! This crate holds everything about that chain that is decided on integers:
//! where the ring is written and read, how the two cursors move, which band
//! of the shaper a sample falls into, and when processing is bypassed.
//!
//! Samples and real-valued parameters are carried as IEEE-754 binary32 bit
//! patterns (`u32`, as given by `f32::to_bits`). The library moves them and
//! orders them, and it reproduces the one product whose integer part decides
//! an index; every other piece of arithmetic on sample values is the
//! caller's.

pub mod binary32;
pub mod delay_line;
pub mod params;
pub mod processor;
pub mod read_heads;
pub mod shaper;

pub use params::EvenPogParams;
pub use processor::EvenPog;
