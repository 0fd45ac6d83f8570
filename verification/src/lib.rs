//! A bank of resonators: a spectrum analyzer that is updated sample by sample.
//!
//! Each resonator correlates its input with a rotating phasor of its own
//! frequency, accumulates the result with an exponentially weighted average and
//! smooths it with another. [`ResonatorBank`] runs many of them side by side,
//! four at a time where it can.
//!
//! * [`number`] holds the values that a bank works on.
//! * [`arithmetic`] is what it computes with; the implementation is the caller's.
//! * [`config`] is what a resonator is made from; [`dynamics`] finds its weights.
//! * [`model`] says what a bank is and how it evolves.
//! * [`bank`] is the bank itself, each operation proved against the model.
//! * [`laws`] is what holds of a bank over several operations.
//! * [`outcomes`] is what two runs have in common, and what any run keeps.
//! * [`scaling`] is what scaled samples and scaled rates do.
//! * [`hand`] is a bank worked out by hand, operation by operation, and what each
//!   part of a resonator depends on.
//! * [`exact`] reads numbers as real ones; [`meaning`] is what a bank then does.
//! * [`calls`] is how the calls of a bank relate to one another.

pub mod arithmetic;
pub mod bank;
pub mod calls;
pub mod config;
pub mod dynamics;
pub mod exact;
pub mod hand;
pub mod laws;
pub mod meaning;
pub mod model;
pub mod number;
pub mod outcomes;
pub mod scaling;

pub use arithmetic::Arithmetic;
pub use bank::ResonatorBank;
pub use config::ResonatorConfig;
pub use model::STABILIZE_EVERY;
pub use number::{Binary32, Complex, Lanes};
