//! A training kernel whose every result is a function of bit patterns alone.
//!
//! Scalars are IEEE-754 binary32 values held as their 32-bit patterns, and the
//! arithmetic on them is integer code proved correctly rounded, so that two runs
//! on different machines agree bit for bit. On top of it stand the perceptron and
//! the small multi-layer network, the record that a run publishes, and the check
//! that recomputes a published record.

pub mod error;
pub mod scalar;
pub mod nearest;
pub mod rounding;
pub mod arith;
pub mod dataset;
pub mod perceptron;
pub mod mlp;
pub mod record;
pub mod parity;
