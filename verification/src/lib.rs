//! Pitch and peak-amplitude estimation for short audio buffers by bitstream
//! autocorrelation.
//!
//! A buffer of signed PCM samples is reduced to one bit per sample (the
//! zero-crossing state), packed into 64-bit words, and correlated with itself
//! by XOR and population count over every candidate lag. The lag with the
//! fewest differing bits is the estimated period.
//!
//! The word width is fixed at 64 bits on every target, so that a buffer gives
//! the same estimate on every machine.

pub mod amplitude;
pub mod config;
pub mod estimate;
pub mod stream;
pub mod word;
pub mod zero_cross;

pub use crate::amplitude::peak;
pub use crate::config::Config;
pub use crate::estimate::{bcf, detect, find_period, resolve, Pitch, PitchError};
pub use crate::stream::BitStream;
pub use crate::zero_cross::{classify, Swing, ZeroCross};
