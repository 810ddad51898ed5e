//! A carry-free range coder over a pluggable probability model.
//!
//! An [`Encoder`] narrows a 64-bit interval once per symbol, by the share
//! that a [`PModel`] gives the symbol, and emits every byte of the interval
//! that can no longer change. A [`Decoder`] replays the same narrowing on a
//! window of the stream and finds each symbol from where the window lies.
//!
//! The modules, from the ground up:
//! - [`bits`], [`bytes`]: registers and byte strings as numbers;
//! - [`interval`], [`interval_laws`]: the interval, narrowing, and what holds
//!   of it;
//! - [`range_coder`], [`encoder`], [`decoder`]: the executable coder;
//! - [`pmodel`], [`alphabet_param`], [`freq_table`]: models;
//! - [`session`]: whole sessions and their laws, proved in [`containment`]
//!   and [`mirror`];
//! - [`uext`]: unsigned integers as byte strings.
pub mod alphabet_param;
pub mod bits;
pub mod bytes;
pub mod containment;
pub mod decoder;
pub mod encoder;
pub mod error;
pub mod freq_table;
pub mod interval;
pub mod interval_laws;
pub mod mirror;
pub mod pmodel;
pub mod range_coder;
pub mod session;
pub mod uext;

pub use crate::decoder::Decoder;
pub use crate::encoder::Encoder;
pub use crate::pmodel::PModel;
pub use crate::range_coder::RangeCoder;
