//! A verified practice engine for learning Morse code.
//!
//! The crate models the adaptive drill logic of an interactive tutor:
//! a fixed symbol-to-code table with case-insensitive lookup, a retry
//! queue that re-presents items until they are answered correctly, a
//! tiered progression system with accuracy and speed gates, and a
//! statistics aggregator that feeds those gates.  All terminal and file
//! input/output lives outside this crate; the functions here take plain
//! values and return plain values, with contracts checked by Verus.

pub mod config;
pub mod encoder;
pub mod progression;
pub mod queue;
pub mod ratio;
pub mod stats;
pub mod tutor;
