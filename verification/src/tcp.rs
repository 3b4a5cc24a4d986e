//! Transport-layer concerns: the control-flag bitset.

pub mod flags;
