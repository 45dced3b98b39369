//! Verified core of the blip25-mbe Python façade: the argument checks,
//! byte/dibit/bit-order conversions, soft-decision packet serialization
//! and the plain-value models that the binding layer hands to and takes
//! from the vocoder engine.

pub mod bits;
pub mod dibits;
pub mod errors;
pub mod natural;
pub mod enums;
pub mod stream;
pub mod soft_decision;
pub mod rate33;
pub mod fmt;
