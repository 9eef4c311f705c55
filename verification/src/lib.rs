//! Bridge from a replay decoder's structured value trees to host-native
//! values, with a verified conversion pass and a fail-fast pipeline around it.
//!
//! The conversion keeps numeric representations apart (unsigned, signed,
//! floating point carried as its bit pattern), preserves list order, and
//! re-orders map keys lexicographically so that two conversions of the same
//! logical tree give the same result whatever order the source map was
//! iterated in.

pub mod bridge;
pub mod laws;
pub mod order;
pub mod pipeline;
pub mod serial;
pub mod value;
