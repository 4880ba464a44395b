//! Verified core primitives for arithmetizing EVM execution semantics:
//! a numeric codec between chain-level values and field elements, random
//! linear combination and positional byte codecs, a phase-gated challenge
//! manager, a degree-bounded constraint builder, and a windowed witness
//! cache over a rectangular trace region.

pub mod math;
pub mod field;
pub mod word;
pub mod expression;
pub mod challenges;
pub mod cached_region;
pub mod constraint_builder;
pub mod rlc;
pub mod from_bytes;
pub mod util;
