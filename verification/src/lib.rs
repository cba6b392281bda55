//! A cron-expression scheduling engine.
//!
//! The engine parses textual cron patterns into per-field value-set
//! constraints, validates them against a seconds-field policy, tests
//! whether an instant satisfies a pattern, computes the next (or next N)
//! matching instants from a starting instant, and renders canonical text
//! and a human-readable description.
//!
//! Instants are UTC epoch seconds; the supported range is
//! 1970-01-01T00:00:00Z through 9999-12-31T23:59:59Z.

pub mod calendar;
pub mod describe;
pub mod laws;
pub mod matching;
pub mod parser;
pub mod render;
pub mod roundtrip;
pub mod search;
pub mod types;

use vstd::prelude::*;

pub use parser::{parse, validate, FieldKind};
pub use types::{FieldConstraint, ParseError, ParseErrorKind, Pattern, SecondsPolicy};

verus! {

/// Largest supported instant: 9999-12-31T23:59:59Z as UTC epoch seconds.
pub const MAX_INSTANT: u64 = 253402300799;

} // verus!
