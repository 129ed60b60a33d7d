//! Fixed-point numbers: a value `v` stands for `v / ONE`.
use vstd::prelude::*;

verus! {

/// The fixed-point unit: the integer that stands for 1.0.
pub const ONE: i64 = 1_000_000;

} // verus!
