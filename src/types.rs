//! The fixed-point representation of real quantities.
use vstd::prelude::*;

verus! {

/// The fixed-point representation of `1.0`: values count billionths.
pub const ONE: i64 = 1_000_000_000;

/// The largest magnitude of a matrix value, so that the difference of any
/// two values (after orienting a criterion) fits an `i64`.
pub const VALUE_LIMIT: i64 = 4_000_000_000_000_000_000;

pub open spec fn abs(x: int) -> int {
    if x < 0 { -x } else { x }
}

pub open spec fn max(a: int, b: int) -> int {
    if a < b { b } else { a }
}

pub open spec fn min(a: int, b: int) -> int {
    if a < b { a } else { b }
}

/// A matrix value that the library can hold.
pub open spec fn in_value_range(x: int) -> bool {
    -VALUE_LIMIT <= x <= VALUE_LIMIT
}

} // verus!
