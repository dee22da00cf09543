//! Comparisons with a relative tolerance of `1e-7`.
use vstd::prelude::*;
use crate::types::{abs, max};

verus! {

/// `1 / rel_tol`: two values are close when their distance, scaled by this,
/// does not exceed the larger magnitude.
pub const INV_REL_TOL: i128 = 10_000_000;

pub open spec fn close_spec(a: int, b: int) -> bool {
    INV_REL_TOL * abs(a - b) <= max(abs(a), abs(b))
}

pub open spec fn gt_spec(a: int, b: int) -> bool {
    !close_spec(a, b) && a > b
}

pub open spec fn lt_spec(a: int, b: int) -> bool {
    !close_spec(a, b) && a < b
}

pub open spec fn ge_spec(a: int, b: int) -> bool {
    close_spec(a, b) || a > b
}

pub open spec fn le_spec(a: int, b: int) -> bool {
    close_spec(a, b) || a < b
}

/// The magnitude up to which the wide comparisons take their arguments.
pub open spec fn wide_bound() -> int {
    0x1_0000_0000_0000_0000
}

pub(crate) fn isclose_wide(a: i128, b: i128) -> (r: bool)
    requires
        abs(a as int) <= wide_bound(),
        abs(b as int) <= wide_bound(),
    ensures
        r == close_spec(a as int, b as int),
{
    let d: i128 = if a < b { b - a } else { a - b };
    let aa: i128 = if a < 0 { -a } else { a };
    let bb: i128 = if b < 0 { -b } else { b };
    let m: i128 = if aa < bb { bb } else { aa };
    INV_REL_TOL * d <= m
}

pub(crate) fn gt_wide(a: i128, b: i128) -> (r: bool)
    requires
        abs(a as int) <= wide_bound(),
        abs(b as int) <= wide_bound(),
    ensures
        r == gt_spec(a as int, b as int),
{
    !isclose_wide(a, b) && a > b
}

/// `|a - b| <= 1e-7 * max(|a|, |b|)`.
pub fn isclose(a: i64, b: i64) -> (r: bool)
    ensures
        r == close_spec(a as int, b as int),
{
    isclose_wide(a as i128, b as i128)
}

/// `a > b`, and not close to it.
pub fn gt(a: i64, b: i64) -> (r: bool)
    ensures
        r == gt_spec(a as int, b as int),
{
    !isclose(a, b) && a > b
}

/// `a < b`, and not close to it.
pub fn lt(a: i64, b: i64) -> (r: bool)
    ensures
        r == lt_spec(a as int, b as int),
{
    !isclose(a, b) && a < b
}

/// `a > b`, or close to it.
pub fn ge(a: i64, b: i64) -> (r: bool)
    ensures
        r == ge_spec(a as int, b as int),
{
    isclose(a, b) || a > b
}

/// `a < b`, or close to it.
pub fn le(a: i64, b: i64) -> (r: bool)
    ensures
        r == le_spec(a as int, b as int),
{
    isclose(a, b) || a < b
}

} // verus!
