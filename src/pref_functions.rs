//! The five preference-function shapes, mapping a deviation to a degree.
use vstd::prelude::*;
use crate::cmp::{close_spec, gt, gt_spec, le, le_spec, lt, lt_spec};
use crate::error::MCDMRSError;
use crate::types::{abs, max, min, ONE};

verus! {

/// The degree of a half preference, used by [`level`].
pub const HALF: i64 = 500_000_000;

/// A preference-function shape.
#[derive(Clone, Copy, Debug, PartialEq, Eq, Structural)]
pub enum PrefFunction {
    Usual,
    UShape,
    VShape,
    VShape2,
    Level,
}

/// The degree by which a deviation `d` is preferred, for the shape `f` with
/// indifference threshold `q` and preference threshold `p`.
pub open spec fn pref_spec(f: PrefFunction, d: int, q: int, p: int) -> int {
    match f {
        PrefFunction::Usual => if gt_spec(d, 0) { ONE as int } else { 0 },
        PrefFunction::UShape => if gt_spec(d, q) { ONE as int } else { 0 },
        PrefFunction::VShape => {
            if gt_spec(d, p) {
                ONE as int
            } else if gt_spec(d, 0) && le_spec(d, p) {
                min(ONE as int, d * ONE / p)
            } else {
                0
            }
        },
        PrefFunction::VShape2 => {
            if gt_spec(d, p) {
                ONE as int
            } else if lt_spec(q, d) && le_spec(d, p) {
                min(ONE as int, (d - q) * ONE / (p - q))
            } else {
                0
            }
        },
        PrefFunction::Level => {
            if gt_spec(d, p) {
                ONE as int
            } else if lt_spec(q, d) && le_spec(d, p) {
                HALF as int
            } else {
                0
            }
        },
    }
}

/// The shape that a name selects (`vshape_2` and `linear` name `vshape2`).
pub open spec fn pref_of_name(s: Seq<char>) -> Option<PrefFunction> {
    if s == "usual"@ {
        Some(PrefFunction::Usual)
    } else if s == "ushape"@ {
        Some(PrefFunction::UShape)
    } else if s == "vshape"@ {
        Some(PrefFunction::VShape)
    } else if s == "vshape2"@ || s == "vshape_2"@ || s == "linear"@ {
        Some(PrefFunction::VShape2)
    } else if s == "level"@ {
        Some(PrefFunction::Level)
    } else {
        None
    }
}

/// Whether the thresholds leave the shape's division well defined.
pub open spec fn thresholds_ok(f: PrefFunction, q: int, p: int) -> bool {
    match f {
        PrefFunction::VShape => p > 0,
        PrefFunction::VShape2 => p > q,
        _ => true,
    }
}

/// A deviation above zero that is at most (or close to) `p` forces `p > 0`.
proof fn lemma_le_positive(d: int, p: int)
    requires
        d > 0,
        le_spec(d, p),
    ensures
        p > 0,
{
    if close_spec(d, p) && p <= 0 {
        assert(abs(d - p) >= max(abs(d), abs(p)));
    }
}

/// A deviation strictly above `q` that is at most (or close to) `p` forces
/// `p > q`.
proof fn lemma_between(q: int, d: int, p: int)
    requires
        lt_spec(q, d),
        le_spec(d, p),
    ensures
        p > q,
{
}

/// 1 if `d > 0`, else 0.
pub fn usual(d: i64, q: i64, p: i64) -> (r: i64)
    ensures
        r == pref_spec(PrefFunction::Usual, d as int, q as int, p as int),
{
    if gt(d, 0) { ONE } else { 0 }
}

/// 1 if `d > q`, else 0.
pub fn ushape(d: i64, q: i64, p: i64) -> (r: i64)
    ensures
        r == pref_spec(PrefFunction::UShape, d as int, q as int, p as int),
{
    if gt(d, q) { ONE } else { 0 }
}

/// 1 if `d > p`; `d / p` (at most 1) if `0 < d <= p`; else 0.
pub fn vshape(d: i64, q: i64, p: i64) -> (r: i64)
    ensures
        r == pref_spec(PrefFunction::VShape, d as int, q as int, p as int),
        0 <= r <= ONE,
{
    if gt(d, p) {
        ONE
    } else if gt(d, 0) && le(d, p) {
        proof {
            lemma_le_positive(d as int, p as int);
        }
        let x: i128 = (d as i128) * (ONE as i128) / (p as i128);
        if x < ONE as i128 { x as i64 } else { ONE }
    } else {
        0
    }
}

/// 1 if `d > p`; `(d - q) / (p - q)` (at most 1) if `q < d <= p`; else 0.
pub fn vshape2(d: i64, q: i64, p: i64) -> (r: i64)
    ensures
        r == pref_spec(PrefFunction::VShape2, d as int, q as int, p as int),
        0 <= r <= ONE,
{
    if gt(d, p) {
        ONE
    } else if lt(q, d) && le(d, p) {
        proof {
            lemma_between(q as int, d as int, p as int);
            let dq = d as int - q as int;
            assert(0 < dq <= 0x1_0000_0000_0000_0000);
            assert(dq * ONE <= 0x1_0000_0000_0000_0000 * ONE) by (nonlinear_arith)
                requires dq <= 0x1_0000_0000_0000_0000;
        }
        let x: i128 = ((d as i128) - (q as i128)) * (ONE as i128) / ((p as i128) - (q as i128));
        if x < ONE as i128 { x as i64 } else { ONE }
    } else {
        0
    }
}

/// 1 if `d > p`; one half if `q < d <= p`; else 0.
pub fn level(d: i64, q: i64, p: i64) -> (r: i64)
    ensures
        r == pref_spec(PrefFunction::Level, d as int, q as int, p as int),
{
    if gt(d, p) {
        ONE
    } else if lt(q, d) && le(d, p) {
        HALF
    } else {
        0
    }
}

impl PrefFunction {
    /// The degree by which the deviation `d` is preferred under this shape.
    pub fn eval(&self, d: i64, q: i64, p: i64) -> (r: i64)
        ensures
            r == pref_spec(*self, d as int, q as int, p as int),
            0 <= r <= ONE,
    {
        match self {
            PrefFunction::Usual => usual(d, q, p),
            PrefFunction::UShape => ushape(d, q, p),
            PrefFunction::VShape => vshape(d, q, p),
            PrefFunction::VShape2 => vshape2(d, q, p),
            PrefFunction::Level => level(d, q, p),
        }
    }
}

/// Whether two texts are equal.
pub(crate) fn same_text(a: &str, b: &str) -> (r: bool)
    ensures
        r == (a@ == b@),
{
    a.to_owned() == b.to_owned()
}

/// Looks up a shape by its name; an unknown name is an error.
pub fn get_pref_function(name: &str) -> (r: Result<PrefFunction, MCDMRSError>)
    ensures
        r matches Ok(f) ==> pref_of_name(name@) == Some(f),
        r matches Err(e) ==> pref_of_name(name@) is None && e == MCDMRSError::UnknownPreferenceFunction,
{
    proof {
        reveal_strlit("usual");
        reveal_strlit("ushape");
        reveal_strlit("vshape");
        reveal_strlit("vshape2");
        reveal_strlit("vshape_2");
        reveal_strlit("linear");
        reveal_strlit("level");
    }
    if same_text(name, "usual") {
        Ok(PrefFunction::Usual)
    } else if same_text(name, "ushape") {
        Ok(PrefFunction::UShape)
    } else if same_text(name, "vshape") {
        Ok(PrefFunction::VShape)
    } else if same_text(name, "vshape2") || same_text(name, "vshape_2") || same_text(name, "linear") {
        Ok(PrefFunction::VShape2)
    } else if same_text(name, "level") {
        Ok(PrefFunction::Level)
    } else {
        Err(MCDMRSError::UnknownPreferenceFunction)
    }
}

/// Comparing a value with itself is neutral: a zero deviation has degree
/// zero under every shape, for thresholds with `0 <= q <= p`.
pub proof fn lemma_self_comparison_neutral(f: PrefFunction, q: int, p: int)
    requires
        0 <= q <= p,
    ensures
        pref_spec(f, 0, q, p) == 0,
{
}

} // verus!
