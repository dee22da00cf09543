//! Positive and negative preference flows of one criterion.
use vstd::prelude::*;
use crate::error::MCDMRSError;
use crate::pref_functions::{get_pref_function, lemma_self_comparison_neutral, pref_of_name, pref_spec, thresholds_ok, PrefFunction};
use crate::types::{in_value_range, ONE};

verus! {

/// `sum_{j < k} pref(x - v[j])`: how much `x` is preferred to the first `k`
/// values.
pub open spec fn plus_sum(v: Seq<i64>, x: int, f: PrefFunction, q: int, p: int, k: int) -> int
    decreases k,
{
    if k <= 0 {
        0
    } else {
        plus_sum(v, x, f, q, p, k - 1) + pref_spec(f, x - v[k - 1], q, p)
    }
}

/// `sum_{j < k} pref(v[j] - x)`: how much the first `k` values are preferred
/// to `x`.
pub open spec fn minus_sum(v: Seq<i64>, x: int, f: PrefFunction, q: int, p: int, k: int) -> int
    decreases k,
{
    if k <= 0 {
        0
    } else {
        minus_sum(v, x, f, q, p, k - 1) + pref_spec(f, v[k - 1] - x, q, p)
    }
}

/// The positive flow of alternative `i`: its average preference over all
/// alternatives (rounded down).
pub open spec fn plus_flow(v: Seq<i64>, i: int, f: PrefFunction, q: int, p: int) -> int {
    plus_sum(v, v[i] as int, f, q, p, v.len() as int) / (v.len() - 1)
}

/// The negative flow of alternative `i`: the average preference of all
/// alternatives over it (rounded down).
pub open spec fn minus_flow(v: Seq<i64>, i: int, f: PrefFunction, q: int, p: int) -> int {
    minus_sum(v, v[i] as int, f, q, p, v.len() as int) / (v.len() - 1)
}

/// Every value lies within the representable range.
pub open spec fn values_in_range(v: Seq<i64>) -> bool {
    forall|j: int| 0 <= j < v.len() ==> in_value_range(#[trigger] v[j] as int)
}

/// Every flow lies in `[0, 2 * ONE]`.
pub open spec fn flow_bounded(s: Seq<i64>) -> bool {
    forall|i: int| 0 <= i < s.len() ==> 0 <= #[trigger] s[i] <= 2 * ONE
}

/// Every flow lies in `[0, ONE]`.
pub open spec fn flow_unit(s: Seq<i64>) -> bool {
    forall|i: int| 0 <= i < s.len() ==> 0 <= #[trigger] s[i] <= ONE
}

/// Whether a column of `n` values can be evaluated with shape `f`.
pub open spec fn flow_defined(n: int, f: PrefFunction, q: int, p: int) -> bool {
    n >= 2 && thresholds_ok(f, q, p)
}

/// `v` and `w` are exactly the positive and negative flows of the column.
pub open spec fn is_flow_of(
    plus: Seq<i64>,
    minus: Seq<i64>,
    v: Seq<i64>,
    f: PrefFunction,
    q: int,
    p: int,
) -> bool {
    &&& plus.len() == v.len()
    &&& minus.len() == v.len()
    &&& forall|i: int| 0 <= i < v.len() ==> #[trigger] plus[i] == plus_flow(v, i, f, q, p)
    &&& forall|i: int| 0 <= i < v.len() ==> #[trigger] minus[i] == minus_flow(v, i, f, q, p)
}

proof fn lemma_average_unit(s: int, n: int)
    requires
        n >= 2,
        0 <= s <= (n - 1) * ONE,
    ensures
        s / (n - 1) <= ONE,
{
    assert(s / (n - 1) <= ((n - 1) * ONE) / (n - 1)) by (nonlinear_arith)
        requires 0 <= s <= (n - 1) * ONE, n >= 2;
    assert(((n - 1) * ONE) / (n - 1) == ONE) by (nonlinear_arith)
        requires n >= 2;
}

proof fn lemma_average_bound(s: int, n: int)
    requires
        n >= 2,
        0 <= s <= n * ONE,
    ensures
        0 <= s / (n - 1) <= 2 * ONE,
{
    assert(n * ONE <= 2 * ONE * (n - 1)) by (nonlinear_arith)
        requires n >= 2;
    assert(s / (n - 1) <= (2 * ONE * (n - 1)) / (n - 1)) by (nonlinear_arith)
        requires 0 <= s <= 2 * ONE * (n - 1), n >= 2;
    assert((2 * ONE * (n - 1)) / (n - 1) == 2 * ONE) by (nonlinear_arith)
        requires n >= 2;
    assert(0 <= s / (n - 1)) by (nonlinear_arith)
        requires 0 <= s, n >= 2;
}

/// The flows of one column under the shape `f`, each alternative compared
/// with every alternative (itself included).
pub fn unicriterion_flow_with(array: &Vec<i64>, f: PrefFunction, q: i64, p: i64) -> (r: Result<(Vec<i64>, Vec<i64>), MCDMRSError>)
    requires
        values_in_range(array@),
    ensures
        r is Ok <==> flow_defined(array@.len() as int, f, q as int, p as int),
        r matches Ok((pl, mi)) ==> is_flow_of(pl@, mi@, array@, f, q as int, p as int),
        r matches Ok((pl, mi)) ==> flow_bounded(pl@) && flow_bounded(mi@),
        r matches Ok((pl, mi)) ==> (0 <= q <= p ==> flow_unit(pl@) && flow_unit(mi@)),
        r matches Err(e) ==> e == MCDMRSError::DegenerateInput,
{
    let n = array.len();
    if n < 2 {
        return Err(MCDMRSError::DegenerateInput);
    }
    let ok = match f {
        PrefFunction::VShape => p > 0,
        PrefFunction::VShape2 => (p as i128) > (q as i128),
        _ => true,
    };
    if !ok {
        return Err(MCDMRSError::DegenerateInput);
    }
    let ghost v = array@;
    let mut plus: Vec<i64> = Vec::new();
    let mut minus: Vec<i64> = Vec::new();
    let mut i: usize = 0;
    while i < n
        invariant
            n == v.len(),
            v == array@,
            n >= 2,
            values_in_range(v),
            0 <= i <= n,
            plus@.len() == i,
            minus@.len() == i,
            forall|k: int| 0 <= k < i ==> #[trigger] plus@[k] == plus_flow(v, k, f, q as int, p as int),
            forall|k: int| 0 <= k < i ==> #[trigger] minus@[k] == minus_flow(v, k, f, q as int, p as int),
            forall|k: int| 0 <= k < i ==> 0 <= #[trigger] plus@[k] <= 2 * ONE,
            forall|k: int| 0 <= k < i ==> 0 <= #[trigger] minus@[k] <= 2 * ONE,
            0 <= q <= p ==> flow_unit(plus@) && flow_unit(minus@),
        decreases n - i,
    {
        let x = array[i];
        let mut sp: i128 = 0;
        let mut sm: i128 = 0;
        let mut j: usize = 0;
        while j < n
            invariant
                n == v.len(),
                v == array@,
                values_in_range(v),
                i < n,
                x == v[i as int],
                0 <= j <= n,
                sp == plus_sum(v, x as int, f, q as int, p as int, j as int),
                sm == minus_sum(v, x as int, f, q as int, p as int, j as int),
                0 <= sp <= j * ONE,
                0 <= sm <= j * ONE,
                0 <= q <= p ==> sp + (if j > i { ONE as int } else { 0 }) <= j * ONE,
                0 <= q <= p ==> sm + (if j > i { ONE as int } else { 0 }) <= j * ONE,
            decreases n - j,
        {
            let y = array[j];
            assert(in_value_range(x as int) && in_value_range(y as int));
            proof {
                if 0 <= q <= p {
                    lemma_self_comparison_neutral(f, q as int, p as int);
                }
            }
            let a = f.eval(x - y, q, p);
            let b = f.eval(y - x, q, p);
            sp = sp + a as i128;
            sm = sm + b as i128;
            j = j + 1;
        }
        proof {
            lemma_average_bound(sp as int, n as int);
            lemma_average_bound(sm as int, n as int);
            if 0 <= q <= p {
                lemma_average_unit(sp as int, n as int);
                lemma_average_unit(sm as int, n as int);
            }
        }
        let d: i128 = (n - 1) as i128;
        plus.push((sp / d) as i64);
        minus.push((sm / d) as i64);
        i = i + 1;
    }
    Ok((plus, minus))
}

/// The flows of one column under the shape that `fname` names.
pub fn unicriterion_flow(array: &Vec<i64>, fname: &str, q: i64, p: i64) -> (r: Result<(Vec<i64>, Vec<i64>), MCDMRSError>)
    requires
        values_in_range(array@),
    ensures
        pref_of_name(fname@) is None ==> r == Err::<(Vec<i64>, Vec<i64>), MCDMRSError>(MCDMRSError::UnknownPreferenceFunction),
        pref_of_name(fname@) matches Some(f) ==> {
            &&& (r is Ok <==> flow_defined(array@.len() as int, f, q as int, p as int))
            &&& (r matches Ok((pl, mi)) ==> is_flow_of(pl@, mi@, array@, f, q as int, p as int))
            &&& (r matches Ok((pl, mi)) ==> flow_bounded(pl@) && flow_bounded(mi@))
            &&& (r matches Ok((pl, mi)) ==> (0 <= q <= p ==> flow_unit(pl@) && flow_unit(mi@)))
            &&& (r matches Err(e) ==> e == MCDMRSError::DegenerateInput)
        },
{
    let f = get_pref_function(fname)?;
    unicriterion_flow_with(array, f, q, p)
}

proof fn lemma_constant_sums_zero(v: Seq<i64>, x: int, f: PrefFunction, q: int, p: int, k: int)
    requires
        0 <= q <= p,
        0 <= k <= v.len(),
        forall|j: int| 0 <= j < v.len() ==> #[trigger] v[j] == x,
    ensures
        plus_sum(v, x, f, q, p, k) == 0,
        minus_sum(v, x, f, q, p, k) == 0,
    decreases k,
{
    if k > 0 {
        lemma_constant_sums_zero(v, x, f, q, p, k - 1);
        lemma_self_comparison_neutral(f, q, p);
        assert(v[k - 1] == x);
    }
}

/// A column whose values are all equal has zero positive and negative
/// flow for every alternative, for thresholds with `0 <= q <= p`.
pub proof fn lemma_constant_column_zero_flow(v: Seq<i64>, f: PrefFunction, q: int, p: int, i: int)
    requires
        0 <= q <= p,
        v.len() >= 2,
        0 <= i < v.len(),
        forall|j: int| 0 <= j < v.len() ==> #[trigger] v[j] == v[0],
    ensures
        plus_flow(v, i, f, q, p) == 0,
        minus_flow(v, i, f, q, p) == 0,
{
    assert(v[i] == v[0]);
    lemma_constant_sums_zero(v, v[0] as int, f, q, p, v.len() as int);
}

} // verus!
