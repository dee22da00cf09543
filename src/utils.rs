//! Random analyses, for benchmarks and experiments.
use vstd::prelude::*;
use rand::Rng;
use crate::error::MCDMRSError;
use crate::multicriterion_flow::mat_view;
use crate::promethee::{Criteria, Prom};
use crate::types::ONE;

verus! {

/// The upper end (exclusive) of the values that [`generate_prom`] draws:
/// `20.0`.
pub const RANDOM_VALUE_MAX: i64 = 20 * ONE;

/// Relies on `rand::Rng::gen_range` on `rand::thread_rng()`: a value drawn
/// from `[lo, hi)`. The call panics on an empty range, which `requires`
/// leaves out.
#[verifier::external_body]
fn draw_value(lo: i64, hi: i64) -> (r: i64)
    requires
        lo < hi,
    ensures
        lo <= r < hi,
{
    rand::thread_rng().gen_range(lo..hi)
}

/// An analysis of `m` criteria over `n` alternatives with values drawn
/// uniformly from `[0, 20)`; every criterion has weight one, is maximized,
/// uses the usual shape and has both thresholds zero.
pub fn generate_prom(n: usize, m: usize) -> (r: Result<Prom, MCDMRSError>)
    ensures
        r matches Ok(p) && {
            &&& p.wf()
            &&& p.mc_flow is None && p.prom_i is None && p.prom_ii is None
            &&& p.matrix_t@.len() == m
            &&& forall|k: int| 0 <= k < m ==> (#[trigger] p.matrix_t@[k])@.len() == n
            &&& forall|k: int, a: int| 0 <= k < m && 0 <= a < n ==> 0 <= #[trigger] p.matrix_t@[k]@[a] < RANDOM_VALUE_MAX
            &&& p.criteria.weight@ == Seq::new(m as nat, |k: int| ONE)
            &&& p.criteria.criteria_type@ == Seq::new(m as nat, |k: int| ONE)
            &&& forall|k: int| 0 <= k < m ==> (#[trigger] p.criteria.pref_function@[k])@ == "usual"@
            &&& p.criteria.q@ == Seq::new(m as nat, |k: int| 0i64)
            &&& p.criteria.p@ == Seq::new(m as nat, |k: int| 0i64)
        },
{
    let mut matrix_t: Vec<Vec<i64>> = Vec::new();
    let mut weight: Vec<i64> = Vec::new();
    let mut criteria_type: Vec<i64> = Vec::new();
    let mut pref_function: Vec<String> = Vec::new();
    let mut q: Vec<i64> = Vec::new();
    let mut p: Vec<i64> = Vec::new();
    let mut k: usize = 0;
    while k < m
        invariant
            0 <= k <= m,
            matrix_t@.len() == k,
            forall|i: int| 0 <= i < k ==> (#[trigger] matrix_t@[i])@.len() == n,
            forall|i: int, a: int| 0 <= i < k && 0 <= a < n ==> 0 <= #[trigger] matrix_t@[i]@[a] < RANDOM_VALUE_MAX,
            weight@ == Seq::new(k as nat, |i: int| ONE),
            criteria_type@ == Seq::new(k as nat, |i: int| ONE),
            pref_function@.len() == k,
            forall|i: int| 0 <= i < k ==> (#[trigger] pref_function@[i])@ == "usual"@,
            q@ == Seq::new(k as nat, |i: int| 0i64),
            p@ == Seq::new(k as nat, |i: int| 0i64),
        decreases m - k,
    {
        let mut row: Vec<i64> = Vec::new();
        let mut a: usize = 0;
        while a < n
            invariant
                0 <= a <= n,
                row@.len() == a,
                forall|j: int| 0 <= j < a ==> 0 <= #[trigger] row@[j] < RANDOM_VALUE_MAX,
            decreases n - a,
        {
            row.push(draw_value(0, RANDOM_VALUE_MAX));
            a = a + 1;
        }
        matrix_t.push(row);
        weight.push(ONE);
        criteria_type.push(ONE);
        pref_function.push("usual".to_string());
        q.push(0);
        p.push(0);
        proof {
            assert(weight@ =~= Seq::new((k + 1) as nat, |i: int| ONE));
            assert(criteria_type@ =~= Seq::new((k + 1) as nat, |i: int| ONE));
            assert(q@ =~= Seq::new((k + 1) as nat, |i: int| 0i64));
            assert(p@ =~= Seq::new((k + 1) as nat, |i: int| 0i64));
        }
        k = k + 1;
    }
    proof {
        let mv = mat_view(matrix_t@);
        assert forall|i: int| 0 <= i < m implies (#[trigger] mv[i]).len() == n
            && crate::unicriterion_flow::values_in_range(mv[i]) by {
            assert(mv[i] == matrix_t@[i]@);
            assert forall|a: int| 0 <= a < mv[i].len() implies crate::types::in_value_range(#[trigger] mv[i][a] as int) by {
                assert(0 <= matrix_t@[i]@[a] < RANDOM_VALUE_MAX);
            }
        }
        if m > 0 {
            assert(mv[0] == matrix_t@[0]@);
        }
    }
    let criteria = Criteria { weight, criteria_type, pref_function, q, p };
    Prom::new(matrix_t, criteria)
}

} // verus!
