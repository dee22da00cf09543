//! PROMETHEE I and II aggregation, and the analysis that caches its stages.
use vstd::prelude::*;
use crate::error::MCDMRSError;
use crate::math::{
    diff, lemma_entry_le_total, min_max_norm, min_max_spec, mult_axis_0,
    nonnegative, normalize_vec, normalized, seq_sum, sum_axis_0, total, transpose,
};
use crate::multicriterion_flow::{
    all_rows_ok, first_row_error, is_mc_flow_of, is_rect, mat_view, matrix_in_range, n_cols,
    multicriterion_flow, MCFlowResult,
};
use crate::types::{min, VALUE_LIMIT, ONE};
use crate::unicriterion_flow::flow_bounded;

verus! {

/// The per-criterion parameters: weight, direction (a negative
/// `criteria_type` minimizes the criterion, any other maximizes it),
/// preference-function name and the thresholds `q` and `p`.
#[derive(Clone, Debug)]
pub struct Criteria {
    pub weight: Vec<i64>,
    pub criteria_type: Vec<i64>,
    pub pref_function: Vec<String>,
    pub q: Vec<i64>,
    pub p: Vec<i64>,
}

impl Criteria {
    /// The number of criteria.
    pub open spec fn len(&self) -> int {
        self.weight@.len() as int
    }

    /// All five arrays have one entry per criterion.
    pub open spec fn lengths_agree(&self) -> bool {
        &&& self.criteria_type@.len() == self.len()
        &&& self.pref_function@.len() == self.len()
        &&& self.q@.len() == self.len()
        &&& self.p@.len() == self.len()
    }

    pub open spec fn wf(&self) -> bool {
        self.lengths_agree() && nonnegative(self.weight@)
    }

    /// The criteria, when the five arrays share one length
    /// (else `DimensionMismatch`) and no weight is negative (else
    /// `OutOfRange`).
    pub fn new(
        weight: Vec<i64>,
        criteria_type: Vec<i64>,
        pref_function: Vec<String>,
        q: Vec<i64>,
        p: Vec<i64>,
    ) -> (r: Result<Criteria, MCDMRSError>)
        ensures
            ({
                let same = criteria_type@.len() == weight@.len() && pref_function@.len() == weight@.len()
                    && q@.len() == weight@.len() && p@.len() == weight@.len();
                &&& (r is Ok <==> same && nonnegative(weight@))
                &&& (r matches Err(e) ==> (!same && e == MCDMRSError::DimensionMismatch)
                    || (same && e == MCDMRSError::OutOfRange))
            }),
            r matches Ok(c) ==> c.wf() && c.weight@ == weight@ && c.criteria_type@ == criteria_type@
                && c.pref_function@ == pref_function@ && c.q@ == q@ && c.p@ == p@,
    {
        let len = weight.len();
        if len != criteria_type.len() || len != pref_function.len() || len != q.len() || len != p.len() {
            return Err(MCDMRSError::DimensionMismatch);
        }
        if !all_nonnegative(&weight) {
            return Err(MCDMRSError::OutOfRange);
        }
        Ok(Criteria { weight, criteria_type, pref_function, q, p })
    }
}

/// Whether no entry is negative.
pub fn all_nonnegative(v: &Vec<i64>) -> (r: bool)
    ensures
        r == nonnegative(v@),
{
    let mut i: usize = 0;
    while i < v.len()
        invariant
            0 <= i <= v@.len(),
            forall|k: int| 0 <= k < i ==> 0 <= #[trigger] v@[k],
        decreases v@.len() - i,
    {
        if v[i] < 0 {
            return false;
        }
        i = i + 1;
    }
    true
}

/// A row of values turned so that larger is better: negated when the
/// criterion is minimized.
pub open spec fn orient_row(row: Seq<i64>, direction: i64) -> Seq<i64> {
    if direction < 0 {
        row.map_values(|x: i64| (-x) as i64)
    } else {
        row
    }
}

/// Every row of the matrix turned by its criterion's direction.
pub open spec fn oriented(matrix: Seq<Seq<i64>>, direction: Seq<i64>) -> Seq<Seq<i64>> {
    Seq::new(matrix.len(), |k: int| orient_row(matrix[k], direction[k]))
}

/// Turns each row so that larger is better: rows whose direction is
/// negative are negated.
pub fn orient(matrix_t: &Vec<Vec<i64>>, criteria_type: &Vec<i64>) -> (r: Vec<Vec<i64>>)
    requires
        matrix_t@.len() == criteria_type@.len(),
        matrix_in_range(mat_view(matrix_t@)),
    ensures
        mat_view(r@) == oriented(mat_view(matrix_t@), criteria_type@),
        matrix_in_range(mat_view(r@)),
{
    let ghost mv = mat_view(matrix_t@);
    let m = matrix_t.len();
    let mut out: Vec<Vec<i64>> = Vec::new();
    let mut k: usize = 0;
    while k < m
        invariant
            m == matrix_t@.len(),
            m == criteria_type@.len(),
            mv == mat_view(matrix_t@),
            matrix_in_range(mv),
            0 <= k <= m,
            out@.len() == k,
            forall|i: int| 0 <= i < k ==> (#[trigger] out@[i])@ == orient_row(mv[i], criteria_type@[i]),
        decreases m - k,
    {
        let row = &matrix_t[k];
        assert(row@ == mv[k as int]);
        let neg = criteria_type[k] < 0;
        let mut turned: Vec<i64> = Vec::new();
        let mut a: usize = 0;
        while a < row.len()
            invariant
                row@ == mv[k as int],
                k < m,
                mv.len() == m,
                matrix_in_range(mv),
                neg == (criteria_type@[k as int] < 0),
                0 <= a <= row@.len(),
                turned@.len() == a,
                forall|j: int| 0 <= j < a ==> #[trigger] turned@[j] == if neg { -row@[j] } else { row@[j] as int },
            decreases row@.len() - a,
        {
            let x = row[a];
            assert(-VALUE_LIMIT <= x <= VALUE_LIMIT);
            if neg {
                turned.push(-x);
            } else {
                turned.push(x);
            }
            a = a + 1;
        }
        assert(turned@ =~= orient_row(mv[k as int], criteria_type@[k as int]));
        out.push(turned);
        k = k + 1;
    }
    proof {
        assert(mat_view(out@) =~= oriented(mv, criteria_type@));
        assert forall|i: int| 0 <= i < m implies crate::unicriterion_flow::values_in_range(#[trigger] mat_view(out@)[i]) by {
            assert(crate::unicriterion_flow::values_in_range(mv[i]));
            assert(mat_view(out@)[i] == orient_row(mv[i], criteria_type@[i]));
        }
    }
    out
}

/// The results of PROMETHEE I. The matrices have one row per alternative
/// and one column per criterion.
#[derive(Clone, Debug)]
pub struct PromResultI {
    pub phi_plus_score: Vec<i64>,
    pub phi_minus_score: Vec<i64>,
    pub phi_plus_matrix: Vec<Vec<i64>>,
    pub phi_minus_matrix: Vec<Vec<i64>>,
}

/// `phi` weights `pref` column by column: entry `[a][k]` is
/// `pref[k][a] * w[k] / ONE`, and `score[a]` sums row `a`.
pub open spec fn is_weighted_of(phi: Seq<Vec<i64>>, score: Seq<i64>, pref: Seq<Seq<i64>>, w: Seq<i64>) -> bool {
    let n = n_cols(pref);
    &&& phi.len() == n
    &&& score.len() == n
    &&& forall|a: int| 0 <= a < n ==> (#[trigger] phi[a])@.len() == pref.len()
    &&& forall|a: int, k: int| 0 <= a < n && 0 <= k < pref.len() ==> #[trigger] phi[a]@[k] == pref[k][a] * w[k] / (ONE as int)
    &&& forall|a: int| 0 <= a < n ==> #[trigger] score[a] == total(phi[a]@)
    &&& forall|a: int| 0 <= a < n ==> nonnegative((#[trigger] phi[a])@)
    &&& nonnegative(score)
}

/// `r` is the PROMETHEE I result of the flows `plus`, `minus` under the
/// weights `w`.
pub open spec fn is_prom_i_of(r: PromResultI, plus: Seq<Seq<i64>>, minus: Seq<Seq<i64>>, w: Seq<i64>) -> bool {
    &&& is_weighted_of(r.phi_plus_matrix@, r.phi_plus_score@, plus, w)
    &&& is_weighted_of(r.phi_minus_matrix@, r.phi_minus_score@, minus, w)
}

/// Flows as the multicriterion flow gives them: `m` rows of `n` entries,
/// each in `[0, 2 * ONE]`.
pub open spec fn flows_ok(pref: Seq<Seq<i64>>, m: int, n: int) -> bool {
    &&& pref.len() == m
    &&& is_rect(pref, n)
    &&& forall|k: int| 0 <= k < m ==> flow_bounded(#[trigger] pref[k])
}

/// Weights as normalization gives them: non-negative, summing to at most one.
pub open spec fn weights_ok(w: Seq<i64>) -> bool {
    nonnegative(w) && total(w) <= ONE
}

proof fn lemma_weighted_entry(x: int, w: int)
    requires
        0 <= x <= 2 * ONE,
        0 <= w,
    ensures
        0 <= x * w / (ONE as int) <= 2 * w,
{
    assert(x * w <= 2 * ONE * w) by (nonlinear_arith)
        requires x <= 2 * ONE, 0 <= w;
    assert(0 <= x * w) by (nonlinear_arith)
        requires 0 <= x, 0 <= w;
    assert(x * w / (ONE as int) <= (2 * ONE * w) / (ONE as int)) by (nonlinear_arith)
        requires 0 <= x * w <= 2 * ONE * w;
    assert((2 * ONE * w) / (ONE as int) == 2 * w) by (nonlinear_arith);
}

proof fn lemma_row_total_bound(row: Seq<i64>, w: Seq<i64>, j: int)
    requires
        row.len() == w.len(),
        0 <= j <= row.len(),
        forall|k: int| 0 <= k < row.len() ==> 0 <= #[trigger] row[k] <= 2 * w[k],
    ensures
        0 <= seq_sum(row, j) <= 2 * seq_sum(w, j),
    decreases j,
{
    if j > 0 {
        lemma_row_total_bound(row, w, j - 1);
    }
}

/// Weights the flows of one sign and sums them per alternative.
fn weigh(pref: &Vec<Vec<i64>>, weight: &Vec<i64>, n: usize) -> (r: (Vec<Vec<i64>>, Vec<i64>))
    requires
        pref@.len() == weight@.len(),
        pref@.len() > 0,
        flows_ok(mat_view(pref@), pref@.len() as int, n as int),
        weights_ok(weight@),
    ensures
        is_weighted_of(r.0@, r.1@, mat_view(pref@), weight@),
{
    let ghost pv = mat_view(pref@);
    let m = pref.len();
    proof {
        assert forall|k: int, a: int| 0 <= k < m && 0 <= a < pref@[k]@.len() implies
            0 <= #[trigger] pref@[k]@[a] * weight@[k] / (ONE as int) <= 2 * weight@[k] by {
            assert(pv[k] == pref@[k]@);
            assert(flow_bounded(pv[k]));
            lemma_entry_le_total(weight@, k, m as int);
            lemma_weighted_entry(pref@[k]@[a] as int, weight@[k] as int);
        }
        assert forall|k: int| 0 <= k < m implies nonnegative(#[trigger] pref@[k]@) by {
            assert(pv[k] == pref@[k]@);
            assert(flow_bounded(pv[k]));
        }
        assert forall|k: int| 0 <= k < m implies weight@[k] <= ONE by {
            lemma_entry_le_total(weight@, k, m as int);
        }
    }
    let scaled = mult_axis_0(pref, weight).unwrap();
    proof {
        assert(pv[0] == pref@[0]@);
        assert forall|k: int| 0 <= k < scaled@.len() implies (#[trigger] scaled@[k])@.len() >= scaled@[0]@.len() by {
            assert(pv[k] == pref@[k]@);
        }
    }
    let phi = transpose(scaled);
    proof {
        assert forall|a: int| 0 <= a < n implies crate::math::fits_i64(total(#[trigger] phi@[a]@)) && nonnegative(phi@[a]@)
            && 0 <= total(phi@[a]@) by {
            assert forall|k: int| 0 <= k < m implies 0 <= #[trigger] phi@[a]@[k] <= 2 * weight@[k] by {
                assert(pv[k] == pref@[k]@);
                assert(phi@[a]@[k] == scaled@[k]@[a]);
            }
            lemma_row_total_bound(phi@[a]@, weight@, m as int);
        }
    }
    let score = sum_axis_0(&phi);
    proof {
        assert forall|a: int, k: int| 0 <= a < n && 0 <= k < m implies #[trigger] phi@[a]@[k] == pv[k][a] * weight@[k] / (ONE as int) by {
            assert(pv[k] == pref@[k]@);
            assert(phi@[a]@[k] == scaled@[k]@[a]);
        }
    }
    (phi, score)
}

/// PROMETHEE I: weights the flows of each criterion and sums them per
/// alternative. The weights are taken as given (normalized by the caller);
/// fails when there is not one weight per criterion.
pub fn prom_i(
    pref_matrix_plus_t: &Vec<Vec<i64>>,
    pref_matrix_minus_t: &Vec<Vec<i64>>,
    weight: &Vec<i64>,
) -> (r: Result<PromResultI, MCDMRSError>)
    requires
        flows_ok(mat_view(pref_matrix_plus_t@), pref_matrix_plus_t@.len() as int, n_cols(mat_view(pref_matrix_plus_t@))),
        flows_ok(mat_view(pref_matrix_minus_t@), pref_matrix_plus_t@.len() as int, n_cols(mat_view(pref_matrix_plus_t@))),
        weights_ok(weight@),
    ensures
        r is Ok <==> weight@.len() == pref_matrix_plus_t@.len(),
        r matches Err(e) ==> e == MCDMRSError::DimensionMismatch,
        r matches Ok(res) ==> is_prom_i_of(res, mat_view(pref_matrix_plus_t@), mat_view(pref_matrix_minus_t@), weight@),
{
    let m = pref_matrix_plus_t.len();
    if weight.len() != m {
        return Err(MCDMRSError::DimensionMismatch);
    }
    if m == 0 {
        let r = PromResultI {
            phi_plus_score: Vec::new(),
            phi_minus_score: Vec::new(),
            phi_plus_matrix: Vec::new(),
            phi_minus_matrix: Vec::new(),
        };
        assert(r.phi_plus_score@.len() == 0 && r.phi_plus_matrix@.len() == 0);
        return Ok(r);
    }
    let n = pref_matrix_plus_t[0].len();
    proof {
        assert(mat_view(pref_matrix_plus_t@)[0] == pref_matrix_plus_t@[0]@);
        assert(mat_view(pref_matrix_minus_t@)[0] == pref_matrix_minus_t@[0]@);
    }
    let (phi_plus_matrix, phi_plus_score) = weigh(pref_matrix_plus_t, weight, n);
    let (phi_minus_matrix, phi_minus_score) = weigh(pref_matrix_minus_t, weight, n);
    Ok(PromResultI { phi_plus_score, phi_minus_score, phi_plus_matrix, phi_minus_matrix })
}

impl PromResultI {
    /// PROMETHEE I of the given flows and (normalized) weights.
    pub fn new(
        pref_matrix_plus_t: &Vec<Vec<i64>>,
        pref_matrix_minus_t: &Vec<Vec<i64>>,
        weight: &Vec<i64>,
    ) -> (r: Result<Self, MCDMRSError>)
        requires
            flows_ok(mat_view(pref_matrix_plus_t@), pref_matrix_plus_t@.len() as int, n_cols(mat_view(pref_matrix_plus_t@))),
            flows_ok(mat_view(pref_matrix_minus_t@), pref_matrix_plus_t@.len() as int, n_cols(mat_view(pref_matrix_plus_t@))),
            weights_ok(weight@),
        ensures
            r is Ok <==> weight@.len() == pref_matrix_plus_t@.len(),
            r matches Err(e) ==> e == MCDMRSError::DimensionMismatch,
            r matches Ok(res) ==> is_prom_i_of(res, mat_view(pref_matrix_plus_t@), mat_view(pref_matrix_minus_t@), weight@),
    {
        prom_i(pref_matrix_plus_t, pref_matrix_minus_t, weight)
    }
}

/// The results of PROMETHEE II: the net flow of each alternative, its
/// min-max rescaling, and the net flow of each alternative on each
/// criterion.
#[derive(Clone, Debug)]
pub struct PromResultII {
    pub score: Vec<i64>,
    pub normalized_score: Vec<i64>,
    pub weighted_flow: Vec<Vec<i64>>,
}

/// `d` is the entry-wise difference `a - b`, over the shorter of the two.
pub open spec fn is_diff_of(d: Seq<i64>, a: Seq<i64>, b: Seq<i64>) -> bool {
    &&& d.len() == min(a.len() as int, b.len() as int)
    &&& forall|i: int| 0 <= i < d.len() ==> #[trigger] d[i] == a[i] - b[i]
}

/// The values that PROMETHEE II reads are non-negative, as PROMETHEE I
/// leaves them.
pub open spec fn prom_i_nonnegative(p: PromResultI) -> bool {
    &&& nonnegative(p.phi_plus_score@)
    &&& nonnegative(p.phi_minus_score@)
    &&& forall|a: int| 0 <= a < p.phi_plus_matrix@.len() ==> nonnegative(#[trigger] p.phi_plus_matrix@[a]@)
    &&& forall|a: int| 0 <= a < p.phi_minus_matrix@.len() ==> nonnegative(#[trigger] p.phi_minus_matrix@[a]@)
}

/// `r` is the PROMETHEE II result of `p`.
pub open spec fn is_prom_ii_of(r: PromResultII, p: PromResultI) -> bool {
    &&& is_diff_of(r.score@, p.phi_plus_score@, p.phi_minus_score@)
    &&& r.normalized_score@.len() == r.score@.len()
    &&& forall|a: int| 0 <= a < r.score@.len() ==> #[trigger] r.normalized_score@[a] == min_max_spec(r.score@, a)
    &&& forall|a: int| 0 <= a < r.score@.len() ==> 0 <= #[trigger] r.normalized_score@[a] <= ONE
    &&& r.weighted_flow@.len() == min(p.phi_plus_matrix@.len() as int, p.phi_minus_matrix@.len() as int)
    &&& forall|a: int| 0 <= a < r.weighted_flow@.len() ==> is_diff_of(
        (#[trigger] r.weighted_flow@[a])@,
        p.phi_plus_matrix@[a]@,
        p.phi_minus_matrix@[a]@,
    )
}

/// PROMETHEE II: the net flow `phi+ - phi-` of each alternative, its
/// min-max rescaling to `[0, ONE]`, and the per-criterion net flows.
pub fn prom_ii(p: &PromResultI) -> (r: Result<PromResultII, MCDMRSError>)
    requires
        prom_i_nonnegative(*p),
    ensures
        r matches Ok(res) && is_prom_ii_of(res, *p),
{
    let score = diff(&p.phi_plus_score, &p.phi_minus_score);
    let normalized_score = min_max_norm(&score);
    let n = if p.phi_plus_matrix.len() < p.phi_minus_matrix.len() {
        p.phi_plus_matrix.len()
    } else {
        p.phi_minus_matrix.len()
    };
    let mut weighted_flow: Vec<Vec<i64>> = Vec::new();
    let mut a: usize = 0;
    while a < n
        invariant
            n == min(p.phi_plus_matrix@.len() as int, p.phi_minus_matrix@.len() as int),
            prom_i_nonnegative(*p),
            0 <= a <= n,
            weighted_flow@.len() == a,
            forall|i: int| 0 <= i < a ==> is_diff_of(
                (#[trigger] weighted_flow@[i])@,
                p.phi_plus_matrix@[i]@,
                p.phi_minus_matrix@[i]@,
            ),
        decreases n - a,
    {
        assert(nonnegative(p.phi_plus_matrix@[a as int]@) && nonnegative(p.phi_minus_matrix@[a as int]@));
        let row = diff(&p.phi_plus_matrix[a], &p.phi_minus_matrix[a]);
        weighted_flow.push(row);
        a = a + 1;
    }
    Ok(PromResultII { score, normalized_score, weighted_flow })
}

impl PromResultII {
    /// PROMETHEE II of a PROMETHEE I result.
    pub fn new(p: &PromResultI) -> (r: Result<Self, MCDMRSError>)
        requires
            prom_i_nonnegative(*p),
        ensures
            r matches Ok(res) && is_prom_ii_of(res, *p),
    {
        prom_ii(p)
    }
}

/// A PROMETHEE analysis: the criterion-major matrix (one row per
/// criterion, one column per alternative), its criteria, and the cached
/// results of each stage.
#[derive(Clone, Debug)]
pub struct Prom {
    pub matrix_t: Vec<Vec<i64>>,
    pub criteria: Criteria,
    pub mc_flow: Option<MCFlowResult>,
    pub prom_i: Option<PromResultI>,
    pub prom_ii: Option<PromResultII>,
}

/// Whether every row has as many entries as the first.
pub fn is_rectangular(matrix: &Vec<Vec<i64>>) -> (r: bool)
    ensures
        r == is_rect(mat_view(matrix@), n_cols(mat_view(matrix@))),
{
    let m = matrix.len();
    if m == 0 {
        return true;
    }
    let n = matrix[0].len();
    assert(mat_view(matrix@)[0] == matrix@[0]@);
    let mut k: usize = 0;
    while k < m
        invariant
            m == matrix@.len(),
            m > 0,
            n == n_cols(mat_view(matrix@)),
            0 <= k <= m,
            forall|j: int| 0 <= j < k ==> (#[trigger] mat_view(matrix@)[j]).len() == n,
        decreases m - k,
    {
        assert(mat_view(matrix@)[k as int] == matrix@[k as int]@);
        if matrix[k].len() != n {
            return false;
        }
        k = k + 1;
    }
    true
}

/// Whether every value lies within [`VALUE_LIMIT`].
pub fn all_in_range(matrix: &Vec<Vec<i64>>) -> (r: bool)
    ensures
        r == matrix_in_range(mat_view(matrix@)),
{
    let m = matrix.len();
    let mut k: usize = 0;
    while k < m
        invariant
            m == matrix@.len(),
            0 <= k <= m,
            forall|j: int| 0 <= j < k ==> crate::unicriterion_flow::values_in_range(#[trigger] mat_view(matrix@)[j]),
        decreases m - k,
    {
        let row = &matrix[k];
        assert(mat_view(matrix@)[k as int] == row@);
        let mut a: usize = 0;
        while a < row.len()
            invariant
                m == matrix@.len(),
                k < m,
                row@ == mat_view(matrix@)[k as int],
                0 <= a <= row@.len(),
                forall|j: int| 0 <= j < a ==> crate::types::in_value_range(#[trigger] row@[j] as int),
            decreases row@.len() - a,
        {
            if row[a] < -VALUE_LIMIT || row[a] > VALUE_LIMIT {
                assert(!crate::unicriterion_flow::values_in_range(mat_view(matrix@)[k as int]));
                return false;
            }
            a = a + 1;
        }
        k = k + 1;
    }
    true
}

impl Prom {
    /// The number of alternatives.
    pub open spec fn n_alternatives(&self) -> int {
        n_cols(mat_view(self.matrix_t@))
    }

    /// The matrix with every criterion turned so that larger is better.
    pub open spec fn oriented_matrix(&self) -> Seq<Seq<i64>> {
        oriented(mat_view(self.matrix_t@), self.criteria.criteria_type@)
    }

    /// Every criterion names a known shape whose flow is defined.
    pub open spec fn flow_ok(&self) -> bool {
        all_rows_ok(self.oriented_matrix(), self.criteria.pref_function@, self.criteria.q@, self.criteria.p@)
    }

    /// `e` is the error that computing the flows reports.
    pub open spec fn flow_error(&self, e: MCDMRSError) -> bool {
        first_row_error(self.oriented_matrix(), self.criteria.pref_function@, self.criteria.q@, self.criteria.p@, e)
    }

    /// The matrix and criteria agree and lie within range.
    pub open spec fn inputs_ok(&self) -> bool {
        &&& self.criteria.wf()
        &&& self.matrix_t@.len() == self.criteria.len()
        &&& is_rect(mat_view(self.matrix_t@), self.n_alternatives())
        &&& matrix_in_range(mat_view(self.matrix_t@))
    }

    /// Each cached stage holds exactly what it computes from the current
    /// matrix and criteria, and depends on the stage before it.
    pub open spec fn wf(&self) -> bool {
        &&& self.inputs_ok()
        &&& (self.mc_flow matches Some(f) ==> is_mc_flow_of(
            f,
            self.oriented_matrix(),
            self.criteria.pref_function@,
            self.criteria.q@,
            self.criteria.p@,
        ) && self.flow_ok())
        &&& (self.prom_i matches Some(pi) ==> self.mc_flow matches Some(f) && is_prom_i_of(
            pi,
            mat_view(f.pref_matrix_plus_t@),
            mat_view(f.pref_matrix_minus_t@),
            normalized(self.criteria.weight@),
        ))
        &&& (self.prom_ii matches Some(pii) ==> self.prom_i matches Some(pi) && is_prom_ii_of(pii, pi))
    }

    /// An analysis with nothing computed yet, when the matrix has one row
    /// per criterion, is rectangular and the criteria arrays agree (else
    /// `DimensionMismatch`), and when no weight is negative and every value
    /// lies within [`VALUE_LIMIT`] (else `OutOfRange`).
    pub fn new(matrix_t: Vec<Vec<i64>>, criteria: Criteria) -> (r: Result<Prom, MCDMRSError>)
        ensures
            ({
                let dims = criteria.lengths_agree() && matrix_t@.len() == criteria.len()
                    && is_rect(mat_view(matrix_t@), n_cols(mat_view(matrix_t@)));
                let ranges = nonnegative(criteria.weight@) && matrix_in_range(mat_view(matrix_t@));
                &&& (r is Ok <==> dims && ranges)
                &&& (r matches Err(e) ==> (!dims && e == MCDMRSError::DimensionMismatch)
                    || (dims && e == MCDMRSError::OutOfRange))
            }),
            r matches Ok(p) ==> p.wf() && p.matrix_t@ == matrix_t@ && p.criteria == criteria
                && p.mc_flow is None && p.prom_i is None && p.prom_ii is None,
    {
        let m = matrix_t.len();
        let c = &criteria;
        if m != c.weight.len() || m != c.criteria_type.len() || m != c.pref_function.len() || m != c.q.len()
            || m != c.p.len() || !is_rectangular(&matrix_t) {
            return Err(MCDMRSError::DimensionMismatch);
        }
        if !all_nonnegative(&criteria.weight) || !all_in_range(&matrix_t) {
            return Err(MCDMRSError::OutOfRange);
        }
        Ok(Prom { matrix_t, criteria, mc_flow: None, prom_i: None, prom_ii: None })
    }

    proof fn lemma_oriented_dims(&self)
        requires
            self.inputs_ok(),
        ensures
            crate::multicriterion_flow::dims_ok(
                self.oriented_matrix(),
                self.criteria.pref_function@,
                self.criteria.q@,
                self.criteria.p@,
            ),
            n_cols(self.oriented_matrix()) == self.n_alternatives(),
    {
        let mv = mat_view(self.matrix_t@);
        let o = self.oriented_matrix();
        assert forall|k: int| 0 <= k < o.len() implies (#[trigger] o[k]).len() == self.n_alternatives() by {
            assert(o[k] == orient_row(mv[k], self.criteria.criteria_type@[k]));
            assert(mv[k].len() == self.n_alternatives());
        }
        if o.len() > 0 {
            assert(o[0] == orient_row(mv[0], self.criteria.criteria_type@[0]));
        }
    }

    /// Computes the flows of every criterion from the current matrix and
    /// criteria, replacing any cached flows; the later stages are cleared.
    pub fn compute_multicriterion_flow(&mut self) -> (r: Result<(), MCDMRSError>)
        requires
            old(self).wf(),
        ensures
            final(self).wf(),
            final(self).matrix_t == old(self).matrix_t,
            final(self).criteria == old(self).criteria,
            r is Ok <==> old(self).flow_ok(),
            r is Ok ==> final(self).mc_flow is Some && final(self).prom_i is None && final(self).prom_ii is None,
            r matches Err(e) ==> *final(self) == *old(self) && old(self).flow_error(e),
    {
        proof {
            self.lemma_oriented_dims();
        }
        let mat = orient(&self.matrix_t, &self.criteria.criteria_type);
        let f = multicriterion_flow(&mat, &self.criteria.pref_function, &self.criteria.q, &self.criteria.p)?;
        self.mc_flow = Some(f);
        self.prom_i = None;
        self.prom_ii = None;
        Ok(())
    }

    /// Computes PROMETHEE I from the cached flows under the normalized
    /// weights, first computing the flows when none are cached; PROMETHEE
    /// II is cleared.
    pub fn compute_prom_i(&mut self) -> (r: Result<(), MCDMRSError>)
        requires
            old(self).wf(),
        ensures
            final(self).wf(),
            final(self).matrix_t == old(self).matrix_t,
            final(self).criteria == old(self).criteria,
            old(self).mc_flow is Some ==> final(self).mc_flow == old(self).mc_flow,
            r is Ok <==> old(self).flow_ok(),
            r is Ok ==> final(self).mc_flow is Some && final(self).prom_i is Some && final(self).prom_ii is None,
            r matches Err(e) ==> *final(self) == *old(self) && old(self).flow_error(e),
    {
        if self.mc_flow.is_none() {
            self.compute_multicriterion_flow()?;
        }
        let nw = normalize_vec(&self.criteria.weight);
        if let Some(f) = &self.mc_flow {
            proof {
                self.lemma_flow_shape(*f);
            }
            let pi = prom_i(&f.pref_matrix_plus_t, &f.pref_matrix_minus_t, &nw).unwrap();
            self.prom_i = Some(pi);
            self.prom_ii = None;
        }
        Ok(())
    }

    proof fn lemma_flow_shape(&self, f: MCFlowResult)
        requires
            self.wf(),
            self.mc_flow == Some(f),
        ensures
            flows_ok(mat_view(f.pref_matrix_plus_t@), self.criteria.len(), n_cols(mat_view(f.pref_matrix_plus_t@))),
            flows_ok(mat_view(f.pref_matrix_minus_t@), self.criteria.len(), n_cols(mat_view(f.pref_matrix_plus_t@))),
    {
        self.lemma_oriented_dims();
        let o = self.oriented_matrix();
        let pv = mat_view(f.pref_matrix_plus_t@);
        let mv = mat_view(f.pref_matrix_minus_t@);
        let n = self.n_alternatives();
        assert forall|k: int| 0 <= k < o.len() implies (#[trigger] pv[k]).len() == n && flow_bounded(pv[k]) by {
            assert(pv[k] == f.pref_matrix_plus_t@[k]@);
            assert(o[k].len() == n);
        }
        assert forall|k: int| 0 <= k < o.len() implies (#[trigger] mv[k]).len() == n && flow_bounded(mv[k]) by {
            assert(mv[k] == f.pref_matrix_minus_t@[k]@);
            assert(pv[k] == f.pref_matrix_plus_t@[k]@);
            assert(o[k].len() == n);
        }
        if o.len() > 0 {
            assert(pv[0].len() == n);
        }
        assert(mv.len() == o.len() && pv.len() == o.len());
    }

    /// Computes PROMETHEE II from the cached PROMETHEE I, first computing
    /// what is missing of the earlier stages.
    pub fn compute_prom_ii(&mut self) -> (r: Result<(), MCDMRSError>)
        requires
            old(self).wf(),
        ensures
            final(self).wf(),
            final(self).matrix_t == old(self).matrix_t,
            final(self).criteria == old(self).criteria,
            old(self).mc_flow is Some ==> final(self).mc_flow == old(self).mc_flow,
            r is Ok <==> old(self).flow_ok(),
            r is Ok ==> final(self).mc_flow is Some && final(self).prom_i is Some && final(self).prom_ii is Some,
            r matches Err(e) ==> *final(self) == *old(self) && old(self).flow_error(e),
    {
        if self.mc_flow.is_none() || self.prom_i.is_none() {
            self.compute_prom_i()?;
        }
        if let Some(pi) = &self.prom_i {
            let pii = prom_ii(pi).unwrap();
            self.prom_ii = Some(pii);
        }
        Ok(())
    }

    /// Replaces the weights and recomputes through PROMETHEE II, keeping
    /// the cached flows, which do not depend on the weights.
    pub fn re_weight(&mut self, weight: &Vec<i64>) -> (r: Result<(), MCDMRSError>)
        requires
            old(self).wf(),
        ensures
            final(self).wf(),
            re_weighted(*old(self), *final(self), weight@, r),
    {
        re_weight(self, weight)
    }

    /// The net flow of each alternative, or zeros while PROMETHEE II has
    /// not been computed.
    pub fn get_score(&self) -> (r: Vec<i64>)
        requires
            self.wf(),
        ensures
            self.prom_ii matches Some(pii) ==> r@ == pii.score@,
            self.prom_ii is None ==> r@ == Seq::new(self.n_alternatives() as nat, |i: int| 0i64),
    {
        match &self.prom_ii {
            Some(pii) => pii.score.clone(),
            None => {
                let n = if self.matrix_t.len() == 0 { 0 } else { self.matrix_t[0].len() };
                assert(self.matrix_t@.len() > 0 ==> mat_view(self.matrix_t@)[0] == self.matrix_t@[0]@);
                let mut r: Vec<i64> = Vec::new();
                let mut i: usize = 0;
                while i < n
                    invariant
                        0 <= i <= n,
                        r@ == Seq::new(i as nat, |j: int| 0i64),
                    decreases n - i,
                {
                    r.push(0);
                    i = i + 1;
                    assert(r@ =~= Seq::new(i as nat, |j: int| 0i64));
                }
                r
            },
        }
    }
}

/// What re-weighting promises: a length mismatch or a negative weight
/// leaves the analysis untouched; otherwise the weights are replaced, the
/// matrix, the other criteria and any cached flows are kept, and PROMETHEE
/// II is computed whenever the flows are defined.
pub open spec fn re_weighted(old_p: Prom, new_p: Prom, weight: Seq<i64>, r: Result<(), MCDMRSError>) -> bool {
    if weight.len() != old_p.criteria.len() {
        r == Err::<(), MCDMRSError>(MCDMRSError::DimensionMismatch) && new_p == old_p
    } else if !nonnegative(weight) {
        r == Err::<(), MCDMRSError>(MCDMRSError::OutOfRange) && new_p == old_p
    } else {
        &&& new_p.criteria.weight@ == weight
        &&& new_p.criteria.criteria_type == old_p.criteria.criteria_type
        &&& new_p.criteria.pref_function == old_p.criteria.pref_function
        &&& new_p.criteria.q == old_p.criteria.q
        &&& new_p.criteria.p == old_p.criteria.p
        &&& new_p.matrix_t == old_p.matrix_t
        &&& (old_p.mc_flow is Some ==> new_p.mc_flow == old_p.mc_flow)
        &&& (r is Ok <==> old_p.flow_ok())
        &&& (r is Ok ==> new_p.prom_ii is Some)
        &&& (r matches Err(e) ==> old_p.flow_error(e))
    }
}

/// Replaces the weights of `p` and recomputes through PROMETHEE II; the
/// cached flows are kept.
pub fn re_weight(p: &mut Prom, weight: &Vec<i64>) -> (r: Result<(), MCDMRSError>)
    requires
        old(p).wf(),
    ensures
        final(p).wf(),
        re_weighted(*old(p), *final(p), weight@, r),
{
    if weight.len() != p.criteria.weight.len() {
        return Err(MCDMRSError::DimensionMismatch);
    }
    if !all_nonnegative(weight) {
        return Err(MCDMRSError::OutOfRange);
    }
    p.criteria.weight = weight.clone();
    assert(p.criteria.weight@ =~= weight@);
    p.prom_i = None;
    p.prom_ii = None;
    p.compute_prom_ii()
}

} // verus!
