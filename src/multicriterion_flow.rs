//! Flows of every criterion of a matrix.
use vstd::prelude::*;
use crate::error::MCDMRSError;
use crate::pref_functions::pref_of_name;
use crate::unicriterion_flow::{flow_bounded, flow_defined, is_flow_of, unicriterion_flow, values_in_range};

verus! {

/// The positive and negative flows of each criterion (one row per
/// criterion, one column per alternative).
#[derive(Clone, Debug)]
pub struct MCFlowResult {
    pub pref_matrix_plus_t: Vec<Vec<i64>>,
    pub pref_matrix_minus_t: Vec<Vec<i64>>,
}

/// The rows of a matrix of vectors, as sequences.
pub open spec fn mat_view(matrix: Seq<Vec<i64>>) -> Seq<Seq<i64>> {
    matrix.map_values(|row: Vec<i64>| row@)
}

/// The number of alternatives of a criterion-major matrix.
pub open spec fn n_cols(matrix: Seq<Seq<i64>>) -> int {
    if matrix.len() == 0 { 0 } else { matrix[0].len() as int }
}

/// Every row has `n` entries.
pub open spec fn is_rect(matrix: Seq<Seq<i64>>, n: int) -> bool {
    forall|k: int| 0 <= k < matrix.len() ==> (#[trigger] matrix[k]).len() == n
}

/// Every value of the matrix lies within the representable range.
pub open spec fn matrix_in_range(matrix: Seq<Seq<i64>>) -> bool {
    forall|k: int| 0 <= k < matrix.len() ==> values_in_range(#[trigger] matrix[k])
}

/// The matrix is rectangular and the per-criterion arrays have one entry
/// per row.
pub open spec fn dims_ok(matrix: Seq<Seq<i64>>, names: Seq<String>, q: Seq<i64>, p: Seq<i64>) -> bool {
    &&& names.len() == matrix.len()
    &&& q.len() == matrix.len()
    &&& p.len() == matrix.len()
    &&& is_rect(matrix, n_cols(matrix))
}

/// Row `k` names a known shape whose flow is defined on it.
pub open spec fn row_ok(matrix: Seq<Seq<i64>>, names: Seq<String>, q: Seq<i64>, p: Seq<i64>, k: int) -> bool {
    match pref_of_name(names[k]@) {
        Some(f) => flow_defined(matrix[k].len() as int, f, q[k] as int, p[k] as int),
        None => false,
    }
}

/// The error that row `k` reports when it is not [`row_ok`].
pub open spec fn row_error(names: Seq<String>, k: int) -> MCDMRSError {
    if pref_of_name(names[k]@) is None {
        MCDMRSError::UnknownPreferenceFunction
    } else {
        MCDMRSError::DegenerateInput
    }
}

pub open spec fn all_rows_ok(matrix: Seq<Seq<i64>>, names: Seq<String>, q: Seq<i64>, p: Seq<i64>) -> bool {
    forall|k: int| 0 <= k < matrix.len() ==> row_ok(matrix, names, q, p, k)
}

/// `e` is the error of the first row that is not [`row_ok`].
pub open spec fn first_row_error(matrix: Seq<Seq<i64>>, names: Seq<String>, q: Seq<i64>, p: Seq<i64>, e: MCDMRSError) -> bool {
    exists|k: int| {
        &&& 0 <= k < matrix.len()
        &&& !row_ok(matrix, names, q, p, k)
        &&& (forall|j: int| 0 <= j < k ==> row_ok(matrix, names, q, p, j))
        &&& e == row_error(names, k)
    }
}

/// `res` holds, row by row, exactly the flows of each criterion.
pub open spec fn is_mc_flow_of(res: MCFlowResult, matrix: Seq<Seq<i64>>, names: Seq<String>, q: Seq<i64>, p: Seq<i64>) -> bool {
    &&& res.pref_matrix_plus_t@.len() == matrix.len()
    &&& res.pref_matrix_minus_t@.len() == matrix.len()
    &&& forall|k: int| 0 <= k < matrix.len() ==> is_flow_of(
        (#[trigger] res.pref_matrix_plus_t@[k])@,
        res.pref_matrix_minus_t@[k]@,
        matrix[k],
        pref_of_name(names[k]@).unwrap(),
        q[k] as int,
        p[k] as int,
    )
    &&& forall|k: int| 0 <= k < matrix.len() ==> flow_bounded((#[trigger] res.pref_matrix_plus_t@[k])@)
    &&& forall|k: int| 0 <= k < matrix.len() ==> flow_bounded((#[trigger] res.pref_matrix_minus_t@[k])@)
}

/// Runs the unicriterion flow on every row of an oriented matrix, with the
/// row's own shape and thresholds.
pub fn multicriterion_flow(
    matrix_t: &Vec<Vec<i64>>,
    pref_function: &Vec<String>,
    q: &Vec<i64>,
    p: &Vec<i64>,
) -> (r: Result<MCFlowResult, MCDMRSError>)
    requires
        matrix_in_range(mat_view(matrix_t@)),
    ensures
        r is Ok <==> dims_ok(mat_view(matrix_t@), pref_function@, q@, p@) && all_rows_ok(mat_view(matrix_t@), pref_function@, q@, p@),
        r matches Ok(res) ==> is_mc_flow_of(res, mat_view(matrix_t@), pref_function@, q@, p@),
        r matches Err(e) ==> {
            ||| !dims_ok(mat_view(matrix_t@), pref_function@, q@, p@) && e == MCDMRSError::DimensionMismatch
            ||| dims_ok(mat_view(matrix_t@), pref_function@, q@, p@) && first_row_error(mat_view(matrix_t@), pref_function@, q@, p@, e)
        },
{
    let m = matrix_t.len();
    if m != pref_function.len() || m != q.len() || m != p.len() {
        return Err(MCDMRSError::DimensionMismatch);
    }
    let n = if m == 0 { 0 } else { matrix_t[0].len() };
    let mut k: usize = 0;
    while k < m
        invariant
            m == matrix_t@.len(),
            n == n_cols(mat_view(matrix_t@)),
            0 <= k <= m,
            forall|j: int| 0 <= j < k ==> (#[trigger] mat_view(matrix_t@)[j]).len() == n,
        decreases m - k,
    {
        assert(mat_view(matrix_t@)[k as int] == matrix_t@[k as int]@);
        if matrix_t[k].len() != n {
            assert(!is_rect(mat_view(matrix_t@), n as int));
            return Err(MCDMRSError::DimensionMismatch);
        }
        k = k + 1;
    }
    let mut plus: Vec<Vec<i64>> = Vec::new();
    let mut minus: Vec<Vec<i64>> = Vec::new();
    let mut k: usize = 0;
    while k < m
        invariant
            m == matrix_t@.len(),
            dims_ok(mat_view(matrix_t@), pref_function@, q@, p@),
            matrix_in_range(mat_view(matrix_t@)),
            0 <= k <= m,
            plus@.len() == k,
            minus@.len() == k,
            forall|j: int| 0 <= j < k ==> row_ok(mat_view(matrix_t@), pref_function@, q@, p@, j),
            forall|j: int| 0 <= j < k ==> is_flow_of(
                (#[trigger] plus@[j])@,
                minus@[j]@,
                mat_view(matrix_t@)[j],
                pref_of_name(pref_function@[j]@).unwrap(),
                q@[j] as int,
                p@[j] as int,
            ),
            forall|j: int| 0 <= j < k ==> flow_bounded((#[trigger] plus@[j])@),
            forall|j: int| 0 <= j < k ==> flow_bounded((#[trigger] minus@[j])@),
        decreases m - k,
    {
        assert(values_in_range(mat_view(matrix_t@)[k as int]));
        let res = unicriterion_flow(&matrix_t[k], pref_function[k].as_str(), q[k], p[k]);
        match res {
            Ok((pl, mi)) => {
                plus.push(pl);
                minus.push(mi);
            },
            Err(e) => {
                assert(!row_ok(mat_view(matrix_t@), pref_function@, q@, p@, k as int));
                assert(e == row_error(pref_function@, k as int));
                assert(first_row_error(mat_view(matrix_t@), pref_function@, q@, p@, e));
                return Err(e);
            },
        }
        k = k + 1;
    }
    Ok(MCFlowResult { pref_matrix_plus_t: plus, pref_matrix_minus_t: minus })
}

impl MCFlowResult {
    /// The flows of every criterion of an oriented matrix.
    pub fn new(
        matrix_t: &Vec<Vec<i64>>,
        pref_function: &Vec<String>,
        q: &Vec<i64>,
        p: &Vec<i64>,
    ) -> (r: Result<MCFlowResult, MCDMRSError>)
        requires
            matrix_in_range(mat_view(matrix_t@)),
        ensures
            r is Ok <==> dims_ok(mat_view(matrix_t@), pref_function@, q@, p@) && all_rows_ok(mat_view(matrix_t@), pref_function@, q@, p@),
            r matches Ok(res) ==> is_mc_flow_of(res, mat_view(matrix_t@), pref_function@, q@, p@),
            r matches Err(e) ==> {
                ||| !dims_ok(mat_view(matrix_t@), pref_function@, q@, p@) && e == MCDMRSError::DimensionMismatch
                ||| dims_ok(mat_view(matrix_t@), pref_function@, q@, p@) && first_row_error(mat_view(matrix_t@), pref_function@, q@, p@, e)
            },
    {
        multicriterion_flow(matrix_t, pref_function, q, p)
    }
}

} // verus!
