//! The PROMETHEE I outranking graph.
use vstd::prelude::*;
use crate::cmp::{close_spec, gt, gt_spec, gt_wide, lt, lt_spec};
use crate::error::MCDMRSError;

verus! {

/// Neither alternative beats the other on both flows at once.
pub open spec fn comparable_spec(ap: int, am: int, bp: int, bm: int) -> bool {
    !((gt_spec(ap, bp) && gt_spec(am, bm)) || (lt_spec(ap, bp) && lt_spec(am, bm)))
}

/// The net flow of `a` is greater than that of `b`, and not close to it.
pub open spec fn outranks_spec(ap: int, am: int, bp: int, bm: int) -> bool {
    gt_spec(ap - am, bp - bm)
}

/// The graph has an edge from `a` to `b`.
pub open spec fn has_link_spec(ap: int, am: int, bp: int, bm: int) -> bool {
    comparable_spec(ap, am, bp, bm) && outranks_spec(ap, am, bp, bm)
}

/// Whether `a` (flows `ap`, `am`) and `b` (flows `bp`, `bm`) are comparable.
pub fn comparable(ap: i64, am: i64, bp: i64, bm: i64) -> (r: bool)
    ensures
        r == comparable_spec(ap as int, am as int, bp as int, bm as int),
{
    !((gt(ap, bp) && gt(am, bm)) || (lt(ap, bp) && lt(am, bm)))
}

/// Whether the net flow of `a` exceeds that of `b`.
pub fn outranks(ap: i64, am: i64, bp: i64, bm: i64) -> (r: bool)
    ensures
        r == outranks_spec(ap as int, am as int, bp as int, bm as int),
{
    gt_wide(ap as i128 - am as i128, bp as i128 - bm as i128)
}

/// Whether the graph has an edge from `a` to `b`.
pub fn has_link_ab(ap: i64, am: i64, bp: i64, bm: i64) -> (r: bool)
    ensures
        r == has_link_spec(ap as int, am as int, bp as int, bm as int),
{
    if comparable(ap, am, bp, bm) {
        return outranks(ap, am, bp, bm);
    }
    false
}

/// The adjacency matrix of the outranking graph over the alternatives with
/// flows `phi_plus` and `phi_minus`; fails when the two lengths differ.
pub fn outranking_adjacency_matrix(phi_plus: &Vec<i64>, phi_minus: &Vec<i64>) -> (r: Result<Vec<Vec<bool>>, MCDMRSError>)
    ensures
        r is Ok <==> phi_plus@.len() == phi_minus@.len(),
        r matches Err(e) ==> e == MCDMRSError::DimensionMismatch,
        r matches Ok(adj) ==> {
            &&& adj@.len() == phi_plus@.len()
            &&& forall|i: int| 0 <= i < adj@.len() ==> (#[trigger] adj@[i])@.len() == phi_plus@.len()
            &&& forall|i: int, j: int| 0 <= i < adj@.len() && 0 <= j < adj@.len() ==> #[trigger] adj@[i]@[j]
                == has_link_spec(phi_plus@[i] as int, phi_minus@[i] as int, phi_plus@[j] as int, phi_minus@[j] as int)
        },
{
    let n = phi_plus.len();
    if n != phi_minus.len() {
        return Err(MCDMRSError::DimensionMismatch);
    }
    let mut adj: Vec<Vec<bool>> = Vec::new();
    let mut i: usize = 0;
    while i < n
        invariant
            n == phi_plus@.len(),
            n == phi_minus@.len(),
            0 <= i <= n,
            adj@.len() == i,
            forall|k: int| 0 <= k < i ==> (#[trigger] adj@[k])@.len() == n,
            forall|k: int, j: int| 0 <= k < i && 0 <= j < n ==> #[trigger] adj@[k]@[j]
                == has_link_spec(phi_plus@[k] as int, phi_minus@[k] as int, phi_plus@[j] as int, phi_minus@[j] as int),
        decreases n - i,
    {
        let mut row: Vec<bool> = Vec::new();
        let mut j: usize = 0;
        while j < n
            invariant
                n == phi_plus@.len(),
                n == phi_minus@.len(),
                i < n,
                0 <= j <= n,
                row@.len() == j,
                forall|l: int| 0 <= l < j ==> #[trigger] row@[l]
                    == has_link_spec(phi_plus@[i as int] as int, phi_minus@[i as int] as int, phi_plus@[l] as int, phi_minus@[l] as int),
            decreases n - j,
        {
            row.push(has_link_ab(phi_plus[i], phi_minus[i], phi_plus[j], phi_minus[j]));
            j = j + 1;
        }
        adj.push(row);
        i = i + 1;
    }
    Ok(adj)
}

/// Comparability is symmetric: `a` is comparable with `b` exactly when `b`
/// is comparable with `a`.
pub proof fn lemma_comparable_symmetric(ap: int, am: int, bp: int, bm: int)
    ensures
        comparable_spec(ap, am, bp, bm) == comparable_spec(bp, bm, ap, am),
{
    assert(close_spec(ap, bp) == close_spec(bp, ap));
    assert(close_spec(am, bm) == close_spec(bm, am));
}

} // verus!
