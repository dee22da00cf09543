//! Vector and matrix helpers on fixed-point values.
use vstd::prelude::*;
use crate::error::MCDMRSError;
use crate::types::{max, min, ONE};

verus! {

/// A sum of weights at or below this (`1e-5`) is treated as zero.
pub const NORM_EPS: i64 = 10_000;

/// A score range at or below this (`1e-7`) is treated as zero.
pub const ZERO_RANGE: i64 = 100;

/// The sum of the first `k` entries.
pub open spec fn seq_sum(s: Seq<i64>, k: int) -> int
    decreases k,
{
    if k <= 0 {
        0
    } else {
        seq_sum(s, k - 1) + s[k - 1]
    }
}

/// The sum of all entries.
pub open spec fn total(s: Seq<i64>) -> int {
    seq_sum(s, s.len() as int)
}

/// The largest of the first `k` entries (0 for none).
pub open spec fn seq_max(s: Seq<i64>, k: int) -> int
    decreases k,
{
    if k <= 0 {
        0
    } else if k == 1 {
        s[0] as int
    } else {
        max(seq_max(s, k - 1), s[k - 1] as int)
    }
}

/// The smallest of the first `k` entries (0 for none).
pub open spec fn seq_min(s: Seq<i64>, k: int) -> int
    decreases k,
{
    if k <= 0 {
        0
    } else if k == 1 {
        s[0] as int
    } else {
        min(seq_min(s, k - 1), s[k - 1] as int)
    }
}

pub open spec fn nonnegative(s: Seq<i64>) -> bool {
    forall|k: int| 0 <= k < s.len() ==> 0 <= #[trigger] s[k]
}

pub open spec fn fits_i64(x: int) -> bool {
    i64::MIN <= x <= i64::MAX
}

/// Every row of `v` has `n` entries.
pub open spec fn rows_have_len<T>(v: Seq<Vec<T>>, n: int) -> bool {
    forall|k: int| 0 <= k < v.len() ==> (#[trigger] v[k])@.len() == n
}

pub(crate) proof fn lemma_entry_le_total(s: Seq<i64>, k: int, j: int)
    requires
        nonnegative(s),
        0 <= k < j <= s.len(),
    ensures
        s[k] <= seq_sum(s, j),
        0 <= seq_sum(s, j),
    decreases j,
{
    lemma_sum_nonnegative(s, j - 1);
    if k < j - 1 {
        lemma_entry_le_total(s, k, j - 1);
    }
}

pub(crate) proof fn lemma_sum_nonnegative(s: Seq<i64>, j: int)
    requires
        nonnegative(s),
        0 <= j <= s.len(),
    ensures
        0 <= seq_sum(s, j),
    decreases j,
{
    if j > 0 {
        lemma_sum_nonnegative(s, j - 1);
    }
}

/// The extremes bound every entry.
pub proof fn lemma_min_max_bounds(s: Seq<i64>, k: int, j: int)
    requires
        0 <= k < j <= s.len(),
    ensures
        seq_min(s, j) <= s[k] <= seq_max(s, j),
    decreases j,
{
    if k < j - 1 {
        lemma_min_max_bounds(s, k, j - 1);
    }
}

/// Rows become columns: entry `[c][r]` of the result is entry `[r][c]` of
/// `v`, for the columns of the first row.
pub fn transpose<T>(v: Vec<Vec<T>>) -> (r: Vec<Vec<T>>)
    requires
        v@.len() > 0,
        forall|k: int| 0 <= k < v@.len() ==> (#[trigger] v@[k])@.len() >= v@[0]@.len(),
    ensures
        r@.len() == v@[0]@.len(),
        rows_have_len(r@, v@.len() as int),
        forall|c: int, k: int| 0 <= c < r@.len() && 0 <= k < v@.len() ==> (#[trigger] r@[c]@[k]) == v@[k]@[c],
{
    let ghost v0 = v@;
    let m = v.len();
    let len = v[0].len();
    let mut out: Vec<Vec<T>> = Vec::new();
    let mut c: usize = 0;
    while c < len
        invariant
            0 <= c <= len,
            out@.len() == c,
            rows_have_len(out@, 0),
        decreases len - c,
    {
        out.push(Vec::new());
        c = c + 1;
    }
    let mut rows = v;
    let mut k: usize = 0;
    while k < m
        invariant
            m == v0.len(),
            len == v0[0]@.len(),
            forall|i: int| 0 <= i < m ==> (#[trigger] v0[i])@.len() >= len,
            0 <= k <= m,
            rows@ == v0.subrange(k as int, m as int),
            out@.len() == len,
            rows_have_len(out@, k as int),
            forall|c2: int, i: int| 0 <= c2 < len && 0 <= i < k ==> (#[trigger] out@[c2]@[i]) == v0[i]@[c2],
        decreases m - k,
    {
        let mut row = rows.remove(0);
        assert(row@ == v0[k as int]@);
        row.truncate(len);
        let mut c: usize = len;
        while c > 0
            invariant
                m == v0.len(),
                k < m,
                len == v0[0]@.len(),
                v0[k as int]@.len() >= len,
                0 <= c <= len,
                row@ == v0[k as int]@.subrange(0, c as int),
                out@.len() == len,
                forall|c2: int| 0 <= c2 < c ==> (#[trigger] out@[c2])@.len() == k,
                forall|c2: int| c <= c2 < len ==> (#[trigger] out@[c2])@.len() == k + 1,
                forall|c2: int, i: int| 0 <= c2 < len && 0 <= i < k ==> (#[trigger] out@[c2]@[i]) == v0[i]@[c2],
                forall|c2: int| c <= c2 < len ==> (#[trigger] out@[c2])@[k as int] == v0[k as int]@[c2],
            decreases c,
        {
            let x = row.pop().unwrap();
            c = c - 1;
            out[c].push(x);
        }
        k = k + 1;
    }
    out
}

/// Entry-wise `a[i] - b[i]`, over the shorter of the two.
pub fn diff(vec_a: &Vec<i64>, vec_b: &Vec<i64>) -> (r: Vec<i64>)
    requires
        forall|i: int| 0 <= i < vec_a@.len() && 0 <= i < vec_b@.len() ==> fits_i64(vec_a@[i] - vec_b@[i]),
    ensures
        r@.len() == min(vec_a@.len() as int, vec_b@.len() as int),
        forall|i: int| 0 <= i < r@.len() ==> #[trigger] r@[i] == vec_a@[i] - vec_b@[i],
{
    let n = if vec_a.len() < vec_b.len() { vec_a.len() } else { vec_b.len() };
    let mut r: Vec<i64> = Vec::new();
    let mut i: usize = 0;
    while i < n
        invariant
            n == min(vec_a@.len() as int, vec_b@.len() as int),
            forall|i: int| 0 <= i < vec_a@.len() && 0 <= i < vec_b@.len() ==> fits_i64(vec_a@[i] - vec_b@[i]),
            0 <= i <= n,
            r@.len() == i,
            forall|j: int| 0 <= j < i ==> #[trigger] r@[j] == vec_a@[j] - vec_b@[j],
        decreases n - i,
    {
        r.push(vec_a[i] - vec_b[i]);
        i = i + 1;
    }
    r
}

/// The sum of one vector, accumulated without overflow.
fn vec_sum(v: &Vec<i64>) -> (s: i128)
    ensures
        s == total(v@),
{
    let mut s: i128 = 0;
    let mut j: usize = 0;
    while j < v.len()
        invariant
            0 <= j <= v@.len(),
            s == seq_sum(v@, j as int),
            -(j as int) * 0x8000_0000_0000_0000 <= s <= (j as int) * 0x7fff_ffff_ffff_ffff,
        decreases v@.len() - j,
    {
        s = s + v[j] as i128;
        j = j + 1;
    }
    s
}

/// The sum of each row.
pub fn sum_axis_0(matrix: &Vec<Vec<i64>>) -> (r: Vec<i64>)
    requires
        forall|k: int| 0 <= k < matrix@.len() ==> fits_i64(total(#[trigger] matrix@[k]@)),
    ensures
        r@.len() == matrix@.len(),
        forall|k: int| 0 <= k < r@.len() ==> #[trigger] r@[k] == total(matrix@[k]@),
{
    let mut r: Vec<i64> = Vec::new();
    let mut k: usize = 0;
    while k < matrix.len()
        invariant
            forall|k: int| 0 <= k < matrix@.len() ==> fits_i64(total(#[trigger] matrix@[k]@)),
            0 <= k <= matrix@.len(),
            r@.len() == k,
            forall|i: int| 0 <= i < k ==> #[trigger] r@[i] == total(matrix@[i]@),
        decreases matrix@.len() - k,
    {
        let s = vec_sum(&matrix[k]);
        assert(fits_i64(total(matrix@[k as int]@)));
        r.push(s as i64);
        k = k + 1;
    }
    r
}

/// `sum_{k < j} w[k] * ONE / s`, each share rounded down.
pub open spec fn share_sum(w: Seq<i64>, s: int, j: int) -> int
    decreases j,
{
    if j <= 0 {
        0
    } else {
        share_sum(w, s, j - 1) + w[j - 1] * ONE / s
    }
}

/// The weights rescaled to sum to exactly one: each share `w * ONE / sum`
/// rounded down, the last taking what rounding left over. Unchanged when
/// their sum is at most `1e-5`.
pub open spec fn normalized(w: Seq<i64>) -> Seq<i64> {
    let s = total(w);
    if s > NORM_EPS {
        Seq::new(
            w.len(),
            |k: int|
                if k < w.len() - 1 {
                    (w[k] * ONE / s) as i64
                } else {
                    (ONE - share_sum(w, s, w.len() - 1)) as i64
                },
        )
    } else {
        w
    }
}

/// Entry `k` of the min-max rescaling of `s`.
pub open spec fn min_max_spec(s: Seq<i64>, k: int) -> int {
    let lo = seq_min(s, s.len() as int);
    let hi = seq_max(s, s.len() as int);
    if hi - lo <= ZERO_RANGE {
        ONE as int
    } else {
        (s[k] - lo) * ONE / (hi - lo)
    }
}

proof fn lemma_share_step(acc: int, wsum: int, w: int, s: int)
    requires
        s > 0,
        w >= 0,
        acc * s <= wsum * ONE,
    ensures
        (acc + w * ONE / s) * s <= (wsum + w) * ONE,
        0 <= w * ONE / s,
{
    let r = w * ONE / s;
    assert(r * s <= w * ONE && 0 <= r) by (nonlinear_arith)
        requires s > 0, w >= 0, r == w * ONE / s;
    assert((acc + r) * s == acc * s + r * s) by (nonlinear_arith);
}

/// Rescales non-negative weights to sum to exactly one: each becomes
/// `w * ONE / sum` rounded down, and the last also takes what rounding left
/// over. When the sum is at most `1e-5` the weights are returned unchanged.
pub fn normalize_vec(array: &Vec<i64>) -> (r: Vec<i64>)
    requires
        nonnegative(array@),
    ensures
        r@ == normalized(array@),
        nonnegative(r@),
        total(r@) <= ONE,
        total(array@) > NORM_EPS ==> total(r@) == ONE,
        total(array@) <= NORM_EPS ==> r@ == array@,
{
    let s = vec_sum(array);
    proof {
        lemma_sum_nonnegative(array@, array@.len() as int);
    }
    if s <= NORM_EPS as i128 {
        return array.clone();
    }
    let n = array.len();
    let mut r: Vec<i64> = Vec::new();
    let mut acc: i128 = 0;
    let mut i: usize = 0;
    while i + 1 < n
        invariant
            n == array@.len(),
            n >= 1,
            nonnegative(array@),
            s == total(array@),
            s > NORM_EPS,
            0 <= i < n,
            r@.len() == i,
            forall|k: int| 0 <= k < i ==> #[trigger] r@[k] == array@[k] * ONE / (s as int),
            nonnegative(r@),
            acc == seq_sum(r@, i as int),
            acc == share_sum(array@, s as int, i as int),
            acc * s <= seq_sum(array@, i as int) * ONE,
            0 <= acc <= ONE,
        decreases n - i,
    {
        let w = array[i];
        proof {
            lemma_entry_le_total(array@, i as int, n as int);
            assert(w * ONE / (s as int) <= ONE) by (nonlinear_arith)
                requires 0 <= w <= s, s > 0;
            lemma_share_step(acc as int, seq_sum(array@, i as int), w as int, s as int);
            lemma_prefix_le_total(array@, i + 1);
            assert((acc + w * ONE / (s as int)) <= ONE) by (nonlinear_arith)
                requires (acc + w * ONE / (s as int)) * s <= seq_sum(array@, i + 1) * ONE,
                    seq_sum(array@, i + 1) <= s, s > 0;
        }
        let x: i128 = (w as i128) * (ONE as i128) / s;
        let ghost old_r = r@;
        r.push(x as i64);
        acc = acc + x;
        proof {
            lemma_prefix_sum_push(old_r, x as i64, i as int);
        }
        i = i + 1;
    }
    let last: i128 = (ONE as i128) - acc;
    let ghost old_r = r@;
    r.push(last as i64);
    proof {
        lemma_prefix_sum_push(old_r, last as i64, i as int);
        assert(seq_sum(r@, n as int) == ONE);
        assert(r@ =~= normalized(array@));
    }
    r
}

/// A prefix of non-negative entries sums to at most the whole.
pub(crate) proof fn lemma_prefix_le_total(s: Seq<i64>, j: int)
    requires
        nonnegative(s),
        0 <= j <= s.len(),
    ensures
        seq_sum(s, j) <= total(s),
    decreases s.len() - j,
{
    if j < s.len() {
        lemma_prefix_le_total(s, j + 1);
    }
}

/// Pushing an entry leaves the sums of the earlier prefixes alone.
pub(crate) proof fn lemma_prefix_sum_push(s: Seq<i64>, x: i64, j: int)
    requires
        0 <= j <= s.len(),
    ensures
        seq_sum(s.push(x), j) == seq_sum(s, j),
    decreases j,
{
    if j > 0 {
        lemma_prefix_sum_push(s, x, j - 1);
    }
}

/// Rescales to `[0, ONE]`: each entry becomes
/// `(x - min) * ONE / (max - min)` (rounded down). When the range is at most
/// `1e-7` every entry becomes `ONE`.
pub fn min_max_norm(array: &Vec<i64>) -> (r: Vec<i64>)
    ensures
        r@.len() == array@.len(),
        forall|k: int| 0 <= k < r@.len() ==> #[trigger] r@[k] == min_max_spec(array@, k),
        forall|k: int| 0 <= k < r@.len() ==> 0 <= #[trigger] r@[k] <= ONE,
{
    let n = array.len();
    let mut hi: i64 = 0;
    let mut lo: i64 = 0;
    let mut i: usize = 0;
    while i < n
        invariant
            n == array@.len(),
            0 <= i <= n,
            hi == seq_max(array@, i as int),
            lo == seq_min(array@, i as int),
        decreases n - i,
    {
        let x = array[i];
        if i == 0 || x > hi {
            hi = x;
        }
        if i == 0 || x < lo {
            lo = x;
        }
        i = i + 1;
    }
    let range: i128 = hi as i128 - lo as i128;
    let mut r: Vec<i64> = Vec::new();
    let mut i: usize = 0;
    while i < n
        invariant
            n == array@.len(),
            hi == seq_max(array@, n as int),
            lo == seq_min(array@, n as int),
            range == hi - lo,
            0 <= i <= n,
            r@.len() == i,
            range <= ZERO_RANGE ==> forall|k: int| 0 <= k < i ==> #[trigger] r@[k] == ONE,
            range > ZERO_RANGE ==> forall|k: int| 0 <= k < i ==> #[trigger] r@[k] == (array@[k] - lo) * ONE / (range as int),
            forall|k: int| 0 <= k < i ==> 0 <= #[trigger] r@[k] <= ONE,
        decreases n - i,
    {
        if range <= ZERO_RANGE as i128 {
            r.push(ONE);
        } else {
            let x = array[i];
            proof {
                lemma_min_max_bounds(array@, i as int, n as int);
                let d = x - lo;
                assert(0 <= d * ONE / (range as int) <= ONE) by (nonlinear_arith)
                    requires 0 <= d <= range, range > 0;
                assert(d * ONE <= 0x1_0000_0000_0000_0000 * ONE) by (nonlinear_arith)
                    requires 0 <= d <= 0x1_0000_0000_0000_0000;
            }
            let y: i128 = (x as i128 - lo as i128) * (ONE as i128) / range;
            r.push(y as i64);
        }
        i = i + 1;
    }
    r
}

/// Scales row `k` by `other[k]`: entry `[k][a]` becomes
/// `ndarr[k][a] * other[k] / ONE` (rounded down). Fails when `other` does not
/// have one factor per row.
pub fn mult_axis_0(ndarr: &Vec<Vec<i64>>, other: &Vec<i64>) -> (r: Result<Vec<Vec<i64>>, MCDMRSError>)
    requires
        nonnegative(other@),
        forall|k: int| 0 <= k < ndarr@.len() ==> nonnegative(#[trigger] ndarr@[k]@),
        forall|k: int, a: int| 0 <= k < ndarr@.len() && k < other@.len() && 0 <= a < ndarr@[k]@.len() ==> fits_i64(#[trigger] ndarr@[k]@[a] * other@[k] / (ONE as int)),
    ensures
        r is Err <==> ndarr@.len() != other@.len(),
        r matches Err(e) ==> e == MCDMRSError::DimensionMismatch,
        r matches Ok(out) ==> out@.len() == ndarr@.len() && forall|k: int| 0 <= k < out@.len() ==> (#[trigger] out@[k])@.len() == ndarr@[k]@.len(),
        r matches Ok(out) ==> forall|k: int, a: int| 0 <= k < out@.len() && 0 <= a < out@[k]@.len() ==> #[trigger] out@[k]@[a] == ndarr@[k]@[a] * other@[k] / (ONE as int),
{
    if ndarr.len() != other.len() {
        return Err(MCDMRSError::DimensionMismatch);
    }
    let m = ndarr.len();
    let mut out: Vec<Vec<i64>> = Vec::new();
    let mut k: usize = 0;
    while k < m
        invariant
            m == ndarr@.len(),
            m == other@.len(),
            nonnegative(other@),
            forall|k: int| 0 <= k < ndarr@.len() ==> nonnegative(#[trigger] ndarr@[k]@),
            forall|k: int, a: int| 0 <= k < ndarr@.len() && k < other@.len() && 0 <= a < ndarr@[k]@.len() ==> fits_i64(#[trigger] ndarr@[k]@[a] * other@[k] / (ONE as int)),
            0 <= k <= m,
            out@.len() == k,
            forall|i: int| 0 <= i < k ==> (#[trigger] out@[i])@.len() == ndarr@[i]@.len(),
            forall|i: int, a: int| 0 <= i < k && 0 <= a < out@[i]@.len() ==> #[trigger] out@[i]@[a] == ndarr@[i]@[a] * other@[i] / (ONE as int),
        decreases m - k,
    {
        let row = &ndarr[k];
        let w = other[k];
        let mut scaled: Vec<i64> = Vec::new();
        let mut a: usize = 0;
        while a < row.len()
            invariant
                row@ == ndarr@[k as int]@,
                k < m,
                m == ndarr@.len(),
                m == other@.len(),
                w == other@[k as int],
                0 <= w,
                nonnegative(row@),
                forall|a: int| 0 <= a < row@.len() ==> fits_i64(#[trigger] row@[a] * w / (ONE as int)),
                0 <= a <= row@.len(),
                scaled@.len() == a,
                forall|j: int| 0 <= j < a ==> #[trigger] scaled@[j] == row@[j] * w / (ONE as int),
            decreases row@.len() - a,
        {
            let x = row[a];
            assert(fits_i64(row@[a as int] * w / (ONE as int)));
            assert(0 <= x && 0 <= w);
            let y: i128 = (x as i128) * (w as i128) / (ONE as i128);
            scaled.push(y as i64);
            a = a + 1;
        }
        out.push(scaled);
        k = k + 1;
    }
    Ok(out)
}

proof fn lemma_constant_extremes(s: Seq<i64>, j: int)
    requires
        1 <= j <= s.len(),
        forall|k: int| 0 <= k < s.len() ==> #[trigger] s[k] == s[0],
    ensures
        seq_max(s, j) == s[0],
        seq_min(s, j) == s[0],
    decreases j,
{
    if j > 1 {
        lemma_constant_extremes(s, j - 1);
        assert(s[j - 1] == s[0]);
    }
}

/// Min-max rescaling of equal values gives `ONE` for every entry.
pub proof fn lemma_min_max_constant(s: Seq<i64>, k: int)
    requires
        0 <= k < s.len(),
        forall|j: int| 0 <= j < s.len() ==> #[trigger] s[j] == s[0],
    ensures
        min_max_spec(s, k) == ONE,
{
    lemma_constant_extremes(s, s.len() as int);
}

/// Scales row `k` by `weights[k]`, as [`mult_axis_0`] does, for a weight
/// vector with one weight per row.
pub fn apply_weights(pref_matrix_t: &Vec<Vec<i64>>, weights: &Vec<i64>) -> (r: Vec<Vec<i64>>)
    requires
        pref_matrix_t@.len() == weights@.len(),
        nonnegative(weights@),
        forall|k: int| 0 <= k < pref_matrix_t@.len() ==> nonnegative(#[trigger] pref_matrix_t@[k]@),
        forall|k: int, a: int| 0 <= k < pref_matrix_t@.len() && 0 <= a < pref_matrix_t@[k]@.len() ==> fits_i64(#[trigger] pref_matrix_t@[k]@[a] * weights@[k] / (ONE as int)),
    ensures
        r@.len() == pref_matrix_t@.len(),
        forall|k: int| 0 <= k < r@.len() ==> (#[trigger] r@[k])@.len() == pref_matrix_t@[k]@.len(),
        forall|k: int, a: int| 0 <= k < r@.len() && 0 <= a < r@[k]@.len() ==> #[trigger] r@[k]@[a] == pref_matrix_t@[k]@[a] * weights@[k] / (ONE as int),
{
    mult_axis_0(pref_matrix_t, weights).unwrap()
}

} // verus!
