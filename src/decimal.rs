//! Decimal text read exactly into fixed-point values.
use vstd::prelude::*;
use vstd::std_specs::iter::IteratorSpec;
use crate::error::MCDMRSError;
use crate::types::{in_value_range, ONE};

verus! {

/// The number of fraction digits that a fixed-point value keeps.
pub const FRACTION_DIGITS: usize = 9;

pub open spec fn is_digit(c: char) -> bool {
    '0' <= c <= '9'
}

pub open spec fn all_digits(s: Seq<char>) -> bool {
    forall|i: int| 0 <= i < s.len() ==> is_digit(#[trigger] s[i])
}

/// The value of a run of decimal digits.
pub open spec fn digits_value(s: Seq<char>) -> int
    decreases s.len(),
{
    if s.len() == 0 {
        0
    } else {
        digits_value(s.drop_last()) * 10 + (s.last() as int - '0' as int)
    }
}

pub open spec fn pow10(k: nat) -> int
    decreases k,
{
    if k == 0 { 1 } else { 10 * pow10((k - 1) as nat) }
}

/// Fraction digits in billionths: the first nine, padded with zeros; later
/// digits are dropped.
pub open spec fn fraction_value(f: Seq<char>) -> int {
    if f.len() >= FRACTION_DIGITS {
        digits_value(f.take(FRACTION_DIGITS as int))
    } else {
        digits_value(f) * pow10((FRACTION_DIGITS - f.len()) as nat)
    }
}

/// `s` is digits, a point at `d`, and digits, with at least one digit.
pub open spec fn point_at(s: Seq<char>, d: int) -> bool {
    &&& 0 <= d < s.len()
    &&& s[d] == '.'
    &&& s.len() >= 2
    &&& all_digits(s.take(d))
    &&& all_digits(s.skip(d + 1))
}

/// The fixed-point value of unsigned decimal text: one or more digits, or
/// digits, a point and digits with at least one digit in all.
pub open spec fn unsigned_fixed(s: Seq<char>) -> Option<int> {
    if s.len() >= 1 && all_digits(s) {
        Some(digits_value(s) * ONE)
    } else if exists|d: int| point_at(s, d) {
        let d = choose|d: int| point_at(s, d);
        Some(digits_value(s.take(d)) * ONE + fraction_value(s.skip(d + 1)))
    } else {
        None
    }
}

/// What reading one field gives: its value, or why it has none.
pub open spec fn fixed_field(s: Seq<char>) -> Result<i64, MCDMRSError> {
    match decimal_fixed(s) {
        None => Err(MCDMRSError::InvalidNumber),
        Some(v) => if in_value_range(v) { Ok(v as i64) } else { Err(MCDMRSError::OutOfRange) },
    }
}

/// What reading a column of fields gives: all their values, or the error
/// of the first field that has none.
pub open spec fn fixed_column(col: Seq<Seq<char>>) -> Result<Seq<i64>, MCDMRSError>
    decreases col.len(),
{
    if col.len() == 0 {
        Ok(Seq::empty())
    } else {
        match fixed_column(col.drop_last()) {
            Err(e) => Err(e),
            Ok(vs) => match fixed_field(col.last()) {
                Err(e) => Err(e),
                Ok(v) => Ok(vs.push(v)),
            },
        }
    }
}

/// The fixed-point value of decimal text with an optional sign.
pub open spec fn decimal_fixed(s: Seq<char>) -> Option<int> {
    if s.len() > 0 && s[0] == '-' {
        match unsigned_fixed(s.skip(1)) {
            Some(v) => Some(-v),
            None => None,
        }
    } else if s.len() > 0 && s[0] == '+' {
        unsigned_fixed(s.skip(1))
    } else {
        unsigned_fixed(s)
    }
}

proof fn lemma_digits_step(s: Seq<char>, j: int)
    requires
        0 <= j < s.len(),
    ensures
        digits_value(s.take(j + 1)) == digits_value(s.take(j)) * 10 + (s[j] as int - '0' as int),
{
    assert(s.take(j + 1).drop_last() =~= s.take(j));
}

proof fn lemma_digits_nonnegative(s: Seq<char>)
    requires
        all_digits(s),
    ensures
        0 <= digits_value(s),
    decreases s.len(),
{
    if s.len() > 0 {
        assert(all_digits(s.drop_last()));
        lemma_digits_nonnegative(s.drop_last());
    }
}

proof fn lemma_digits_grow(s: Seq<char>, j: int)
    requires
        0 <= j < s.len(),
        all_digits(s.take(j + 1)),
    ensures
        digits_value(s.take(j)) <= digits_value(s.take(j + 1)),
{
    lemma_digits_step(s, j);
    assert(all_digits(s.take(j))) by {
        assert forall|i: int| 0 <= i < j implies is_digit(#[trigger] s.take(j)[i]) by {
            assert(s.take(j)[i] == s.take(j + 1)[i]);
        }
    }
    lemma_digits_nonnegative(s.take(j));
}

proof fn lemma_pow10_positive(k: nat)
    ensures
        1 <= pow10(k),
    decreases k,
{
    if k > 0 {
        lemma_pow10_positive((k - 1) as nat);
    }
}

proof fn lemma_pow10_small(k: nat)
    requires
        k <= FRACTION_DIGITS,
    ensures
        1 <= pow10(k) <= ONE,
    decreases FRACTION_DIGITS - k,
{
    lemma_pow10_positive(k);
    if k < FRACTION_DIGITS {
        lemma_pow10_small(k + 1);
        assert(pow10(k + 1) == 10 * pow10(k));
    } else {
        reveal_with_fuel(pow10, 10);
    }
}

/// An integer part above this puts a value beyond
/// [`crate::types::VALUE_LIMIT`].
const BIG_INT: i128 = 10_000_000_000;

/// Reads unsigned decimal text into billionths.
fn unsigned_value(s: &Vec<char>) -> (r: Result<i128, MCDMRSError>)
    ensures
        unsigned_fixed(s@) is None ==> r == Err::<i128, MCDMRSError>(MCDMRSError::InvalidNumber),
        unsigned_fixed(s@) matches Some(v) ==> {
            &&& (v <= crate::types::VALUE_LIMIT ==> r == Ok::<i128, MCDMRSError>(v as i128))
            &&& (v > crate::types::VALUE_LIMIT ==> r == Err::<i128, MCDMRSError>(MCDMRSError::OutOfRange))
        },
{
    let n = s.len();
    let mut k: usize = 0;
    let mut int_val: i128 = 0;
    let mut big = false;
    while k < n && '0' <= s[k] && s[k] <= '9'
        invariant
            n == s@.len(),
            0 <= k <= n,
            all_digits(s@.take(k as int)),
            !big ==> int_val == digits_value(s@.take(k as int)) && 0 <= int_val <= BIG_INT,
            big ==> digits_value(s@.take(k as int)) > BIG_INT,
        decreases n - k,
    {
        let c = s[k];
        proof {
            lemma_digits_step(s@, k as int);
            assert(all_digits(s@.take(k + 1))) by {
                assert forall|i: int| 0 <= i < k + 1 implies is_digit(#[trigger] s@.take(k + 1)[i]) by {
                    if i < k {
                        assert(s@.take(k + 1)[i] == s@.take(k as int)[i]);
                    }
                }
            }
            lemma_digits_grow(s@, k as int);
            lemma_digits_nonnegative(s@.take(k as int));
        }
        if !big {
            int_val = int_val * 10 + ((c as u32 - '0' as u32) as i128);
            if int_val > BIG_INT {
                big = true;
            }
        }
        k = k + 1;
    }
    let int_end = k;
    let ghost ip = s@.take(int_end as int);
    if k == n {
        assert(ip =~= s@);
        if n == 0 {
            return Err(MCDMRSError::InvalidNumber);
        }
        if big || int_val * (ONE as i128) > crate::types::VALUE_LIMIT as i128 {
            proof {
                if big {
                    assert(digits_value(ip) * ONE > BIG_INT * ONE) by (nonlinear_arith)
                        requires digits_value(ip) > BIG_INT;
                }
            }
            return Err(MCDMRSError::OutOfRange);
        }
        return Ok(int_val * (ONE as i128));
    }
    if s[k] != '.' {
        proof {
            assert(!all_digits(s@));
            assert forall|d: int| !point_at(s@, d) by {
                if point_at(s@, d) {
                    if d < k {
                        assert(is_digit(s@.take(k as int)[d]));
                    } else if d > k {
                        assert(is_digit(s@.take(d)[k as int]));
                    }
                }
            }
        }
        return Err(MCDMRSError::InvalidNumber);
    }
    k = k + 1;
    let frac_start = k;
    let mut frac_val: i128 = 0;
    let mut count: usize = 0;
    while k < n && '0' <= s[k] && s[k] <= '9'
        invariant
            n == s@.len(),
            frac_start == int_end + 1,
            frac_start <= k <= n,
            s@[int_end as int] == '.',
            all_digits(s@.subrange(frac_start as int, k as int)),
            count == if k - frac_start < FRACTION_DIGITS { k - frac_start } else { FRACTION_DIGITS as int },
            frac_val == digits_value(s@.subrange(frac_start as int, k as int).take(count as int)),
            0 <= frac_val < pow10(count as nat),
        decreases n - k,
    {
        let c = s[k];
        let ghost f = s@.subrange(frac_start as int, k as int);
        let ghost f2 = s@.subrange(frac_start as int, k + 1);
        proof {
            assert(f2.drop_last() =~= f);
            assert(all_digits(f2)) by {
                assert forall|i: int| 0 <= i < f2.len() implies is_digit(#[trigger] f2[i]) by {
                    if i < f.len() {
                        assert(f2[i] == f[i]);
                    }
                }
            }
        }
        if count < FRACTION_DIGITS {
            proof {
                assert(f2.take(count as int) =~= f.take(count as int));
                lemma_digits_step(f2, count as int);
                assert(f2[count as int] == c);
                lemma_pow10_small(count as nat);
                assert(pow10((count + 1) as nat) == 10 * pow10(count as nat));
            }
            frac_val = frac_val * 10 + ((c as u32 - '0' as u32) as i128);
            count = count + 1;
        } else {
            proof {
                assert(f2.take(count as int) =~= f.take(count as int));
            }
        }
        k = k + 1;
    }
    let ghost fp = s@.subrange(frac_start as int, k as int);
    if k != n {
        proof {
            assert(!all_digits(s@)) by {
                assert(!is_digit(s@[int_end as int]));
            }
            assert forall|d: int| !point_at(s@, d) by {
                if point_at(s@, d) {
                    if d < int_end {
                        assert(is_digit(s@.take(int_end as int)[d]));
                    } else if d == int_end {
                        assert(is_digit(s@.skip(d + 1)[k - d - 1]));
                    } else {
                        assert(s@.take(d)[int_end as int] == '.');
                    }
                }
            }
        }
        return Err(MCDMRSError::InvalidNumber);
    }
    assert(fp =~= s@.skip(int_end + 1));
    if n < 2 {
        proof {
            assert(!all_digits(s@)) by {
                assert(!is_digit(s@[int_end as int]));
            }
            assert forall|d: int| !point_at(s@, d) by {}
        }
        return Err(MCDMRSError::InvalidNumber);
    }
    proof {
        assert(point_at(s@, int_end as int));
        assert(!all_digits(s@)) by {
            assert(!is_digit(s@[int_end as int]));
        }
        let d = choose|d: int| point_at(s@, d);
        if d < int_end {
            assert(is_digit(s@.take(int_end as int)[d]));
        } else if d > int_end {
            assert(is_digit(s@.take(d)[int_end as int]));
        }
        assert(d == int_end);
    }
    let mut scaled: i128 = frac_val;
    let mut c2: usize = count;
    proof {
        assert(((c2 - count) as nat) == 0nat);
        assert(pow10(0) == 1);
        assert(frac_val * pow10((c2 - count) as nat) == frac_val);
    }
    while c2 < FRACTION_DIGITS
        invariant
            count <= c2 <= FRACTION_DIGITS,
            scaled == frac_val * pow10((c2 - count) as nat),
            0 <= scaled < pow10(c2 as nat),
        decreases FRACTION_DIGITS - c2,
    {
        proof {
            let e = (c2 - count) as nat;
            assert(pow10(e + 1) == 10 * pow10(e));
            assert(pow10((c2 + 1) as nat) == 10 * pow10(c2 as nat));
            assert(frac_val * pow10(e + 1) == (frac_val * pow10(e)) * 10) by (nonlinear_arith)
                requires pow10(e + 1) == 10 * pow10(e);
            lemma_pow10_small(c2 as nat);
        }
        scaled = scaled * 10;
        c2 = c2 + 1;
    }
    proof {
        if fp.len() >= FRACTION_DIGITS {
            assert(count == FRACTION_DIGITS);
        } else {
            assert(fp.take(count as int) =~= fp);
        }
        lemma_pow10_small(FRACTION_DIGITS as nat);
        reveal_with_fuel(pow10, 10);
        assert(pow10(9) == ONE);
    }
    if big || int_val * (ONE as i128) + scaled > crate::types::VALUE_LIMIT as i128 {
        proof {
            if big {
                assert(digits_value(ip) * ONE > BIG_INT * ONE) by (nonlinear_arith)
                    requires digits_value(ip) > BIG_INT;
            }
        }
        return Err(MCDMRSError::OutOfRange);
    }
    Ok(int_val * (ONE as i128) + scaled)
}

/// The characters of a text, in order.
pub fn chars_of(text: &str) -> (r: Vec<char>)
    ensures
        r@ == text@,
{
    let ghost s = text@;
    let mut it = text.chars();
    proof {
        vstd::string::axiom_spec_iter(text);
    }
    let mut r: Vec<char> = Vec::new();
    loop
        invariant
            r@.len() <= s.len(),
            it.obeys_prophetic_iter_laws(),
            it.remaining() == s.skip(r@.len() as int),
            r@ == s.take(r@.len() as int),
        ensures
            r@ == s,
        decreases s.len() - r@.len(),
    {
        let ghost old_it = it;
        let ghost i = r@.len() as int;
        let next = it.next();
        proof {
            vstd::string::next_postcondition(&old_it, &it, next);
        }
        match next {
            None => {
                assert(s.skip(i).len() == 0);
                assert(s.take(i) =~= s);
                break;
            },
            Some(c) => {
                r.push(c);
                proof {
                    assert(c == s[i]);
                    assert(s.take(i + 1) =~= s.take(i).push(c));
                    assert(s.skip(i).drop_first() =~= s.skip(i + 1));
                }
            },
        }
    }
    r
}

/// Reads decimal text (an optional sign, digits, optionally a point and
/// more digits) exactly into fixed-point billionths, dropping fraction
/// digits past the ninth. Fails on other text, and on values beyond
/// [`crate::types::VALUE_LIMIT`].
pub fn parse_fixed(text: &str) -> (r: Result<i64, MCDMRSError>)
    ensures
        r == fixed_field(text@),
{
    let mut cs = chars_of(text);
    let neg = cs.len() > 0 && cs[0] == '-';
    let signed = cs.len() > 0 && (cs[0] == '-' || cs[0] == '+');
    let body = if signed { cs.split_off(1) } else { cs };
    proof {
        if signed {
            assert(body@ =~= text@.skip(1));
        }
    }
    let u = unsigned_value(&body)?;
    proof {
        lemma_unsigned_nonnegative(body@);
    }
    if neg {
        Ok((-u) as i64)
    } else {
        Ok(u as i64)
    }
}

proof fn lemma_unsigned_nonnegative(s: Seq<char>)
    ensures
        unsigned_fixed(s) matches Some(v) ==> 0 <= v,
{
    if s.len() >= 1 && all_digits(s) {
        lemma_digits_nonnegative(s);
    } else if exists|d: int| point_at(s, d) {
        let d = choose|d: int| point_at(s, d);
        lemma_digits_nonnegative(s.take(d));
        let f = s.skip(d + 1);
        if f.len() >= FRACTION_DIGITS {
            assert(all_digits(f.take(FRACTION_DIGITS as int))) by {
                assert forall|i: int| 0 <= i < FRACTION_DIGITS implies is_digit(#[trigger] f.take(FRACTION_DIGITS as int)[i]) by {
                    assert(f.take(FRACTION_DIGITS as int)[i] == f[i]);
                }
            }
            lemma_digits_nonnegative(f.take(FRACTION_DIGITS as int));
        } else {
            lemma_digits_nonnegative(f);
            lemma_pow10_positive((FRACTION_DIGITS - f.len()) as nat);
            assert(0 <= digits_value(f) * pow10((FRACTION_DIGITS - f.len()) as nat)) by (nonlinear_arith)
                requires 0 <= digits_value(f), 1 <= pow10((FRACTION_DIGITS - f.len()) as nat);
        }
        assert(0 <= digits_value(s.take(d)) * ONE) by (nonlinear_arith)
            requires 0 <= digits_value(s.take(d));
    }
}

/// The views of a column of texts.
pub open spec fn texts_view(col: Seq<String>) -> Seq<Seq<char>> {
    col.map_values(|s: String| s@)
}

/// Reads every field of a column; fails with the error of the first field
/// that is not a decimal number within range.
pub fn parse_column(col: &Vec<String>) -> (r: Result<Vec<i64>, MCDMRSError>)
    ensures
        r matches Ok(v) ==> fixed_column(texts_view(col@)) == Ok::<Seq<i64>, MCDMRSError>(v@),
        r matches Err(e) ==> fixed_column(texts_view(col@)) == Err::<Seq<i64>, MCDMRSError>(e),
{
    let ghost cv = texts_view(col@);
    let mut out: Vec<i64> = Vec::new();
    let mut k: usize = 0;
    while k < col.len()
        invariant
            cv == texts_view(col@),
            0 <= k <= col@.len(),
            fixed_column(cv.take(k as int)) == Ok::<Seq<i64>, MCDMRSError>(out@),
        decreases col@.len() - k,
    {
        proof {
            assert(cv.take(k + 1).drop_last() =~= cv.take(k as int));
            assert(cv.take(k + 1).last() == col@[k as int]@);
        }
        let v = parse_fixed(col[k].as_str());
        match v {
            Ok(x) => {
                out.push(x);
            },
            Err(e) => {
                proof {
                    lemma_column_error_stays(cv, k as int + 1, e);
                }
                return Err(e);
            },
        }
        k = k + 1;
    }
    assert(cv.take(k as int) =~= cv);
    Ok(out)
}

/// Once a prefix of a column fails, the whole column fails the same way.
proof fn lemma_column_error_stays(col: Seq<Seq<char>>, j: int, e: MCDMRSError)
    requires
        0 <= j <= col.len(),
        fixed_column(col.take(j)) == Err::<Seq<i64>, MCDMRSError>(e),
    ensures
        fixed_column(col) == Err::<Seq<i64>, MCDMRSError>(e),
    decreases col.len() - j,
{
    if j < col.len() {
        assert(col.take(j + 1).drop_last() =~= col.take(j));
        lemma_column_error_stays(col, j + 1, e);
    } else {
        assert(col.take(j) =~= col);
    }
}

/// A column that reads has one value per field, each within range.
pub proof fn lemma_fixed_column_facts(col: Seq<Seq<char>>)
    ensures
        fixed_column(col) matches Ok(vs) ==> vs.len() == col.len() && forall|i: int| 0 <= i < vs.len() ==> in_value_range(#[trigger] vs[i] as int),
    decreases col.len(),
{
    if col.len() > 0 {
        lemma_fixed_column_facts(col.drop_last());
    }
}

} // verus!
