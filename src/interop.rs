//! Tables of text read from comma-separated values.
use vstd::prelude::*;
use vstd::std_specs::iter::IteratorSpec;
use crate::error::MCDMRSError;
use crate::decimal::{fixed_column, lemma_fixed_column_facts, parse_column, texts_view};
use crate::math::nonnegative;
use crate::pref_functions::same_text;
use crate::multicriterion_flow::mat_view;
use crate::promethee::{Criteria, Prom};
use crate::types::in_value_range;
use crate::unicriterion_flow::values_in_range;

verus! {

/// A table: the header's column names and the records below it, as text.
#[derive(Clone, Debug)]
pub struct DataFrame {
    pub columns: Vec<String>,
    pub rows: Vec<Vec<String>>,
}

/// `s` cut at every `sep` (an empty `s` gives one empty piece).
pub open spec fn split(s: Seq<char>, sep: char) -> Seq<Seq<char>>
    decreases s.len(),
{
    if s.len() == 0 {
        seq![Seq::empty()]
    } else {
        let prev = split(s.drop_last(), sep);
        if s.last() == sep {
            prev.push(Seq::empty())
        } else {
            prev.update(prev.len() - 1, prev.last().push(s.last()))
        }
    }
}

/// `s` without its carriage returns.
pub open spec fn clean(s: Seq<char>) -> Seq<char>
    decreases s.len(),
{
    if s.len() == 0 {
        Seq::empty()
    } else if s.last() == '\r' {
        clean(s.drop_last())
    } else {
        clean(s.drop_last()).push(s.last())
    }
}

/// The fields of each non-empty line.
pub open spec fn records_of(lines: Seq<Seq<char>>) -> Seq<Seq<Seq<char>>>
    decreases lines.len(),
{
    if lines.len() == 0 {
        Seq::empty()
    } else if lines.last().len() == 0 {
        records_of(lines.drop_last())
    } else {
        records_of(lines.drop_last()).push(split(lines.last(), ','))
    }
}

/// The records of a text: its non-empty lines (carriage returns dropped),
/// each cut into fields at every comma.
pub open spec fn csv_records(text: Seq<char>) -> Seq<Seq<Seq<char>>> {
    records_of(split(clean(text), '\n'))
}

/// The fields of a record, as text.
pub open spec fn row_view(row: Vec<String>) -> Seq<Seq<char>> {
    row@.map_values(|f: String| f@)
}

/// Every record of a table, as text.
pub open spec fn rows_view(rows: Seq<Vec<String>>) -> Seq<Seq<Seq<char>>> {
    rows.map_values(|r: Vec<String>| row_view(r))
}

/// The fields of the first column named `name`, as text.
pub open spec fn column_spec(df: DataFrame, name: Seq<char>) -> Option<Seq<Seq<char>>> {
    match df.column_index(name) {
        Some(i) => Some(Seq::new(df.rows@.len(), |k: int| df.rows@[k]@[i]@)),
        None => None,
    }
}

/// The values of the first column named `name`.
pub open spec fn numeric_column(df: DataFrame, name: Seq<char>) -> Result<Seq<i64>, MCDMRSError> {
    match column_spec(df, name) {
        None => Err(MCDMRSError::MalformedTable),
        Some(c) => fixed_column(c),
    }
}

/// Preference-function names, an empty one naming the usual shape.
pub open spec fn names_or_usual(c: Seq<Seq<char>>) -> Seq<Seq<char>> {
    Seq::new(c.len(), |k: int| if c[k].len() == 0 { "usual"@ } else { c[k] })
}

/// The five criteria arrays that a criteria table holds (columns
/// `weight`, `criteria_type`, `pref_function`, `q`, `p`), or the error of
/// the first that cannot be read; a negative weight is out of range.
pub open spec fn criteria_fields(df: DataFrame) -> Result<(Seq<i64>, Seq<i64>, Seq<Seq<char>>, Seq<i64>, Seq<i64>), MCDMRSError> {
    match numeric_column(df, "weight"@) {
        Err(e) => Err(e),
        Ok(w) => match numeric_column(df, "criteria_type"@) {
            Err(e) => Err(e),
            Ok(d) => match column_spec(df, "pref_function"@) {
                None => Err(MCDMRSError::MalformedTable),
                Some(f) => match numeric_column(df, "q"@) {
                    Err(e) => Err(e),
                    Ok(q) => match numeric_column(df, "p"@) {
                        Err(e) => Err(e),
                        Ok(p) => if nonnegative(w) {
                            Ok((w, d, names_or_usual(f), q, p))
                        } else {
                            Err(MCDMRSError::OutOfRange)
                        },
                    },
                },
            },
        },
    }
}

/// For each name, the values of the data column so named, or the error of
/// the first that cannot be read.
pub open spec fn matrix_rows(data: DataFrame, names: Seq<Seq<char>>) -> Result<Seq<Seq<i64>>, MCDMRSError>
    decreases names.len(),
{
    if names.len() == 0 {
        Ok(Seq::empty())
    } else {
        match matrix_rows(data, names.drop_last()) {
            Err(e) => Err(e),
            Ok(m) => match numeric_column(data, names.last()) {
                Err(e) => Err(e),
                Ok(row) => Ok(m.push(row)),
            },
        }
    }
}

/// The criterion-major matrix and the criteria that an alternatives table
/// and a criteria table hold: row `k` of the matrix is the alternatives
/// column named in row `k` of the criteria's `name` column.
pub open spec fn prom_inputs(data: DataFrame, criteria: DataFrame) -> Result<
    (Seq<Seq<i64>>, (Seq<i64>, Seq<i64>, Seq<Seq<char>>, Seq<i64>, Seq<i64>)),
    MCDMRSError,
> {
    match column_spec(criteria, "name"@) {
        None => Err(MCDMRSError::MalformedTable),
        Some(names) => match matrix_rows(data, names) {
            Err(e) => Err(e),
            Ok(m) => match criteria_fields(criteria) {
                Err(e) => Err(e),
                Ok(f) => Ok((m, f)),
            },
        },
    }
}

/// Relies on `String::push`: appends one character.
#[verifier::external_body]
fn push_char(s: &mut String, c: char)
    ensures
        final(s)@ == old(s)@.push(c),
{
    s.push(c)
}

proof fn lemma_split_nonempty(s: Seq<char>, sep: char)
    ensures
        split(s, sep).len() >= 1,
    decreases s.len(),
{
    if s.len() > 0 {
        lemma_split_nonempty(s.drop_last(), sep);
    }
}

proof fn lemma_split_push(s: Seq<char>, sep: char, c: char)
    ensures
        split(s.push(c), sep) == if c == sep {
            split(s, sep).push(Seq::empty())
        } else {
            split(s, sep).update(split(s, sep).len() - 1, split(s, sep).last().push(c))
        },
{
    assert(s.push(c).drop_last() =~= s);
}

proof fn lemma_clean_push(s: Seq<char>, c: char)
    ensures
        clean(s.push(c)) == if c == '\r' { clean(s) } else { clean(s).push(c) },
{
    assert(s.push(c).drop_last() =~= s);
}

proof fn lemma_records_push(lines: Seq<Seq<char>>, l: Seq<char>)
    ensures
        records_of(lines.push(l)) == if l.len() == 0 { records_of(lines) } else { records_of(lines).push(split(l, ',')) },
{
    assert(lines.push(l).drop_last() =~= lines);
}

/// Reads comma-separated text: the first non-empty line names the columns
/// and each later non-empty line is a record. Carriage returns are dropped
/// and there is no quoting. Fails when there is no header or a record does
/// not have one field per column.
pub fn df_from_csv(text: &str) -> (r: Result<DataFrame, MCDMRSError>)
    ensures
        ({
            let recs = csv_records(text@);
            &&& (r is Ok <==> recs.len() >= 1 && forall|i: int| 1 <= i < recs.len() ==> (#[trigger] recs[i]).len() == recs[0].len())
            &&& (r matches Ok(df) ==> row_view(df.columns) == recs[0] && rows_view(df.rows@) == recs.drop_first())
            &&& (r matches Ok(df) ==> df.wf())
            &&& (r matches Err(e) ==> e == MCDMRSError::MalformedTable)
        }),
{
    let ghost s = text@;
    let mut it = text.chars();
    proof {
        vstd::string::axiom_spec_iter(text);
    }
    let mut recs: Vec<Vec<String>> = Vec::new();
    let mut row: Vec<String> = Vec::new();
    let mut field = String::new();
    let mut line_empty = true;
    let ghost mut i: int = 0;
    loop
        invariant
            0 <= i <= s.len(),
            it.obeys_prophetic_iter_laws(),
            it.remaining() == s.skip(i),
            split(clean(s.take(i)), '\n').len() >= 1,
            rows_view(recs@) == records_of(split(clean(s.take(i)), '\n').drop_last()),
            line_empty == (split(clean(s.take(i)), '\n').last().len() == 0),
            row_view(row).push(field@) == split(split(clean(s.take(i)), '\n').last(), ','),
        ensures
            i == s.len(),
            rows_view(recs@) == records_of(split(clean(s.take(i)), '\n').drop_last()),
            line_empty == (split(clean(s.take(i)), '\n').last().len() == 0),
            row_view(row).push(field@) == split(split(clean(s.take(i)), '\n').last(), ','),
        decreases s.len() - i,
    {
        let ghost old_it = it;
        let next = it.next();
        proof {
            vstd::string::next_postcondition(&old_it, &it, next);
        }
        match next {
            None => {
                assert(s.skip(i).len() == 0);
                break;
            },
            Some(c) => {
                let ghost pre = s.take(i);
                let ghost lines = split(clean(pre), '\n');
                assert(c == s[i]);
                assert(s.take(i + 1) =~= pre.push(c));
                proof {
                    lemma_clean_push(pre, c);
                    lemma_split_nonempty(clean(pre), '\n');
                }
                if c == '\r' {
                } else if c == '\n' {
                    proof {
                        lemma_split_push(clean(pre), '\n', c);
                        assert(split(clean(s.take(i + 1)), '\n') == lines.push(Seq::empty()));
                        assert(lines.push(Seq::empty()).drop_last() =~= lines);
                        assert(lines =~= lines.drop_last().push(lines.last()));
                        lemma_records_push(lines.drop_last(), lines.last());
                    }
                    if !line_empty {
                        let ghost rv = row_view(row).push(field@);
                        row.push(field);
                        assert(row_view(row) =~= rv);
                        let ghost old_recs = recs@;
                        recs.push(row);
                        assert(rows_view(recs@) =~= rows_view(old_recs).push(rv));
                    }
                    row = Vec::new();
                    field = String::new();
                    line_empty = true;
                    proof {
                        assert(row_view(row).push(field@) =~= seq![Seq::<char>::empty()]);
                    }
                } else {
                    proof {
                        lemma_split_push(clean(pre), '\n', c);
                        let last = lines.last();
                        let lines2 = lines.update(lines.len() - 1, last.push(c));
                        assert(split(clean(s.take(i + 1)), '\n') == lines2);
                        assert(lines2.drop_last() =~= lines.drop_last());
                        lemma_split_push(last, ',', c);
                    }
                    if c == ',' {
                        let ghost rv = row_view(row).push(field@);
                        row.push(field);
                        field = String::new();
                        assert(row_view(row).push(field@) =~= rv.push(Seq::empty()));
                    } else {
                        let ghost rv = row_view(row);
                        push_char(&mut field, c);
                        assert(row_view(row).push(field@) =~= rv.push(field@));
                    }
                    line_empty = false;
                }
                proof {
                    i = i + 1;
                    assert(s.skip(i - 1).drop_first() =~= s.skip(i));
                }
            },
        }
    }
    proof {
        assert(s.take(i) =~= s);
        let lines = split(clean(s), '\n');
        assert(lines =~= lines.drop_last().push(lines.last()));
        lemma_records_push(lines.drop_last(), lines.last());
    }
    if !line_empty {
        let ghost rv = row_view(row).push(field@);
        row.push(field);
        assert(row_view(row) =~= rv);
        let ghost old_recs = recs@;
        recs.push(row);
        assert(rows_view(recs@) =~= rows_view(old_recs).push(rv));
    }
    let ghost all = rows_view(recs@);
    assert(all == csv_records(text@));
    if recs.len() == 0 {
        return Err(MCDMRSError::MalformedTable);
    }
    let columns = recs.remove(0);
    assert(rows_view(recs@) =~= all.drop_first());
    assert(row_view(columns) == all[0]);
    let width = columns.len();
    assert(row_view(columns).len() == columns@.len());
    let mut k: usize = 0;
    while k < recs.len()
        invariant
            all == csv_records(text@),
            all.len() >= 1,
            recs@.len() == all.len() - 1,
            rows_view(recs@) == all.drop_first(),
            row_view(columns) == all[0],
            width == all[0].len(),
            0 <= k <= recs@.len(),
            forall|j: int| 1 <= j < k + 1 ==> (#[trigger] all[j]).len() == width,
            forall|j: int| 0 <= j < k ==> (#[trigger] recs@[j])@.len() == width,
            columns@.len() == width,
        decreases recs@.len() - k,
    {
        assert(all[k + 1] == rows_view(recs@)[k as int]);
        assert(rows_view(recs@)[k as int] == row_view(recs@[k as int]));
        assert(row_view(recs@[k as int]).len() == recs@[k as int]@.len());
        if recs[k].len() != width {
            assert(all[k + 1].len() != all[0].len());
            return Err(MCDMRSError::MalformedTable);
        }
        k = k + 1;
    }
    Ok(DataFrame { columns, rows: recs })
}

impl DataFrame {
    /// Every record has one field per column.
    pub open spec fn wf(&self) -> bool {
        forall|r: int| 0 <= r < self.rows@.len() ==> (#[trigger] self.rows@[r])@.len() == self.columns@.len()
    }

    /// The position of the first column named `name`.
    pub open spec fn column_index(&self, name: Seq<char>) -> Option<int> {
        if exists|i: int| 0 <= i < self.columns@.len() && (#[trigger] self.columns@[i])@ == name {
            Some(choose|i: int| {
                &&& 0 <= i < self.columns@.len()
                &&& (#[trigger] self.columns@[i])@ == name
                &&& forall|j: int| 0 <= j < i ==> (#[trigger] self.columns@[j])@ != name
            })
        } else {
            None
        }
    }

    /// The fields of the first column named `name`, one per record; fails
    /// when no column has that name.
    pub fn column(&self, name: &str) -> (r: Result<Vec<String>, MCDMRSError>)
        requires
            self.wf(),
        ensures
            r is Ok <==> self.column_index(name@) is Some,
            r matches Err(e) ==> e == MCDMRSError::MalformedTable,
            r matches Ok(v) ==> v@.len() == self.rows@.len() && forall|k: int| 0 <= k < v@.len() ==>
                (#[trigger] v@[k])@ == self.rows@[k]@[self.column_index(name@).unwrap()]@,
            r matches Ok(v) ==> column_spec(*self, name@) == Some(texts_view(v@)),
    {
        let mut i: usize = 0;
        while i < self.columns.len()
            invariant
                0 <= i <= self.columns@.len(),
                forall|j: int| 0 <= j < i ==> (#[trigger] self.columns@[j])@ != name@,
            ensures
                0 <= i <= self.columns@.len(),
                forall|j: int| 0 <= j < i ==> (#[trigger] self.columns@[j])@ != name@,
                i < self.columns@.len() ==> self.columns@[i as int]@ == name@,
            decreases self.columns@.len() - i,
        {
            if same_text(self.columns[i].as_str(), name) {
                break;
            }
            i = i + 1;
        }
        if i == self.columns.len() {
            return Err(MCDMRSError::MalformedTable);
        }
        assert(self.columns@[i as int]@ == name@);
        let ghost found = self.column_index(name@);
        assert(found is Some);
        proof {
            let c = found.unwrap();
            if c < i {
                assert(self.columns@[c]@ != name@);
            } else if c > i {
                assert(self.columns@[i as int]@ != name@);
            }
        }
        let mut v: Vec<String> = Vec::new();
        let mut k: usize = 0;
        while k < self.rows.len()
            invariant
                self.wf(),
                i < self.columns@.len(),
                found == Some(i as int),
                0 <= k <= self.rows@.len(),
                v@.len() == k,
                forall|j: int| 0 <= j < k ==> (#[trigger] v@[j])@ == self.rows@[j]@[i as int]@,
            decreases self.rows@.len() - k,
        {
            assert(self.rows@[k as int]@.len() == self.columns@.len());
            v.push(self.rows[k][i].clone());
            k = k + 1;
        }
        assert(texts_view(v@) =~= column_spec(*self, name@).unwrap());
        Ok(v)
    }
}

/// The preference-function names of a column, an empty field naming the
/// usual shape.
pub fn pref_func_to_vec_string(column: &Vec<String>) -> (r: Vec<String>)
    ensures
        r@.len() == column@.len(),
        forall|k: int| 0 <= k < r@.len() ==> (#[trigger] r@[k])@ == if column@[k]@.len() == 0 {
            "usual"@
        } else {
            column@[k]@
        },
        texts_view(r@) == names_or_usual(texts_view(column@)),
{
    let mut r: Vec<String> = Vec::new();
    let mut k: usize = 0;
    while k < column.len()
        invariant
            0 <= k <= column@.len(),
            r@.len() == k,
            forall|j: int| 0 <= j < k ==> (#[trigger] r@[j])@ == if column@[j]@.len() == 0 {
                "usual"@
            } else {
                column@[j]@
            },
        decreases column@.len() - k,
    {
        if column[k].as_str().is_empty() {
            r.push("usual".to_string());
        } else {
            r.push(column[k].clone());
        }
        k = k + 1;
    }
    assert(texts_view(r@) =~= names_or_usual(texts_view(column@)));
    r
}

/// Reads the criteria of a table with the columns `weight`,
/// `criteria_type`, `pref_function`, `q` and `p` (one row per criterion);
/// an empty `pref_function` names the usual shape.
pub fn df_to_criteria(df: &DataFrame) -> (r: Result<Criteria, MCDMRSError>)
    requires
        df.wf(),
    ensures
        r matches Ok(c) ==> c.wf() && c.len() == df.rows@.len() && criteria_fields(*df) == Ok::<_, MCDMRSError>(
            (c.weight@, c.criteria_type@, texts_view(c.pref_function@), c.q@, c.p@),
        ),
        r matches Err(e) ==> criteria_fields(*df) == Err::<(Seq<i64>, Seq<i64>, Seq<Seq<char>>, Seq<i64>, Seq<i64>), MCDMRSError>(e),
{
    proof {
        reveal_strlit("weight");
        reveal_strlit("criteria_type");
        reveal_strlit("pref_function");
        reveal_strlit("q");
        reveal_strlit("p");
    }
    let weight = parse_column(&df.column("weight")?)?;
    let criteria_type = parse_column(&df.column("criteria_type")?)?;
    let pref_function = pref_func_to_vec_string(&df.column("pref_function")?);
    let q = parse_column(&df.column("q")?)?;
    let p = parse_column(&df.column("p")?)?;
    proof {
        lemma_fixed_column_facts(column_spec(*df, "weight"@).unwrap());
        lemma_fixed_column_facts(column_spec(*df, "criteria_type"@).unwrap());
        lemma_fixed_column_facts(column_spec(*df, "q"@).unwrap());
        lemma_fixed_column_facts(column_spec(*df, "p"@).unwrap());
    }
    Criteria::new(weight, criteria_type, pref_function, q, p)
}

proof fn lemma_rows_error_stays(data: DataFrame, names: Seq<Seq<char>>, j: int, e: MCDMRSError)
    requires
        0 <= j <= names.len(),
        matrix_rows(data, names.take(j)) == Err::<Seq<Seq<i64>>, MCDMRSError>(e),
    ensures
        matrix_rows(data, names) == Err::<Seq<Seq<i64>>, MCDMRSError>(e),
    decreases names.len() - j,
{
    if j < names.len() {
        assert(names.take(j + 1).drop_last() =~= names.take(j));
        lemma_rows_error_stays(data, names, j + 1, e);
    } else {
        assert(names.take(j) =~= names);
    }
}

/// The rows named by `names`, each the values of the data column so named.
fn read_matrix(data: &DataFrame, names: &Vec<String>) -> (r: Result<Vec<Vec<i64>>, MCDMRSError>)
    requires
        data.wf(),
    ensures
        r matches Ok(m) ==> {
            &&& matrix_rows(*data, texts_view(names@)) == Ok::<Seq<Seq<i64>>, MCDMRSError>(mat_view(m@))
            &&& m@.len() == names@.len()
            &&& forall|j: int| 0 <= j < m@.len() ==> (#[trigger] m@[j])@.len() == data.rows@.len()
            &&& forall|j: int| 0 <= j < m@.len() ==> values_in_range((#[trigger] m@[j])@)
        },
        r matches Err(e) ==> matrix_rows(*data, texts_view(names@)) == Err::<Seq<Seq<i64>>, MCDMRSError>(e),
{
    let ghost nv = texts_view(names@);
    let mut matrix_t: Vec<Vec<i64>> = Vec::new();
    let mut k: usize = 0;
    proof {
        assert(mat_view(matrix_t@) =~= Seq::<Seq<i64>>::empty());
        assert(nv.take(0).len() == 0);
    }
    while k < names.len()
        invariant
            data.wf(),
            nv == texts_view(names@),
            0 <= k <= names@.len(),
            matrix_t@.len() == k,
            matrix_rows(*data, nv.take(k as int)) == Ok::<Seq<Seq<i64>>, MCDMRSError>(mat_view(matrix_t@)),
            forall|j: int| 0 <= j < k ==> (#[trigger] matrix_t@[j])@.len() == data.rows@.len(),
            forall|j: int| 0 <= j < k ==> values_in_range((#[trigger] matrix_t@[j])@),
        decreases names@.len() - k,
    {
        proof {
            assert(nv.take(k + 1).drop_last() =~= nv.take(k as int));
            assert(nv.take(k + 1).last() == names@[k as int]@);
        }
        let col = match data.column(names[k].as_str()) {
            Ok(c) => c,
            Err(e) => {
                proof {
                    lemma_rows_error_stays(*data, nv, k as int + 1, e);
                }
                return Err(e);
            },
        };
        let row = match parse_column(&col) {
            Ok(row) => row,
            Err(e) => {
                proof {
                    lemma_rows_error_stays(*data, nv, k as int + 1, e);
                }
                return Err(e);
            },
        };
        proof {
            lemma_fixed_column_facts(texts_view(col@));
            assert forall|a: int| 0 <= a < row@.len() implies in_value_range(#[trigger] row@[a] as int) by {
                assert(in_value_range(row@[a] as int));
            }
        }
        let ghost old_m = matrix_t@;
        matrix_t.push(row);
        proof {
            assert(mat_view(matrix_t@) =~= mat_view(old_m).push(row@));
        }
        k = k + 1;
    }
    proof {
        assert(nv.take(k as int) =~= nv);
    }
    Ok(matrix_t)
}

/// An analysis of the alternatives table `data` under the criteria table
/// `criteria`: the criteria's `name` column names, row by row, the
/// alternatives column that holds that criterion's values.
pub fn prom_from_tables(data: &DataFrame, criteria: &DataFrame) -> (r: Result<Prom, MCDMRSError>)
    requires
        data.wf(),
        criteria.wf(),
    ensures
        r matches Ok(p) ==> {
            &&& p.wf()
            &&& p.mc_flow is None && p.prom_i is None && p.prom_ii is None
            &&& prom_inputs(*data, *criteria) == Ok::<_, MCDMRSError>((
                mat_view(p.matrix_t@),
                (p.criteria.weight@, p.criteria.criteria_type@, texts_view(p.criteria.pref_function@), p.criteria.q@, p.criteria.p@),
            ))
        },
        r matches Err(e) ==> prom_inputs(*data, *criteria) == Err::<(Seq<Seq<i64>>, (Seq<i64>, Seq<i64>, Seq<Seq<char>>, Seq<i64>, Seq<i64>)), MCDMRSError>(e),
{
    proof {
        reveal_strlit("name");
    }
    let names = criteria.column("name")?;
    let matrix_t = read_matrix(data, &names)?;
    let c = df_to_criteria(criteria)?;
    proof {
        let mv = mat_view(matrix_t@);
        assert forall|j: int| 0 <= j < mv.len() implies (#[trigger] mv[j]).len() == data.rows@.len()
            && values_in_range(mv[j]) by {
            assert(mv[j] == matrix_t@[j]@);
        }
        if mv.len() > 0 {
            assert(mv[0] == matrix_t@[0]@);
        }
    }
    Prom::new(matrix_t, c)
}

} // verus!
