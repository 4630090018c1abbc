//! BRO CPT_O documents: common metadata and the measurements of the
//! 25-column `cptResult` data array, sorted by depth.

use vstd::prelude::*;

use crate::bro::{BroError, BroFailure, last_segment};
use crate::bro::collect::{CollectedXml, field_path_spec, find_leaf, leaf_value, opt_chars, pair_views};
use crate::bro::metadata::CommonMetadata;
use crate::number::{Number, Parsed, parse_number, parse_spec, simple, lemma_parse_simple, nat_text, nat_chars};
use crate::text::{chars_of, eq_chars, push_all, push_str, split_chars, split_on, string_of, trim, trim_chars, views};

verus! {

/// One measurement of a BRO CPT.
#[derive(Clone, Copy, Debug, PartialEq, Eq)]
pub struct CptMeasurement {
    pub depth: Number,
    pub cone_resistance: Option<Number>,
    pub sleeve_friction: Option<Number>,
    pub friction_ratio: Option<Number>,
    pub pore_pressure_u2: Option<Number>,
    pub inclination: Option<Number>,
}

/// A BRO CPT document.
#[derive(Clone, Debug)]
pub struct CptDocument {
    pub common: CommonMetadata,
    pub final_depth: Option<Number>,
    pub cone_type: Option<String>,
    pub measurements: Vec<CptMeasurement>,
    pub source_xml: Option<String>,
}

/// The BRO void value.
pub open spec fn is_void(n: Number) -> bool {
    n.num == -999999 * n.den
}

/// An optional number: empty is `None`; non-finite and void values are
/// `None`, and so is a number the library does not hold exactly (too large
/// or too precise); text that is not a number is invalid.
pub open spec fn optional_number(value: Seq<char>, path: Seq<char>) -> Result<Option<Number>, BroFailure> {
    let v = trim(value);
    if v.len() == 0 {
        Ok(None)
    } else {
        match parse_spec(v) {
            Parsed::Finite(n) => if is_void(n) {
                Ok(None)
            } else {
                Ok(Some(n))
            },
            Parsed::Invalid => Err(BroFailure::InvalidValue(path, v)),
            _ => Ok(None),
        }
    }
}

/// `{path}/{row}` and `{path}/{row}/{column}`.
pub open spec fn row_path(path: Seq<char>, row: nat) -> Seq<char> {
    path + "/"@ + nat_text(row)
}

pub open spec fn cell_path(path: Seq<char>, row: nat, col: nat) -> Seq<char> {
    row_path(path, row) + "/"@ + nat_text(col)
}

/// One row of 25 cells: depth (column 1, required), cone resistance (3),
/// inclination (15), sleeve friction (18), pore pressure u2 (22) and
/// friction ratio (24).
pub open spec fn measurement_spec(row: Seq<char>, path: Seq<char>, idx: nat) -> Result<CptMeasurement, BroFailure> {
    let cells = split_on(row, ',');
    if cells.len() != 25 {
        Err(BroFailure::InvalidValue(row_path(path, idx), trim(row)))
    } else {
        match optional_number(cells[1], cell_path(path, idx, 1)) {
            Err(f) => Err(f),
            Ok(None) => Err(BroFailure::InvalidValue(cell_path(path, idx, 1), trim(cells[1]))),
            Ok(Some(depth)) => match optional_number(cells[3], cell_path(path, idx, 3)) {
                Err(f) => Err(f),
                Ok(qc) => match optional_number(cells[18], cell_path(path, idx, 18)) {
                    Err(f) => Err(f),
                    Ok(fs) => match optional_number(cells[24], cell_path(path, idx, 24)) {
                        Err(f) => Err(f),
                        Ok(rf) => match optional_number(cells[22], cell_path(path, idx, 22)) {
                            Err(f) => Err(f),
                            Ok(u2) => match optional_number(cells[15], cell_path(path, idx, 15)) {
                                Err(f) => Err(f),
                                Ok(incl) => Ok(
                                    CptMeasurement {
                                        depth: depth,
                                        cone_resistance: qc,
                                        sleeve_friction: fs,
                                        friction_ratio: rf,
                                        pore_pressure_u2: u2,
                                        inclination: incl,
                                    },
                                ),
                            },
                        },
                    },
                },
            },
        }
    }
}

/// The measurements of rows `rows[i..]` (records separated by `;`, blank
/// records skipped and not counted), appended to `ms`.
pub open spec fn measurements_from(
    rows: Seq<Seq<char>>,
    i: int,
    path: Seq<char>,
    ms: Seq<CptMeasurement>,
) -> Result<Seq<CptMeasurement>, BroFailure>
    decreases rows.len() - i,
{
    if i < 0 || i >= rows.len() {
        Ok(ms)
    } else if trim(rows[i]).len() == 0 {
        measurements_from(rows, i + 1, path, ms)
    } else {
        match measurement_spec(rows[i], path, ms.len()) {
            Err(f) => Err(f),
            Ok(m) => measurements_from(rows, i + 1, path, ms.push(m)),
        }
    }
}

pub open spec fn measurements_spec(values: Seq<char>, path: Seq<char>) -> Result<Seq<CptMeasurement>, BroFailure> {
    measurements_from(split_on(values, ';'), 0, path, seq![])
}

pub open spec fn measurement_simple(m: CptMeasurement) -> bool {
    &&& simple(m.depth)
    &&& (m.cone_resistance matches Some(v) ==> simple(v))
    &&& (m.sleeve_friction matches Some(v) ==> simple(v))
    &&& (m.friction_ratio matches Some(v) ==> simple(v))
    &&& (m.pore_pressure_u2 matches Some(v) ==> simple(v))
    &&& (m.inclination matches Some(v) ==> simple(v))
}

pub fn optional_number_exec(value: &[char], path: &[char]) -> (r: Result<Option<Number>, BroError>)
    ensures
        match r {
            Ok(o) => optional_number(value@, path@) == Ok::<Option<Number>, BroFailure>(o) && (o matches Some(
                n,
            ) ==> simple(n)),
            Err(e) => optional_number(value@, path@) == Err::<Option<Number>, BroFailure>(e@),
        },
{
    let v = trim_chars(value);
    if v.len() == 0 {
        return Ok(None);
    }
    proof {
        lemma_parse_simple(v@);
    }
    match parse_number(&v) {
        Parsed::Finite(n) => {
            proof {
                crate::number::lemma_pow_facts();
            }
            if n.num == -999999 * n.den {
                Ok(None)
            } else {
                Ok(Some(n))
            }
        },
        Parsed::Invalid => Err(BroError::InvalidValue { path: string_of(path), value: string_of(&v) }),
        _ => Ok(None),
    }
}

fn row_path_exec(path: &[char], row: usize) -> (r: Vec<char>)
    ensures
        r@ == row_path(path@, row as nat),
{
    let mut p: Vec<char> = Vec::new();
    push_all(&mut p, path);
    push_str(&mut p, "/");
    let mut n = nat_chars(row as u128);
    p.append(&mut n);
    proof {
        assert(p@ =~= row_path(path@, row as nat));
    }
    p
}

fn cell_path_exec(path: &[char], row: usize, col: usize) -> (r: Vec<char>)
    ensures
        r@ == cell_path(path@, row as nat, col as nat),
{
    let mut p = row_path_exec(path, row);
    push_str(&mut p, "/");
    let mut n = nat_chars(col as u128);
    p.append(&mut n);
    p
}

fn cell(cells: &Vec<Vec<char>>, path: &[char], row: usize, col: usize) -> (r: Result<Option<Number>, BroError>)
    requires
        col < cells@.len(),
    ensures
        match r {
            Ok(o) => optional_number(cells@[col as int]@, cell_path(path@, row as nat, col as nat)) == Ok::<
                Option<Number>,
                BroFailure,
            >(o) && (o matches Some(n) ==> simple(n)),
            Err(e) => optional_number(cells@[col as int]@, cell_path(path@, row as nat, col as nat))
                == Err::<Option<Number>, BroFailure>(e@),
        },
{
    let p = cell_path_exec(path, row, col);
    optional_number_exec(&cells[col], &p)
}

fn measurement(row: &[char], path: &[char], idx: usize) -> (r: Result<CptMeasurement, BroError>)
    ensures
        match r {
            Ok(m) => measurement_spec(row@, path@, idx as nat) == Ok::<CptMeasurement, BroFailure>(m)
                && measurement_simple(m),
            Err(e) => measurement_spec(row@, path@, idx as nat) == Err::<CptMeasurement, BroFailure>(e@),
        },
{
    let cells = split_chars(row, ',');
    if cells.len() != 25 {
        let p = row_path_exec(path, idx);
        let t = trim_chars(row);
        return Err(BroError::InvalidValue { path: string_of(&p), value: string_of(&t) });
    }
    let depth = match cell(&cells, path, idx, 1) {
        Ok(Some(d)) => d,
        Ok(None) => {
            let p = cell_path_exec(path, idx, 1);
            let t = trim_chars(&cells[1]);
            return Err(BroError::InvalidValue { path: string_of(&p), value: string_of(&t) });
        },
        Err(e) => {
            return Err(e);
        },
    };
    let qc = match cell(&cells, path, idx, 3) {
        Ok(v) => v,
        Err(e) => {
            return Err(e);
        },
    };
    let fs = match cell(&cells, path, idx, 18) {
        Ok(v) => v,
        Err(e) => {
            return Err(e);
        },
    };
    let rf = match cell(&cells, path, idx, 24) {
        Ok(v) => v,
        Err(e) => {
            return Err(e);
        },
    };
    let u2 = match cell(&cells, path, idx, 22) {
        Ok(v) => v,
        Err(e) => {
            return Err(e);
        },
    };
    let incl = match cell(&cells, path, idx, 15) {
        Ok(v) => v,
        Err(e) => {
            return Err(e);
        },
    };
    Ok(
        CptMeasurement {
            depth,
            cone_resistance: qc,
            sleeve_friction: fs,
            friction_ratio: rf,
            pore_pressure_u2: u2,
            inclination: incl,
        },
    )
}

/// Reads the `;`-separated rows of a data array.
pub fn parse_measurements(values: &[char], path: &[char]) -> (r: Result<Vec<CptMeasurement>, BroError>)
    ensures
        match r {
            Ok(ms) => measurements_spec(values@, path@) == Ok::<Seq<CptMeasurement>, BroFailure>(ms@)
                && forall|j: int| 0 <= j < ms@.len() ==> measurement_simple(#[trigger] ms@[j]),
            Err(e) => measurements_spec(values@, path@) == Err::<Seq<CptMeasurement>, BroFailure>(e@),
        },
{
    let rows = split_chars(values, ';');
    let mut ms: Vec<CptMeasurement> = Vec::new();
    for i in 0..rows.len()
        invariant
            views(rows@) == split_on(values@, ';'),
            measurements_spec(values@, path@) == measurements_from(views(rows@), i as int, path@, ms@),
            forall|j: int| 0 <= j < ms@.len() ==> measurement_simple(#[trigger] ms@[j]),
    {
        let t = trim_chars(&rows[i]);
        if t.len() > 0 {
            match measurement(&rows[i], path, ms.len()) {
                Ok(m) => {
                    ms.push(m);
                },
                Err(e) => {
                    return Err(e);
                },
            }
        }
    }
    Ok(ms)
}

/// `a <= b` for exact numbers.
pub open spec fn num_le(a: Number, b: Number) -> bool {
    a.num * b.den <= b.num * a.den
}

pub fn num_le_exec(a: Number, b: Number) -> (r: bool)
    requires
        simple(a),
        simple(b),
    ensures
        r == num_le(a, b),
{
    proof {
        crate::number::lemma_pow_facts();
        assert(-100000000000000000000000000000000000 < a.num * b.den < 100000000000000000000000000000000000)
            by (nonlinear_arith)
            requires
                -100000000000000000 < a.num < 100000000000000000,
                0 < b.den <= 1000000000000000000,
        ;
        assert(-100000000000000000000000000000000000 < b.num * a.den < 100000000000000000000000000000000000)
            by (nonlinear_arith)
            requires
                -100000000000000000 < b.num < 100000000000000000,
                0 < a.den <= 1000000000000000000,
        ;
    }
    a.num * b.den <= b.num * a.den
}

/// Inserts `m` after every measurement at most as deep, keeping the order
/// of equal depths (one step of a stable insertion sort).
pub open spec fn insert_sorted(s: Seq<CptMeasurement>, m: CptMeasurement) -> Seq<CptMeasurement>
    decreases s.len(),
{
    if s.len() == 0 {
        seq![m]
    } else if num_le(s.last().depth, m.depth) {
        s.push(m)
    } else {
        insert_sorted(s.drop_last(), m).push(s.last())
    }
}

/// Measurements in ascending depth, equal depths in their original order.
pub open spec fn sort_by_depth(s: Seq<CptMeasurement>) -> Seq<CptMeasurement>
    decreases s.len(),
{
    if s.len() == 0 {
        seq![]
    } else {
        insert_sorted(sort_by_depth(s.drop_last()), s.last())
    }
}

fn insert_sorted_exec(v: &mut Vec<CptMeasurement>, m: CptMeasurement)
    requires
        forall|j: int| 0 <= j < old(v)@.len() ==> measurement_simple(#[trigger] old(v)@[j]),
        measurement_simple(m),
    ensures
        final(v)@ == insert_sorted(old(v)@, m),
        forall|j: int| 0 <= j < final(v)@.len() ==> measurement_simple(#[trigger] final(v)@[j]),
{
    let ghost s = v@;
    let mut k = v.len();
    proof {
        assert(s.take(k as int) =~= s);
        assert(insert_sorted(s, m) + s.subrange(k as int, s.len() as int) =~= insert_sorted(s, m));
    }
    while k > 0 && !num_le_exec(v[k - 1].depth, m.depth)
        invariant
            k <= v@.len(),
            v@ == s,
            forall|j: int| 0 <= j < v@.len() ==> measurement_simple(#[trigger] v@[j]),
            measurement_simple(m),
            insert_sorted(s, m) == insert_sorted(s.take(k as int), m) + s.subrange(k as int, s.len() as int),
        decreases k,
    {
        proof {
            let t = s.take(k as int);
            assert(t.drop_last() =~= s.take(k - 1));
            assert(t.last() == s[k - 1]);
            assert(insert_sorted(t, m) == insert_sorted(s.take(k - 1), m).push(s[k - 1]));
            assert(insert_sorted(s.take(k - 1), m).push(s[k - 1]) + s.subrange(k as int, s.len() as int)
                =~= insert_sorted(s.take(k - 1), m) + s.subrange(k - 1, s.len() as int));
        }
        k = k - 1;
    }
    proof {
        let t = s.take(k as int);
        assert(insert_sorted(t, m) == t.push(m));
    }
    v.insert(k, m);
    proof {
        assert(v@ =~= s.take(k as int).push(m) + s.subrange(k as int, s.len() as int));
    }
}

/// Sorts measurements by depth, keeping the order of equal depths.
pub fn sort_measurements(ms: Vec<CptMeasurement>) -> (r: Vec<CptMeasurement>)
    requires
        forall|j: int| 0 <= j < ms@.len() ==> measurement_simple(#[trigger] ms@[j]),
    ensures
        r@ == sort_by_depth(ms@),
        forall|j: int| 0 <= j < r@.len() ==> measurement_simple(#[trigger] r@[j]),
{
    let mut out: Vec<CptMeasurement> = Vec::new();
    for i in 0..ms.len()
        invariant
            forall|j: int| 0 <= j < ms@.len() ==> measurement_simple(#[trigger] ms@[j]),
            out@ == sort_by_depth(ms@.take(i as int)),
            forall|j: int| 0 <= j < out@.len() ==> measurement_simple(#[trigger] out@[j]),
    {
        proof {
            assert(ms@.take(i + 1).drop_last() =~= ms@.take(i as int));
            assert(ms@.take(i + 1).last() == ms@[i as int]);
        }
        insert_sorted_exec(&mut out, ms[i]);
    }
    proof {
        assert(ms@.take(ms@.len() as int) =~= ms@);
    }
    out
}

/// A leaf whose path runs through `cptResult`.
pub open spec fn in_cpt_result(p: Seq<char>) -> bool {
    exists|i: int| 0 <= i < split_on(p, '/').len() && #[trigger] split_on(p, '/')[i] == "cptResult"@
}

/// Index of the first `values` leaf inside `cptResult` at or after `i`.
pub open spec fn find_values(leaves: Seq<(Seq<char>, Seq<char>)>, i: int) -> int
    decreases leaves.len() - i,
{
    if i < 0 || i >= leaves.len() {
        leaves.len() as int
    } else if last_segment(leaves[i].0) == "values"@ && in_cpt_result(leaves[i].0) {
        i
    } else {
        find_values(leaves, i + 1)
    }
}

/// The data array of the CPT result, if present.
pub open spec fn result_values(leaves: Seq<(Seq<char>, Seq<char>)>) -> Option<Seq<char>> {
    let j = find_values(leaves, 0);
    if 0 <= j < leaves.len() {
        Some(leaves[j].1)
    } else {
        None
    }
}

/// Where the data array is (or would be).
pub open spec fn result_values_path(leaves: Seq<(Seq<char>, Seq<char>)>, root: Option<Seq<char>>) -> Seq<char> {
    let j = find_values(leaves, 0);
    if 0 <= j < leaves.len() {
        leaves[j].0
    } else {
        field_path_spec(leaves, root, "values"@)
    }
}

fn through_cpt_result(p: &[char]) -> (r: bool)
    ensures
        r == in_cpt_result(p@),
{
    let segs = split_chars(p, '/');
    let key = chars_of("cptResult");
    for i in 0..segs.len()
        invariant
            views(segs@) == split_on(p@, '/'),
            key@ == "cptResult"@,
            forall|j: int| 0 <= j < i ==> #[trigger] split_on(p@, '/')[j] != "cptResult"@,
    {
        if eq_chars(&segs[i], &key) {
            proof {
                assert(split_on(p@, '/')[i as int] == "cptResult"@);
            }
            return true;
        }
    }
    false
}

impl CollectedXml {
    /// Index of the data array leaf of the CPT result.
    pub fn values_index(&self) -> (r: usize)
        ensures
            r == find_values(self.leaves_view(), 0),
            r <= self.leaves@.len(),
    {
        let key = chars_of("values");
        for i in 0..self.leaves.len()
            invariant
                key@ == "values"@,
                find_values(self.leaves_view(), 0) == find_values(self.leaves_view(), i as int),
        {
            let seg = crate::bro::last_segment_chars(&self.leaves[i].0);
            if eq_chars(&seg, &key) && through_cpt_result(&self.leaves[i].0) {
                return i;
            }
        }
        self.leaves.len()
    }
}

/// Each measurement is at most as deep as the next.
pub open spec fn depth_ordered(s: Seq<CptMeasurement>) -> bool {
    forall|i: int| 0 <= i < s.len() - 1 ==> num_le(#[trigger] s[i].depth, s[i + 1].depth)
}

proof fn lemma_insert_last(s: Seq<CptMeasurement>, m: CptMeasurement)
    ensures
        insert_sorted(s, m).len() == s.len() + 1,
        insert_sorted(s, m).last() == m || (s.len() > 0 && insert_sorted(s, m).last() == s.last()),
        s.len() > 0 && !num_le(s.last().depth, m.depth) ==> insert_sorted(s, m).last() == s.last(),
    decreases s.len(),
{
    if s.len() > 0 && !num_le(s.last().depth, m.depth) {
        lemma_insert_last(s.drop_last(), m);
    }
}

proof fn lemma_insert_ordered(s: Seq<CptMeasurement>, m: CptMeasurement)
    requires
        depth_ordered(s),
    ensures
        depth_ordered(insert_sorted(s, m)),
        insert_sorted(s, m).to_multiset() == s.to_multiset().insert(m),
    decreases s.len(),
{
    broadcast use vstd::seq_lib::group_to_multiset_ensures;

    if s.len() == 0 {
        assert(seq![m] =~= Seq::<CptMeasurement>::empty().push(m));
    } else if num_le(s.last().depth, m.depth) {
    } else {
        let t = s.drop_last();
        assert forall|i: int| 0 <= i < t.len() - 1 implies num_le(#[trigger] t[i].depth, t[i + 1].depth) by {
            assert(t[i] == s[i] && t[i + 1] == s[i + 1]);
        }
        lemma_insert_ordered(t, m);
        lemma_insert_last(t, m);
        let r = insert_sorted(t, m);
        if t.len() > 0 {
            assert(num_le(s[s.len() - 2].depth, s[s.len() - 1].depth));
        }
        assert(num_le(r.last().depth, s.last().depth));
        let out = r.push(s.last());
        assert forall|i: int| 0 <= i < out.len() - 1 implies num_le(#[trigger] out[i].depth, out[i + 1].depth) by {
            if i < r.len() - 1 {
                assert(out[i] == r[i] && out[i + 1] == r[i + 1]);
            } else {
                assert(out[i] == r.last());
            }
        }
        assert(s =~= t.push(s.last()));
    }
}

/// Sorting by depth orders the measurements by depth and keeps each of
/// them, as often as it occurs.
pub proof fn law_sort_by_depth(s: Seq<CptMeasurement>)
    ensures
        depth_ordered(sort_by_depth(s)),
        sort_by_depth(s).to_multiset() == s.to_multiset(),
    decreases s.len(),
{
    broadcast use vstd::seq_lib::group_to_multiset_ensures;

    if s.len() > 0 {
        law_sort_by_depth(s.drop_last());
        lemma_insert_ordered(sort_by_depth(s.drop_last()), s.last());
        assert(s =~= s.drop_last().push(s.last()));
    }
}

/// No value of a measurement is the BRO void value.
pub open spec fn no_void(m: CptMeasurement) -> bool {
    &&& !is_void(m.depth)
    &&& (m.cone_resistance matches Some(v) ==> !is_void(v))
    &&& (m.sleeve_friction matches Some(v) ==> !is_void(v))
    &&& (m.friction_ratio matches Some(v) ==> !is_void(v))
    &&& (m.pore_pressure_u2 matches Some(v) ==> !is_void(v))
    &&& (m.inclination matches Some(v) ==> !is_void(v))
}

proof fn lemma_rows_no_void(rows: Seq<Seq<char>>, i: int, path: Seq<char>, ms: Seq<CptMeasurement>)
    requires
        forall|j: int| 0 <= j < ms.len() ==> no_void(#[trigger] ms[j]),
    ensures
        measurements_from(rows, i, path, ms) matches Ok(r) ==> forall|j: int| 0 <= j < r.len() ==> no_void(#[trigger] r[j]),
    decreases rows.len() - i,
{
    if i < 0 || i >= rows.len() {
    } else if trim(rows[i]).len() == 0 {
        lemma_rows_no_void(rows, i + 1, path, ms);
    } else {
        match measurement_spec(rows[i], path, ms.len()) {
            Err(_) => {},
            Ok(m) => {
                let ms2 = ms.push(m);
                assert forall|j: int| 0 <= j < ms2.len() implies no_void(#[trigger] ms2[j]) by {
                    if j < ms.len() {
                        assert(ms2[j] == ms[j]);
                    }
                }
                lemma_rows_no_void(rows, i + 1, path, ms2);
            },
        }
    }
}

/// The void value never reaches a measurement: a void cell is read as
/// absent, and a void depth refuses the row.
pub proof fn law_void_values_are_absent(values: Seq<char>, path: Seq<char>)
    ensures
        measurements_spec(values, path) matches Ok(ms) ==> forall|j: int| 0 <= j < ms.len() ==> no_void(#[trigger] ms[j]),
{
    lemma_rows_no_void(split_on(values, ';'), 0, path, seq![]);
}

} // verus!
