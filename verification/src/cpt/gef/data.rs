//! GEF data section and the whole-file reader.
//!
//! After `#EOH=` each record holds the values of one measurement. Records
//! are lines unless `#RECORDSEPARATOR=` names a character; values are
//! separated by whitespace unless `#COLUMNSEPARATOR=` names a character.

use vstd::prelude::*;

use crate::calendar::Date;
use crate::cpt::{Cpt, CptError, MeasurementPoint, Metadata, Position, point_ok, cpt_ok};
use crate::cpt::gef::columns::{GefField, field_of};
use crate::cpt::gef::header::{
    ColumnSpec,
    GefHeader,
    HeaderModel,
    HeaderFailure,
    header_spec,
    header_error,
    header_simple,
    failure_error,
    opt_view,
    scan_header_lines,
    scan_header,
    header_line,
    is_eoh,
    empty_model,
};
use crate::keyed::KeyedVec;
use crate::number::{Number, Parsed, parse_spec, parse_number, simple, bounded, lemma_parse_simple, lemma_pow_facts};
use crate::text::{
    chars_of,
    join,
    join_from,
    lines_chars,
    lines_of,
    normalize_newlines,
    normalize_newlines_chars,
    slice_vec,
    split_chars,
    split_on,
    split_ws,
    split_ws_chars,
    starts_with,
    starts_with_chars,
    string_of,
    trim,
    trim_chars,
    views,
};

verus! {

pub open spec fn first_char(s: Seq<char>) -> Option<char> {
    if s.len() > 0 {
        Some(s[0])
    } else {
        None
    }
}

/// The separator a `#...SEPARATOR=` line declares: the first character of
/// its trimmed value.
pub open spec fn declared(t: Seq<char>, prefix: Seq<char>) -> Option<char> {
    first_char(trim(t.subrange(prefix.len() as int, t.len() as int)))
}

/// Column and record separators declared anywhere in the file; a later
/// declaration replaces an earlier one.
pub open spec fn separators(lines: Seq<Seq<char>>) -> (Option<char>, Option<char>)
    decreases lines.len(),
{
    if lines.len() == 0 {
        (None, None)
    } else {
        let prev = separators(lines.drop_last());
        let t = trim(lines.last());
        if starts_with(t, "#COLUMNSEPARATOR="@) {
            (declared(t, "#COLUMNSEPARATOR="@), prev.1)
        } else if starts_with(t, "#RECORDSEPARATOR="@) {
            (prev.0, declared(t, "#RECORDSEPARATOR="@))
        } else {
            prev
        }
    }
}

/// The records of the data section.
pub open spec fn records(body: Seq<char>, rec: Option<char>) -> Seq<Seq<char>> {
    match rec {
        Some(rs) => split_on(body, rs),
        None => lines_of(body),
    }
}

/// The value tokens of a trimmed record.
pub open spec fn record_tokens(t: Seq<char>, col: Option<char>) -> Seq<Seq<char>> {
    match col {
        Some(cs) => split_on(t, cs),
        None => split_ws(t),
    }
}

/// The numbers among `ts[i..]` appended to `vs`: tokens that are not numbers
/// are skipped; `None` when one is a number the library cannot hold.
pub open spec fn values_from(ts: Seq<Seq<char>>, i: int, vs: Seq<Number>) -> Option<Seq<Number>>
    decreases ts.len() - i,
{
    if i < 0 || i >= ts.len() {
        Some(vs)
    } else {
        let t = trim(ts[i]);
        if t.len() == 0 {
            values_from(ts, i + 1, vs)
        } else {
            match parse_spec(t) {
                Parsed::Finite(n) => values_from(ts, i + 1, vs.push(n)),
                Parsed::Invalid => values_from(ts, i + 1, vs),
                _ => None,
            }
        }
    }
}

pub open spec fn abs_num(n: Number) -> Number {
    Number { num: (if n.num < 0 { -n.num } else { n.num as int }) as i128, den: n.den }
}

/// `|a - b| < 10^-6`.
pub open spec fn near(a: Number, b: Number) -> bool {
    let d = a.num * b.den - b.num * a.den;
    (if d < 0 { -d } else { d }) * 1000000 < a.den * b.den
}

/// The header declares `raw` void for column `c`.
pub open spec fn voided(voids: Seq<(usize, Number)>, c: usize, raw: Number) -> bool {
    exists|j: int| 0 <= j < voids.len() && voids[j].0 == c && #[trigger] near(raw, voids[j].1)
}

pub open spec fn blank_point() -> MeasurementPoint {
    MeasurementPoint {
        depth: Number { num: 0, den: 1 },
        depth_nap: None,
        qc: None,
        fs: None,
        rf: None,
        u2: None,
        inclination: None,
    }
}

/// One declared column applied to the point built so far (and whether a
/// depth was seen); `None` when the record has no such column.
pub open spec fn column_step(
    spec: ColumnSpec,
    nums: Seq<Number>,
    voids: Seq<(usize, Number)>,
    p: MeasurementPoint,
    have: bool,
) -> Option<(MeasurementPoint, bool)> {
    if spec.index < 1 || spec.index > nums.len() {
        None
    } else {
        let raw = nums[spec.index - 1];
        let value = if voided(voids, spec.index, raw) {
            None
        } else {
            Some(raw)
        };
        match spec.field {
            GefField::Length | GefField::Depth => match value {
                Some(v) => Some((MeasurementPoint { depth: abs_num(v), ..p }, true)),
                None => Some((p, have)),
            },
            GefField::Qc => Some((MeasurementPoint { qc: value, ..p }, have)),
            GefField::Fs => Some((MeasurementPoint { fs: value, ..p }, have)),
            GefField::Rf => Some((MeasurementPoint { rf: value, ..p }, have)),
            GefField::U2 => Some((MeasurementPoint { u2: value, ..p }, have)),
            GefField::Inclination => Some((MeasurementPoint { inclination: value, ..p }, have)),
            _ => Some((p, have)),
        }
    }
}

pub open spec fn columns_from(
    cols: Seq<ColumnSpec>,
    i: int,
    nums: Seq<Number>,
    voids: Seq<(usize, Number)>,
    p: MeasurementPoint,
    have: bool,
) -> Option<(MeasurementPoint, bool)>
    decreases cols.len() - i,
{
    if i < 0 || i >= cols.len() {
        Some((p, have))
    } else {
        match column_step(cols[i], nums, voids, p, have) {
            Some((p2, h2)) => columns_from(cols, i + 1, nums, voids, p2, h2),
            None => None,
        }
    }
}

/// `100 * fs / qc` for `qc > 0`.
pub open spec fn friction_ratio(fs: Number, qc: Number) -> Number {
    Number { num: (100 * fs.num * qc.den) as i128, den: (fs.den * qc.num) as i128 }
}

/// `z - d`.
pub open spec fn level_below(z: Number, d: Number) -> Number {
    Number { num: (z.num * d.den - d.num * z.den) as i128, den: (z.den * d.den) as i128 }
}

/// Derives `rf` from `qc` and `fs` when it is missing and `qc > 0`, and the
/// NAP level from the ground level.
pub open spec fn complete_point(p: MeasurementPoint, z: Option<Number>) -> MeasurementPoint {
    let rf = match (p.rf, p.qc, p.fs) {
        (None, Some(qc), Some(fs)) => if qc.num > 0 {
            Some(friction_ratio(fs, qc))
        } else {
            None
        },
        _ => p.rf,
    };
    let nap = match z {
        Some(zv) => Some(level_below(zv, p.depth)),
        None => p.depth_nap,
    };
    MeasurementPoint { rf: rf, depth_nap: nap, ..p }
}

/// The point a record's numbers make, if the record has every declared
/// column and a depth.
pub open spec fn point_spec(nums: Seq<Number>, h: HeaderModel) -> Option<MeasurementPoint> {
    match columns_from(h.columns, 0, nums, h.column_void, blank_point(), false) {
        Some((p, true)) => Some(complete_point(p, h.z_nap)),
        _ => None,
    }
}

/// The points of `recs[i..]` appended to `ps`. A record holding a number
/// the library does not hold exactly (not finite, or too large or too
/// precise) is left out, as is one that makes no point.
pub open spec fn points_from(
    recs: Seq<Seq<char>>,
    i: int,
    col: Option<char>,
    h: HeaderModel,
    ps: Seq<MeasurementPoint>,
) -> Seq<MeasurementPoint>
    decreases recs.len() - i,
{
    if i < 0 || i >= recs.len() {
        ps
    } else {
        let t = trim(recs[i]);
        if t.len() == 0 {
            points_from(recs, i + 1, col, h, ps)
        } else {
            match values_from(record_tokens(t, col), 0, seq![]) {
                None => points_from(recs, i + 1, col, h, ps),
                Some(nums) => if nums.len() == 0 {
                    points_from(recs, i + 1, col, h, ps)
                } else {
                    match point_spec(nums, h) {
                        Some(p) => points_from(recs, i + 1, col, h, ps.push(p)),
                        None => points_from(recs, i + 1, col, h, ps),
                    }
                },
            }
        }
    }
}

/// The header and the points of a GEF text, or why it cannot be read.
pub open spec fn gef_spec(text: Seq<char>) -> Result<(HeaderModel, Seq<MeasurementPoint>), HeaderFailure> {
    let lines = lines_of(normalize_newlines(text));
    match header_spec(lines) {
        Err(f) => Err(f),
        Ok((h, start)) => {
            let seps = separators(lines);
            let body = join(lines.subrange(start, lines.len() as int), '\n');
            Ok((h, points_from(records(body, seps.1), 0, seps.0, h, seq![])))
        },
    }
}

/// The CPT a read header and its points make.
pub open spec fn cpt_of_header(cpt: Cpt, h: HeaderModel, ps: Seq<MeasurementPoint>) -> bool {
    &&& cpt.id@ == (match h.test_id {
        Some(t) => t,
        None => "Unknown"@,
    })
    &&& opt_view(cpt.metadata.project_name) == h.project_name
    &&& opt_view(cpt.metadata.project_number) == h.project_id
    &&& cpt.metadata.date == (if h.start_date is Some {
        h.start_date
    } else {
        h.date
    })
    &&& opt_view(cpt.metadata.equipment) == h.company_id
    &&& cpt.metadata.ground_level_nap == h.z_nap
    &&& cpt.metadata.source_file@ == Seq::<char>::empty()
    &&& cpt.metadata.extra.entries() == Seq::<(Seq<char>, String)>::empty()
    &&& cpt.position == (match (h.x_rd, h.y_rd) {
        (Some(x), Some(y)) => Some(Position { x_rd: x, y_rd: y, z_nap: h.z_nap }),
        _ => None,
    })
    &&& cpt.points@ == ps
}

fn extract_separators(lines: &Vec<Vec<char>>) -> (r: (Option<char>, Option<char>))
    ensures
        r == separators(views(lines@)),
{
    let cp = chars_of("#COLUMNSEPARATOR=");
    let rp = chars_of("#RECORDSEPARATOR=");
    let mut col: Option<char> = None;
    let mut rec: Option<char> = None;
    for i in 0..lines.len()
        invariant
            cp@ == "#COLUMNSEPARATOR="@,
            rp@ == "#RECORDSEPARATOR="@,
            (col, rec) == separators(views(lines@).take(i as int)),
    {
        let t = trim_chars(&lines[i]);
        proof {
            assert(views(lines@).take(i + 1).drop_last() =~= views(lines@).take(i as int));
            assert(views(lines@).take(i + 1).last() == lines@[i as int]@);
        }
        if starts_with_chars(&t, &cp) {
            let v = slice_vec(&t, cp.len(), t.len());
            let v = trim_chars(&v);
            col = if v.len() > 0 {
                Some(v[0])
            } else {
                None
            };
        } else if starts_with_chars(&t, &rp) {
            let v = slice_vec(&t, rp.len(), t.len());
            let v = trim_chars(&v);
            rec = if v.len() > 0 {
                Some(v[0])
            } else {
                None
            };
        }
    }
    proof {
        assert(views(lines@).take(lines@.len() as int) =~= views(lines@));
    }
    (col, rec)
}

/// The numbers among the tokens, as `str::parse::<f64>` reads them; `None`
/// when one is a number the library cannot hold.
pub fn token_values(ts: &Vec<Vec<char>>) -> (r: Option<Vec<Number>>)
    ensures
        match r {
            Some(v) => values_from(views(ts@), 0, seq![]) == Some(v@) && forall|j: int|
                0 <= j < v@.len() ==> simple(#[trigger] v@[j]),
            None => values_from(views(ts@), 0, seq![]) is None,
        },
{
    let mut vs: Vec<Number> = Vec::new();
    for i in 0..ts.len()
        invariant
            values_from(views(ts@), 0, seq![]) == values_from(views(ts@), i as int, vs@),
            forall|j: int| 0 <= j < vs@.len() ==> simple(#[trigger] vs@[j]),
    {
        let t = trim_chars(&ts[i]);
        if t.len() > 0 {
            proof {
                lemma_parse_simple(t@);
            }
            match parse_number(&t) {
                Parsed::Finite(n) => {
                    vs.push(n);
                },
                Parsed::Invalid => {},
                _ => {
                    return None;
                },
            }
        }
    }
    Some(vs)
}

fn near_exec(a: Number, b: Number) -> (r: bool)
    requires
        simple(a),
        simple(b),
    ensures
        r == near(a, b),
{
    proof {
        lemma_pow_facts();
        assert(-100000000000000000000000000000000000 < a.num * b.den < 100000000000000000000000000000000000)
            by (nonlinear_arith)
            requires
                -100000000000000000 < a.num < 100000000000000000,
                0 < b.den <= 1000000000000000000,
        ;
        assert(-100000000000000000000000000000000000 < b.num * a.den < 100000000000000000000000000000000000)
            by (nonlinear_arith)
            requires
                -100000000000000000 < b.num < 100000000000000000,
                0 < a.den <= 1000000000000000000,
        ;
        assert(0 < a.den * b.den <= 1000000000000000000000000000000000000) by (nonlinear_arith)
            requires
                0 < a.den <= 1000000000000000000,
                0 < b.den <= 1000000000000000000,
        ;
    }
    let d = a.num * b.den - b.num * a.den;
    let ad = if d < 0 {
        -d
    } else {
        d
    };
    let den = a.den * b.den;
    let q = (den - 1) / 1000000;
    proof {
        assert((ad <= q) == (ad * 1000000 < den)) by (nonlinear_arith)
            requires
                ad >= 0,
                den >= 1,
                q == (den - 1) / 1000000,
        ;
    }
    ad <= q
}

fn is_voided(voids: &Vec<(usize, Number)>, c: usize, raw: Number) -> (r: bool)
    requires
        simple(raw),
        forall|j: int| 0 <= j < voids@.len() ==> simple(#[trigger] voids@[j].1),
    ensures
        r == voided(voids@, c, raw),
{
    for i in 0..voids.len()
        invariant
            simple(raw),
            forall|j: int| 0 <= j < voids@.len() ==> simple(#[trigger] voids@[j].1),
            forall|j: int| 0 <= j < i ==> !(voids@[j].0 == c && #[trigger] near(raw, voids@[j].1)),
    {
        let (vc, vv) = voids[i];
        proof {
            assert(simple(voids@[i as int].1));
        }
        if vc == c && near_exec(raw, vv) {
            return true;
        }
    }
    false
}

fn abs_exec(n: Number) -> (r: Number)
    requires
        simple(n),
    ensures
        r == abs_num(n),
        simple(r),
{
    proof {
        lemma_pow_facts();
    }
    Number {
        num: if n.num < 0 {
            -n.num
        } else {
            n.num
        },
        den: n.den,
    }
}

pub fn complete(p: MeasurementPoint, z: Option<Number>) -> (r: MeasurementPoint)
    requires
        simple(p.depth),
        p.depth_nap is None,
        p.qc matches Some(q) ==> simple(q),
        p.fs matches Some(f) ==> simple(f),
        p.rf matches Some(f) ==> simple(f),
        p.u2 matches Some(u) ==> simple(u),
        p.inclination matches Some(a) ==> simple(a),
        z matches Some(v) ==> simple(v),
    ensures
        r == complete_point(p, z),
        point_ok(r),
{
    proof {
        lemma_pow_facts();
    }
    let mut r = p;
    match (p.rf, p.qc, p.fs) {
        (None, Some(qc), Some(fs)) => {
            if qc.num > 0 {
                proof {
                    assert(-10000000000000000000000000000000000000 < 100 * fs.num * qc.den
                        < 10000000000000000000000000000000000000) by (nonlinear_arith)
                        requires
                            -100000000000000000 < fs.num < 100000000000000000,
                            0 < qc.den <= 1000000000000000000,
                    ;
                    assert(0 < fs.den * qc.num <= 100000000000000000000000000000000000)
                        by (nonlinear_arith)
                        requires
                            0 < fs.den <= 1000000000000000000,
                            0 < qc.num < 100000000000000000,
                    ;
                }
                r.rf = Some(Number { num: 100 * fs.num * qc.den, den: fs.den * qc.num });
            }
        },
        _ => {},
    }
    match z {
        Some(zv) => {
            proof {
                let d = p.depth;
                assert(-100000000000000000000000000000000000 < zv.num * d.den
                    < 100000000000000000000000000000000000) by (nonlinear_arith)
                    requires
                        -100000000000000000 < zv.num < 100000000000000000,
                        0 < d.den <= 1000000000000000000,
                ;
                assert(-100000000000000000000000000000000000 < d.num * zv.den
                    < 100000000000000000000000000000000000) by (nonlinear_arith)
                    requires
                        -100000000000000000 < d.num < 100000000000000000,
                        0 < zv.den <= 1000000000000000000,
                ;
                assert(0 < zv.den * d.den <= 1000000000000000000000000000000000000)
                    by (nonlinear_arith)
                    requires
                        0 < zv.den <= 1000000000000000000,
                        0 < d.den <= 1000000000000000000,
                ;
            }
            r.depth_nap = Some(
                Number {
                    num: zv.num * p.depth.den - p.depth.num * zv.den,
                    den: zv.den * p.depth.den,
                },
            );
        },
        None => {},
    }
    r
}

/// Builds the point of one record from its numbers; `None` when a declared
/// column is missing from the record or no depth was given.
fn build_point(nums: &Vec<Number>, header: &GefHeader) -> (r: Option<MeasurementPoint>)
    requires
        forall|j: int| 0 <= j < nums@.len() ==> simple(#[trigger] nums@[j]),
        header_simple(header@),
    ensures
        r == point_spec(nums@, header@),
        r matches Some(p) ==> point_ok(p),
{
    let mut p = MeasurementPoint {
        depth: Number { num: 0, den: 1 },
        depth_nap: None,
        qc: None,
        fs: None,
        rf: None,
        u2: None,
        inclination: None,
    };
    let mut have = false;
    proof {
        lemma_pow_facts();
    }
    let cols = &header.columns;
    for i in 0..cols.len()
        invariant
            cols@ == header@.columns,
            forall|j: int| 0 <= j < nums@.len() ==> simple(#[trigger] nums@[j]),
            header_simple(header@),
            columns_from(header@.columns, 0, nums@, header@.column_void, blank_point(), false)
                == columns_from(header@.columns, i as int, nums@, header@.column_void, p, have),
            simple(p.depth),
            p.depth_nap is None,
            p.qc matches Some(q) ==> simple(q),
            p.fs matches Some(f) ==> simple(f),
            p.rf matches Some(f) ==> simple(f),
            p.u2 matches Some(u) ==> simple(u),
            p.inclination matches Some(a) ==> simple(a),
    {
        let spec = cols[i];
        if spec.index < 1 || spec.index > nums.len() {
            return None;
        }
        let raw = nums[spec.index - 1];
        let value = if is_voided(&header.column_void, spec.index, raw) {
            None
        } else {
            Some(raw)
        };
        match spec.field {
            GefField::Length | GefField::Depth => {
                match value {
                    Some(v) => {
                        p.depth = abs_exec(v);
                        have = true;
                    },
                    None => {},
                }
            },
            GefField::Qc => {
                p.qc = value;
            },
            GefField::Fs => {
                p.fs = value;
            },
            GefField::Rf => {
                p.rf = value;
            },
            GefField::U2 => {
                p.u2 = value;
            },
            GefField::Inclination => {
                p.inclination = value;
            },
            _ => {},
        }
    }
    if !have {
        return None;
    }
    Some(complete(p, header.z_nap))
}

/// `r` is what reading the GEF text `text` gives.
pub open spec fn gef_read(r: Result<Cpt, CptError>, text: Seq<char>) -> bool {
    match r {
        Ok(cpt) => gef_spec(text) matches Ok((h, ps)) && cpt_of_header(cpt, h, ps),
        Err(e) => gef_spec(text) matches Err(f) && header_error(e, f),
    }
}

/// Reads a GEF file: header, data records and the CPT they describe.
///
/// Fails with `InvalidGef("missing #EOH terminator")` when the header never
/// ends, and only then. A header value or a record holding a number the
/// library does not hold exactly (not finite, or too large or too precise)
/// leaves that value unset or that record out.
pub fn parse(text: &str) -> (r: Result<Cpt, CptError>)
    ensures
        gef_read(r, text@),
        r matches Ok(cpt) ==> cpt_ok(cpt),
{
    let raw = chars_of(text);
    let norm = normalize_newlines_chars(&raw);
    let lines = lines_chars(&norm);
    let (header, data_start) = match scan_header_lines(&lines) {
        Ok(x) => x,
        Err(e) => {
            return Err(e);
        },
    };
    let (col_sep, rec_sep) = extract_separators(&lines);
    let body = join_from(&lines, data_start, '\n');
    let recs = match rec_sep {
        Some(rs) => split_chars(&body, rs),
        None => lines_chars(&body),
    };
    let ghost h = header@;
    let ghost rs = views(recs@);
    let mut points: Vec<MeasurementPoint> = Vec::new();
    proof {
        assert(gef_spec(text@) == Ok::<(HeaderModel, Seq<MeasurementPoint>), HeaderFailure>(
            (h, points_from(rs, 0, col_sep, h, seq![])),
        ));
    }
    for i in 0..recs.len()
        invariant
            gef_spec(text@) == Ok::<(HeaderModel, Seq<MeasurementPoint>), HeaderFailure>(
                (h, points_from(rs, 0, col_sep, h, seq![])),
            ),
            rs == views(recs@),
            h == header@,
            header_simple(h),
            points_from(rs, 0, col_sep, h, seq![]) == points_from(rs, i as int, col_sep, h, points@),
            forall|j: int| 0 <= j < points@.len() ==> point_ok(#[trigger] points@[j]),
    {
        let t = trim_chars(&recs[i]);
        if t.len() > 0 {
            let toks = match col_sep {
                Some(cs) => split_chars(&t, cs),
                None => split_ws_chars(&t),
            };
            match token_values(&toks) {
                None => {},
                Some(nums) => {
                    if nums.len() > 0 {
                        match build_point(&nums, &header) {
                            Some(p) => {
                                points.push(p);
                            },
                            None => {},
                        }
                    }
                },
            }
        }
    }
    let position = match (header.x_rd, header.y_rd) {
        (Some(x), Some(y)) => Some(Position { x_rd: x, y_rd: y, z_nap: header.z_nap }),
        _ => None,
    };
    let id = match &header.test_id {
        Some(t) => t.clone(),
        None => "Unknown".to_owned(),
    };
    let date: Option<Date> = match header.start_date {
        Some(d) => Some(d),
        None => header.date,
    };
    let metadata = Metadata {
        project_name: header.project_name.clone(),
        project_number: header.project_id.clone(),
        date,
        equipment: header.company_id.clone(),
        ground_level_nap: header.z_nap,
        source_file: String::new(),
        extra: KeyedVec::new(),
    };
    Ok(Cpt { id, metadata, position, points })
}

/// A friction ratio derived from cone resistance `q > 0` and sleeve
/// friction `f` satisfies `rf * q == 100 * f`.
pub proof fn law_derived_friction_ratio(p: MeasurementPoint, z: Option<Number>, q: Number, f: Number)
    requires
        p.rf is None,
        p.qc == Some(q),
        p.fs == Some(f),
        q.num > 0,
        simple(q),
        simple(f),
    ensures
        complete_point(p, z).rf matches Some(r) && r.den > 0 && r.num * q.num * f.den == 100 * f.num * r.den * q.den,
{
    lemma_pow_facts();
    let a: int = 100 * f.num * q.den;
    let b: int = f.den * q.num;
    assert(-10000000000000000000000000000000000000 < a < 10000000000000000000000000000000000000) by (nonlinear_arith)
        requires
            a == 100 * f.num * q.den,
            -100000000000000000 < f.num < 100000000000000000,
            0 < q.den <= 1000000000000000000,
    ;
    assert(0 < b < 100000000000000000000000000000000000) by (nonlinear_arith)
        requires
            b == f.den * q.num,
            0 < f.den <= 1000000000000000000,
            0 < q.num < 100000000000000000,
    ;
    let r = friction_ratio(f, q);
    assert(r.num == a && r.den == b);
    assert(a * q.num * f.den == 100 * f.num * b * q.den) by (nonlinear_arith)
        requires
            a == 100 * f.num * q.den,
            b == f.den * q.num,
    ;
}

/// A NAP level derived from the ground level `zv` satisfies
/// `depth_nap == zv - depth`.
pub proof fn law_derived_nap_level(p: MeasurementPoint, zv: Number)
    requires
        simple(p.depth),
        simple(zv),
    ensures
        complete_point(p, Some(zv)).depth_nap matches Some(n) && n.den > 0 && n.num * zv.den * p.depth.den == (zv.num
            * p.depth.den - p.depth.num * zv.den) * n.den,
{
    lemma_pow_facts();
    let d = p.depth;
    let a: int = zv.num * d.den - d.num * zv.den;
    let b: int = zv.den * d.den;
    assert(-1000000000000000000000000000000000000 < a < 1000000000000000000000000000000000000) by (nonlinear_arith)
        requires
            a == zv.num * d.den - d.num * zv.den,
            -100000000000000000 < zv.num < 100000000000000000,
            -100000000000000000 < d.num < 100000000000000000,
            0 < zv.den <= 1000000000000000000,
            0 < d.den <= 1000000000000000000,
    ;
    assert(0 < b <= 1000000000000000000000000000000000000) by (nonlinear_arith)
        requires
            b == zv.den * d.den,
            0 < zv.den <= 1000000000000000000,
            0 < d.den <= 1000000000000000000,
    ;
    let n = level_below(zv, d);
    assert(n.num == a && n.den == b);
    assert(a * zv.den * d.den == a * b) by (nonlinear_arith)
        requires
            b == zv.den * d.den,
    ;
}

proof fn lemma_scan_header(lines: Seq<Seq<char>>, i: int, h: HeaderModel)
    requires
        0 <= i <= lines.len(),
    ensures
        scan_header(lines, i, h) is Err <==> forall|j: int| i <= j < lines.len() ==> !is_eoh(#[trigger] trim(lines[j])),
        scan_header(lines, i, h) is Err ==> scan_header(lines, i, h) == Err::<(HeaderModel, int), HeaderFailure>(
            HeaderFailure::MissingEoh,
        ),
    decreases lines.len() - i,
{
    if i < lines.len() && !is_eoh(trim(lines[i])) {
        let h2 = header_line(h, trim(lines[i]))->0;
        assert(header_line(h, trim(lines[i])) == Some(h2));
        lemma_scan_header(lines, i + 1, h2);
        if forall|j: int| i + 1 <= j < lines.len() ==> !is_eoh(#[trigger] trim(lines[j])) {
            assert forall|j: int| i <= j < lines.len() implies !is_eoh(#[trigger] trim(lines[j])) by {
                if j > i {
                }
            }
        }
    }
}

/// A GEF text fails to read exactly when none of its lines, trimmed, is
/// `#EOH=` or `#EOH`, and the failure is then the missing terminator:
/// no value in the header or the data makes reading fail.
pub proof fn law_gef_fails_only_without_eoh(text: Seq<char>)
    ensures
        gef_spec(text) is Err <==> forall|j: int|
            0 <= j < lines_of(normalize_newlines(text)).len() ==> !is_eoh(
                #[trigger] trim(lines_of(normalize_newlines(text))[j]),
            ),
        gef_spec(text) is Err ==> gef_spec(text) == Err::<(HeaderModel, Seq<MeasurementPoint>), HeaderFailure>(
            HeaderFailure::MissingEoh,
        ),
{
    lemma_scan_header(lines_of(normalize_newlines(text)), 0, empty_model());
}

/// Under a header that declares column 1 as quantity 1 (length) and column
/// 2 as quantity `q`, without void values, a record of two numbers makes a
/// point whose depth is the first and whose second number lands in the
/// field quantity `q` names: 2 cone resistance, 3 sleeve friction, 4
/// friction ratio, 6 pore pressure u2, 8 inclination; any other quantity
/// is not read into the point.
pub proof fn law_quantity_columns(d: Number, u: Number, h: HeaderModel, q: u32)
    requires
        h.columns == seq![(ColumnSpec { index: 1, field: field_of(1) }), (ColumnSpec { index: 2, field: field_of(q) })],
        h.column_void.len() == 0,
        h.z_nap is None,
        q != 1 && q != 11,
    ensures
        point_spec(seq![d, u], h) matches Some(p) && p.depth == abs_num(d) && p.depth_nap is None
            && p.qc == (if q == 2 { Some(u) } else { None }) && p.fs == (if q == 3 { Some(u) } else { None })
            && p.rf == (if q == 4 { Some(u) } else { None }) && p.u2 == (if q == 6 { Some(u) } else { None })
            && p.inclination == (if q == 8 { Some(u) } else { None }),
{
    let nums = seq![d, u];
    assert(!voided(h.column_void, 1, d));
    assert(!voided(h.column_void, 2, u));
    let p1 = MeasurementPoint { depth: abs_num(d), ..blank_point() };
    assert(column_step(h.columns[0], nums, h.column_void, blank_point(), false) == Some((p1, true)));
    let p2 = column_step(h.columns[1], nums, h.column_void, p1, true)->Some_0.0;
    assert(column_step(h.columns[1], nums, h.column_void, p1, true) == Some((p2, true)));
    assert(columns_from(h.columns, 2, nums, h.column_void, p2, true) == Some((p2, true)));
    assert(columns_from(h.columns, 1, nums, h.column_void, p1, true) == Some((p2, true)));
    assert(columns_from(h.columns, 0, nums, h.column_void, blank_point(), false) == Some((p2, true)));
}

} // verus!
