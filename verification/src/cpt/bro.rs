//! CPT_O BRO XML read into the CPT model: broId, the RD position inside
//! `deliveredLocation`, the offset inside `deliveredVerticalPosition`, the
//! research report date and the 25-column data array of `cptResult`.

use vstd::prelude::*;

use crate::calendar::{Date, date_parsed, from_ymd, parse_date_with, valid_date, ymd_text};
use crate::cpt::{Cpt, CptError, MeasurementPoint, Metadata, Position, cpt_ok, point_ok, opt_simple};
use crate::cpt::gef::data::{blank_point, complete, complete_point, token_values, values_from};
use crate::keyed::KeyedVec;
use crate::number::{Number, Parsed, parse_number, parse_spec, simple, lemma_parse_simple, int_parse, parse_i32, nat_text, nat_chars};
use crate::text::{chars_of, eq_chars, push_all, push_str, split_chars, split_on, split_ws, split_ws_chars, string_of, trim, trim_chars, views};
use crate::xml::{Tokens, XmlEvent, text_len, tokens_of, utf8_strict, utf8_text};

verus! {

/// The quantities of the fixed 25-column data array of a BRO CPT, in
/// column order.
#[derive(Clone, Copy, Debug, PartialEq, Eq, Structural)]
pub enum BroField {
    Length,
    Depth,
    ElapsedTime,
    Qc,
    CorrectedQc,
    NetQc,
    MagX,
    MagY,
    MagZ,
    MagTotal,
    ElectricCond,
    InclEw,
    InclNs,
    InclX,
    InclY,
    Inclination,
    MagInclination,
    MagDeclination,
    Fs,
    PoreRatio,
    Temp,
    U1,
    U2,
    U3,
    Rf,
}

/// The column of a quantity in the data array.
pub open spec fn column_of(f: BroField) -> int {
    match f {
        BroField::Length => 0,
        BroField::Depth => 1,
        BroField::ElapsedTime => 2,
        BroField::Qc => 3,
        BroField::CorrectedQc => 4,
        BroField::NetQc => 5,
        BroField::MagX => 6,
        BroField::MagY => 7,
        BroField::MagZ => 8,
        BroField::MagTotal => 9,
        BroField::ElectricCond => 10,
        BroField::InclEw => 11,
        BroField::InclNs => 12,
        BroField::InclX => 13,
        BroField::InclY => 14,
        BroField::Inclination => 15,
        BroField::MagInclination => 16,
        BroField::MagDeclination => 17,
        BroField::Fs => 18,
        BroField::PoreRatio => 19,
        BroField::Temp => 20,
        BroField::U1 => 21,
        BroField::U2 => 22,
        BroField::U3 => 23,
        BroField::Rf => 24,
    }
}

impl BroField {
    /// The column of the quantity in the data array.
    pub fn column(&self) -> (r: usize)
        ensures
            r == column_of(*self),
    {
        match self {
            BroField::Length => 0,
            BroField::Depth => 1,
            BroField::ElapsedTime => 2,
            BroField::Qc => 3,
            BroField::CorrectedQc => 4,
            BroField::NetQc => 5,
            BroField::MagX => 6,
            BroField::MagY => 7,
            BroField::MagZ => 8,
            BroField::MagTotal => 9,
            BroField::ElectricCond => 10,
            BroField::InclEw => 11,
            BroField::InclNs => 12,
            BroField::InclX => 13,
            BroField::InclY => 14,
            BroField::Inclination => 15,
            BroField::MagInclination => 16,
            BroField::MagDeclination => 17,
            BroField::Fs => 18,
            BroField::PoreRatio => 19,
            BroField::Temp => 20,
            BroField::U1 => 21,
            BroField::U2 => 22,
            BroField::U3 => 23,
            BroField::Rf => 24,
        }
    }
}

/// The local part of a tag name: what follows the last `:` of its UTF-8
/// text (nothing when the name is not UTF-8).
pub open spec fn tag_local(b: Seq<u8>) -> Seq<char> {
    match utf8_text(b) {
        Some(s) => after_colon(s),
        None => seq![],
    }
}

pub open spec fn after_colon(s: Seq<char>) -> Seq<char>
    decreases s.len(),
{
    if s.len() == 0 {
        s
    } else if s.last() == ':' {
        seq![]
    } else {
        after_colon(s.drop_last()).push(s.last())
    }
}

fn tag_local_exec(b: &[u8]) -> (r: Vec<char>)
    ensures
        r@ == tag_local(b@),
{
    match utf8_strict(b) {
        Some(s) => {
            let mut k = s.len();
            proof {
                assert(s@.take(k as int) =~= s@);
                assert(after_colon(s@) + s@.subrange(k as int, s@.len() as int) =~= after_colon(s@));
            }
            while k > 0 && s[k - 1] != ':'
                invariant
                    k <= s@.len(),
                    after_colon(s@) == after_colon(s@.take(k as int)) + s@.subrange(k as int, s@.len() as int),
                decreases k,
            {
                proof {
                    let t = s@.take(k as int);
                    assert(t.drop_last() =~= s@.take(k - 1));
                    assert(t.last() == s@[k - 1]);
                    assert(after_colon(s@.take(k - 1)).push(s@[k - 1]) + s@.subrange(k as int, s@.len() as int)
                        =~= after_colon(s@.take(k - 1)) + s@.subrange(k - 1, s@.len() as int));
                }
                k = k - 1;
            }
            proof {
                assert(after_colon(s@.take(k as int)) == Seq::<char>::empty());
                assert(Seq::<char>::empty() + s@.subrange(k as int, s@.len() as int) =~= s@.subrange(
                    k as int,
                    s@.len() as int,
                ));
            }
            crate::text::slice_vec(&s, k, s.len())
        },
        None => Vec::new(),
    }
}

/// What has been read so far.
pub struct BroCptModel {
    pub path: Seq<Seq<char>>,
    pub id: Option<Seq<char>>,
    pub x: Option<Number>,
    pub y: Option<Number>,
    pub z: Option<Number>,
    pub date: Option<Date>,
    pub block: Option<Seq<char>>,
}

/// The report date: `YYYY-MM-DD`, or a bare year meaning January 1st.
pub open spec fn report_date(txt: Seq<char>) -> Option<Date> {
    match date_parsed(txt, "%Y-%m-%d"@) {
        Some(d) => Some(d),
        None => match int_parse(txt, true, i32::MIN as int, i32::MAX as int) {
            Some(y) => if valid_date(y, 1, 1) {
                Some(Date { year: y as i32, month: 1, day: 1 })
            } else {
                None
            },
            None => None,
        },
    }
}

/// What a text inside the current element does; `None` when it holds a
/// number the library cannot hold exactly.
pub open spec fn text_step(m: BroCptModel, txt: Seq<char>) -> Option<BroCptModel> {
    if m.path.len() == 0 {
        Some(m)
    } else {
        let last = m.path.last();
        if last == "broId"@ && m.id is None {
            Some(BroCptModel { id: Some(txt), ..m })
        } else if last == "pos"@ && m.path.contains("deliveredLocation"@) {
            match values_from(split_ws(txt), 0, seq![]) {
                None => Some(m),
                Some(nums) => if nums.len() >= 2 {
                    Some(BroCptModel { x: Some(nums[0]), y: Some(nums[1]), ..m })
                } else {
                    Some(m)
                },
            }
        } else if last == "offset"@ && m.path.contains("deliveredVerticalPosition"@) {
            match parse_spec(txt) {
                Parsed::Finite(v) => Some(BroCptModel { z: Some(v), ..m }),
                _ => Some(m),
            }
        } else if last == "date"@ && m.path.contains("researchReportDate"@) {
            if m.date is None {
                Some(BroCptModel { date: report_date(txt), ..m })
            } else {
                Some(m)
            }
        } else if last == "values"@ && m.path.contains("cptResult"@) {
            Some(BroCptModel { block: Some(txt), ..m })
        } else {
            Some(m)
        }
    }
}

pub enum BroStep {
    Next(BroCptModel),
    Done(BroCptModel),
    Fail(Seq<char>),
}

pub open spec fn out_of_range_msg() -> Seq<char> {
    "number out of range"@
}

pub open spec fn bro_step(m: BroCptModel, e: XmlEvent) -> BroStep {
    match e {
        XmlEvent::Start(el) => BroStep::Next(BroCptModel { path: m.path.push(tag_local(el.name@)), ..m }),
        XmlEvent::End => BroStep::Next(
            BroCptModel {
                path: if m.path.len() > 0 {
                    m.path.drop_last()
                } else {
                    m.path
                },
                ..m
            },
        ),
        XmlEvent::Text(r) => match r {
            Err(msg) => BroStep::Fail(msg@),
            Ok(t) => match text_step(m, t@) {
                Some(m2) => BroStep::Next(m2),
                None => BroStep::Fail(out_of_range_msg()),
            },
        },
        XmlEvent::Eof => BroStep::Done(m),
        _ => BroStep::Next(m),
    }
}

pub open spec fn bro_from(toks: Tokens, i: int, m: BroCptModel) -> Result<BroCptModel, Seq<char>>
    decreases toks.events@.len() - i,
{
    if i < 0 || i >= toks.events@.len() {
        match toks.error {
            Some((p, msg)) => Err("xml at pos "@ + nat_text(p as nat) + ": "@ + msg@),
            None => Ok(m),
        }
    } else {
        match bro_step(m, toks.events@[i].event) {
            BroStep::Next(m2) => bro_from(toks, i + 1, m2),
            BroStep::Done(m2) => Ok(m2),
            BroStep::Fail(msg) => Err(msg),
        }
    }
}

/// `|v - (-999999)| < 0.5`.
pub open spec fn near_void(v: Number) -> bool {
    let d = v.num + 999999 * v.den;
    (if d < 0 { -d } else { d }) * 2 < v.den
}

/// A cell: a number unless void, not a number, or a number the library
/// does not hold exactly (not finite, or too large or too precise).
pub open spec fn cell_value(s: Seq<char>) -> Result<Option<Number>, ()> {
    match parse_spec(trim(s)) {
        Parsed::Finite(v) => if near_void(v) {
            Ok(None)
        } else {
            Ok(Some(v))
        },
        _ => Ok(None),
    }
}

pub open spec fn cells_from(cs: Seq<Seq<char>>, i: int, acc: Seq<Option<Number>>) -> Option<Seq<Option<Number>>>
    decreases cs.len() - i,
{
    if i < 0 || i >= cs.len() {
        Some(acc)
    } else {
        match cell_value(cs[i]) {
            Ok(v) => cells_from(cs, i + 1, acc.push(v)),
            Err(_) => None,
        }
    }
}

/// The point of one record: depth from column 1, else column 0; qc (3),
/// inclination (15), fs (18), u2 (22), rf (24); `rf` derived and NAP level
/// set as for GEF.
pub open spec fn bro_point(nums: Seq<Option<Number>>, z: Option<Number>) -> Option<MeasurementPoint> {
    let depth = if nums[column_of(BroField::Depth)] is Some {
        nums[column_of(BroField::Depth)]
    } else {
        nums[column_of(BroField::Length)]
    };
    match depth {
        None => None,
        Some(d) => Some(
            complete_point(
                MeasurementPoint {
                    depth: d,
                    depth_nap: None,
                    qc: nums[column_of(BroField::Qc)],
                    fs: nums[column_of(BroField::Fs)],
                    rf: nums[column_of(BroField::Rf)],
                    u2: nums[column_of(BroField::U2)],
                    inclination: nums[column_of(BroField::Inclination)],
                },
                z,
            ),
        ),
    }
}

pub open spec fn block_from(
    recs: Seq<Seq<char>>,
    i: int,
    z: Option<Number>,
    ps: Seq<MeasurementPoint>,
) -> Option<Seq<MeasurementPoint>>
    decreases recs.len() - i,
{
    if i < 0 || i >= recs.len() {
        Some(ps)
    } else {
        let t = trim(recs[i]);
        if t.len() == 0 {
            block_from(recs, i + 1, z, ps)
        } else {
            match cells_from(split_on(t, ','), 0, seq![]) {
                None => None,
                Some(nums) => if nums.len() < 25 {
                    block_from(recs, i + 1, z, ps)
                } else {
                    match bro_point(nums, z) {
                        Some(p) => block_from(recs, i + 1, z, ps.push(p)),
                        None => block_from(recs, i + 1, z, ps),
                    }
                },
            }
        }
    }
}

pub open spec fn insert_by_depth(s: Seq<MeasurementPoint>, p: MeasurementPoint) -> Seq<MeasurementPoint>
    decreases s.len(),
{
    if s.len() == 0 {
        seq![p]
    } else if crate::bro::cpt::num_le(s.last().depth, p.depth) {
        s.push(p)
    } else {
        insert_by_depth(s.drop_last(), p).push(s.last())
    }
}

/// Points in ascending depth, equal depths in their original order.
pub open spec fn sort_points(s: Seq<MeasurementPoint>) -> Seq<MeasurementPoint>
    decreases s.len(),
{
    if s.len() == 0 {
        seq![]
    } else {
        insert_by_depth(sort_points(s.drop_last()), s.last())
    }
}

pub open spec fn empty_model() -> BroCptModel {
    BroCptModel { path: seq![], id: None, x: None, y: None, z: None, date: None, block: None }
}

/// What reading a CPT_O document from its events gives: the model read,
/// and its points (sorted by depth), or the message of the failure.
pub open spec fn bro_cpt_spec(toks: Tokens) -> Result<(BroCptModel, Seq<MeasurementPoint>), Seq<char>> {
    match bro_from(toks, 0, empty_model()) {
        Err(msg) => Err(msg),
        Ok(m) => match m.id {
            None => Err("missing broId"@),
            Some(_) => match m.block {
                None => Err("missing cptResult values data block"@),
                Some(b) => match block_from(split_on(b, ';'), 0, m.z, seq![]) {
                    None => Err(out_of_range_msg()),
                    Some(ps) => Ok((m, sort_points(ps))),
                },
            },
        },
    }
}

/// The CPT a read model and its points make.
pub open spec fn cpt_of_model(c: Cpt, m: BroCptModel, ps: Seq<MeasurementPoint>) -> bool {
    &&& m.id matches Some(id) && c.id@ == id
    &&& c.metadata.project_name is None
    &&& c.metadata.project_number is None
    &&& c.metadata.date == m.date
    &&& c.metadata.equipment is None
    &&& c.metadata.ground_level_nap == m.z
    &&& c.metadata.source_file@ == Seq::<char>::empty()
    &&& c.metadata.extra.entries() == Seq::<(Seq<char>, String)>::empty()
    &&& c.position == (match (m.x, m.y) {
        (Some(x), Some(y)) => Some(Position { x_rd: x, y_rd: y, z_nap: m.z }),
        _ => None,
    })
    &&& c.points@ == ps
}

struct BroState {
    path: Vec<Vec<char>>,
    id: Option<Vec<char>>,
    x: Option<Number>,
    y: Option<Number>,
    z: Option<Number>,
    date: Option<Date>,
    block: Option<Vec<char>>,
}

spec fn opt_chars(o: Option<Vec<char>>) -> Option<Seq<char>> {
    match o {
        Some(v) => Some(v@),
        None => None,
    }
}

spec fn state_view(s: BroState) -> BroCptModel {
    BroCptModel { path: views(s.path@), id: opt_chars(s.id), x: s.x, y: s.y, z: s.z, date: s.date, block: opt_chars(s.block) }
}

spec fn state_ok(s: BroState) -> bool {
    &&& opt_simple(s.x)
    &&& opt_simple(s.y)
    &&& opt_simple(s.z)
    &&& (s.date matches Some(d) ==> valid_date(d.year as int, d.month as int, d.day as int))
}

fn path_has(path: &Vec<Vec<char>>, w: &str) -> (r: bool)
    ensures
        r == views(path@).contains(w@),
{
    let wc = chars_of(w);
    for i in 0..path.len()
        invariant
            wc@ == w@,
            forall|j: int| 0 <= j < i ==> #[trigger] views(path@)[j] != w@,
    {
        if eq_chars(&path[i], &wc) {
            proof {
                assert(views(path@)[i as int] == w@);
            }
            return true;
        }
    }
    false
}

fn report_date_exec(txt: &Vec<char>) -> (r: Option<Date>)
    ensures
        r == report_date(txt@),
        r matches Some(d) ==> valid_date(d.year as int, d.month as int, d.day as int),
        forall|d: Date|
            0 <= d.year <= 9999 && valid_date(d.year as int, d.month as int, d.day as int) && txt@
                == #[trigger] ymd_text(d, "-"@) ==> r == Some(d),
        forall|y: int| 1 <= y <= 9999 && txt@ == #[trigger] nat_text(y as nat) ==> r == Some(
            Date { year: y as i32, month: 1, day: 1 },
        ),
{
    proof {
        assert forall|y: int| 1 <= y <= 9999 && txt@ == #[trigger] nat_text(y as nat) implies !txt@.contains('-')
            && int_parse(txt@, true, i32::MIN as int, i32::MAX as int) == Some(y) && valid_date(y, 1, 1) by {
            lemma_bare_year(y);
        }
    }
    let ts = string_of(txt);
    let fmt = "%Y-%m-%d".to_owned();
    match parse_date_with(ts.as_str(), fmt.as_str()) {
        Some(d) => Some(d),
        None => match parse_i32(txt) {
            Some(y) => from_ymd(y, 1, 1),
            None => None,
        },
    }
}

fn apply_text(st: &mut BroState, txt: &Vec<char>)
    requires
        state_ok(*old(st)),
    ensures
        state_ok(*final(st)),
        text_step(state_view(*old(st)), txt@) == Some(state_view(*final(st))),
{
    let n = st.path.len();
    if n == 0 {
        return;
    }
    let last = &st.path[n - 1];
    proof {
        assert(views(st.path@).last() == st.path@[n - 1]@);
    }
    if eq_chars(last, &chars_of("broId")) && st.id.is_none() {
        st.id = Some(txt.clone());
    } else if eq_chars(last, &chars_of("pos")) && path_has(&st.path, "deliveredLocation") {
        let toks = split_ws_chars(txt);
        match token_values(&toks) {
            None => {},
            Some(nums) => {
                if nums.len() >= 2 {
                    st.x = Some(nums[0]);
                    st.y = Some(nums[1]);
                }
            },
        }
    } else if eq_chars(last, &chars_of("offset")) && path_has(&st.path, "deliveredVerticalPosition") {
        proof {
            lemma_parse_simple(txt@);
        }
        match parse_number(txt) {
            Parsed::Finite(v) => {
                st.z = Some(v);
            },
            _ => {},
        }
    } else if eq_chars(last, &chars_of("date")) && path_has(&st.path, "researchReportDate") {
        if st.date.is_none() {
            st.date = report_date_exec(txt);
        }
    } else if eq_chars(last, &chars_of("values")) && path_has(&st.path, "cptResult") {
        st.block = Some(txt.clone());
    }
}

fn position_message(p: u64, msg: &Vec<char>) -> (r: String)
    ensures
        r@ == "xml at pos "@ + nat_text(p as nat) + ": "@ + msg@,
{
    let mut out = chars_of("xml at pos ");
    let mut n = nat_chars(p as u128);
    out.append(&mut n);
    push_str(&mut out, ": ");
    push_all(&mut out, msg);
    string_of(&out)
}

fn read_events(toks: &Tokens) -> (r: Result<BroState, CptError>)
    ensures
        match r {
            Ok(s) => bro_from(*toks, 0, empty_model()) == Ok::<BroCptModel, Seq<char>>(state_view(s)) && state_ok(s),
            Err(e) => bro_from(*toks, 0, empty_model()) matches Err(msg) && e matches CptError::InvalidBro(
                m,
            ) && m@ == msg,
        },
{
    let mut st = BroState { path: Vec::new(), id: None, x: None, y: None, z: None, date: None, block: None };
    proof {
        assert(views(st.path@) =~= Seq::<Seq<char>>::empty());
    }
    let evs = &toks.events;
    for i in 0..evs.len()
        invariant
            evs@ == toks.events@,
            state_ok(st),
            bro_from(*toks, 0, empty_model()) == bro_from(*toks, i as int, state_view(st)),
    {
        match &evs[i].event {
            XmlEvent::Start(e) => {
                let l = tag_local_exec(&e.name);
                let ghost p0 = views(st.path@);
                st.path.push(l);
                proof {
                    assert(views(st.path@) =~= p0.push(l@));
                }
            },
            XmlEvent::End => {
                let ghost p0 = views(st.path@);
                st.path.pop();
                proof {
                    if p0.len() > 0 {
                        assert(views(st.path@) =~= p0.drop_last());
                    }
                }
            },
            XmlEvent::Text(r) => match r {
                Err(msg) => {
                    return Err(CptError::InvalidBro(string_of(msg)));
                },
                Ok(t) => {
                    apply_text(&mut st, t);
                },
            },
            XmlEvent::Eof => {
                return Ok(st);
            },
            _ => {},
        }
    }
    match &toks.error {
        Some((p, msg)) => Err(CptError::InvalidBro(position_message(*p, msg))),
        None => Ok(st),
    }
}

fn near_void_exec(v: Number) -> (r: bool)
    requires
        simple(v),
    ensures
        r == near_void(v),
{
    proof {
        crate::number::lemma_pow_facts();
    }
    let d = v.num + 999999 * v.den;
    let a = if d < 0 {
        -d
    } else {
        d
    };
    a * 2 < v.den
}

fn cells(cs: &Vec<Vec<char>>) -> (r: Option<Vec<Option<Number>>>)
    ensures
        match r {
            Some(v) => cells_from(views(cs@), 0, seq![]) == Some(v@) && forall|j: int|
                0 <= j < v@.len() ==> (#[trigger] v@[j] matches Some(n) ==> simple(n)),
            None => cells_from(views(cs@), 0, seq![]) is None,
        },
{
    let mut acc: Vec<Option<Number>> = Vec::new();
    for i in 0..cs.len()
        invariant
            cells_from(views(cs@), 0, seq![]) == cells_from(views(cs@), i as int, acc@),
            forall|j: int| 0 <= j < acc@.len() ==> (#[trigger] acc@[j] matches Some(n) ==> simple(n)),
    {
        let t = trim_chars(&cs[i]);
        proof {
            lemma_parse_simple(t@);
        }
        match parse_number(&t) {
            Parsed::Finite(v) => {
                if near_void_exec(v) {
                    acc.push(None);
                } else {
                    acc.push(Some(v));
                }
            },
            _ => {
                acc.push(None);
            },
        }
    }
    Some(acc)
}

fn block_points(block: &Vec<char>, z: Option<Number>) -> (r: Option<Vec<MeasurementPoint>>)
    requires
        z matches Some(v) ==> simple(v),
    ensures
        match r {
            Some(ps) => block_from(split_on(block@, ';'), 0, z, seq![]) == Some(ps@) && forall|j: int|
                0 <= j < ps@.len() ==> point_ok(#[trigger] ps@[j]),
            None => block_from(split_on(block@, ';'), 0, z, seq![]) is None,
        },
{
    let recs = split_chars(block, ';');
    let mut ps: Vec<MeasurementPoint> = Vec::new();
    for i in 0..recs.len()
        invariant
            views(recs@) == split_on(block@, ';'),
            z matches Some(v) ==> simple(v),
            block_from(split_on(block@, ';'), 0, z, seq![]) == block_from(views(recs@), i as int, z, ps@),
            forall|j: int| 0 <= j < ps@.len() ==> point_ok(#[trigger] ps@[j]),
    {
        let t = trim_chars(&recs[i]);
        if t.len() > 0 {
            let cs = split_chars(&t, ',');
            match cells(&cs) {
                None => {
                    return None;
                },
                Some(nums) => {
                    if nums.len() >= 25 {
                        let depth = if nums[BroField::Depth.column()].is_some() {
                            nums[BroField::Depth.column()]
                        } else {
                            nums[BroField::Length.column()]
                        };
                        match depth {
                            Some(d) => {
                                proof {
                                    assert(nums@[3] matches Some(n) ==> simple(n));
                                    assert(nums@[15] matches Some(n) ==> simple(n));
                                    assert(nums@[18] matches Some(n) ==> simple(n));
                                    assert(nums@[22] matches Some(n) ==> simple(n));
                                    assert(nums@[24] matches Some(n) ==> simple(n));
                                    assert(nums@[0] matches Some(n) ==> simple(n));
                                    assert(nums@[1] matches Some(n) ==> simple(n));
                                }
                                let p = MeasurementPoint {
                                    depth: d,
                                    depth_nap: None,
                                    qc: nums[BroField::Qc.column()],
                                    fs: nums[BroField::Fs.column()],
                                    rf: nums[BroField::Rf.column()],
                                    u2: nums[BroField::U2.column()],
                                    inclination: nums[BroField::Inclination.column()],
                                };
                                ps.push(complete(p, z));
                            },
                            None => {},
                        }
                    }
                },
            }
        }
    }
    Some(ps)
}

fn sort_by_depth(ps: Vec<MeasurementPoint>) -> (r: Vec<MeasurementPoint>)
    requires
        forall|j: int| 0 <= j < ps@.len() ==> point_ok(#[trigger] ps@[j]),
    ensures
        r@ == sort_points(ps@),
        forall|j: int| 0 <= j < r@.len() ==> point_ok(#[trigger] r@[j]),
{
    let mut out: Vec<MeasurementPoint> = Vec::new();
    for i in 0..ps.len()
        invariant
            forall|j: int| 0 <= j < ps@.len() ==> point_ok(#[trigger] ps@[j]),
            out@ == sort_points(ps@.take(i as int)),
            forall|j: int| 0 <= j < out@.len() ==> point_ok(#[trigger] out@[j]),
    {
        proof {
            assert(ps@.take(i + 1).drop_last() =~= ps@.take(i as int));
            assert(ps@.take(i + 1).last() == ps@[i as int]);
        }
        let p = ps[i];
        proof {
            assert(point_ok(p));
        }
        let ghost s = out@;
        let mut k = out.len();
        proof {
            assert(s.take(k as int) =~= s);
            assert(insert_by_depth(s, p) + s.subrange(k as int, s.len() as int) =~= insert_by_depth(s, p));
        }
        while k > 0 && !crate::bro::cpt::num_le_exec(out[k - 1].depth, p.depth)
            invariant
                k <= out@.len(),
                out@ == s,
                point_ok(p),
                forall|j: int| 0 <= j < out@.len() ==> point_ok(#[trigger] out@[j]),
                insert_by_depth(s, p) == insert_by_depth(s.take(k as int), p) + s.subrange(k as int, s.len() as int),
            decreases k,
        {
            proof {
                let t = s.take(k as int);
                assert(t.drop_last() =~= s.take(k - 1));
                assert(t.last() == s[k - 1]);
                assert(insert_by_depth(t, p) == insert_by_depth(s.take(k - 1), p).push(s[k - 1]));
                assert(insert_by_depth(s.take(k - 1), p).push(s[k - 1]) + s.subrange(k as int, s.len() as int)
                    =~= insert_by_depth(s.take(k - 1), p) + s.subrange(k - 1, s.len() as int));
                assert(point_ok(out@[k - 1]));
            }
            k = k - 1;
        }
        proof {
            if k > 0 {
                assert(point_ok(out@[k - 1]));
            }
            let t = s.take(k as int);
            assert(insert_by_depth(t, p) == t.push(p));
        }
        out.insert(k, p);
        proof {
            assert(out@ =~= s.take(k as int).push(p) + s.subrange(k as int, s.len() as int));
        }
    }
    proof {
        assert(ps@.take(ps@.len() as int) =~= ps@);
    }
    out
}

/// Reads a CPT from the events of a CPT_O document.
pub fn cpt_from_bro_events(toks: &Tokens) -> (r: Result<Cpt, CptError>)
    ensures
        match r {
            Ok(c) => bro_cpt_spec(*toks) matches Ok((m, ps)) && cpt_of_model(c, m, ps) && cpt_ok(c),
            Err(e) => bro_cpt_spec(*toks) matches Err(msg) && e matches CptError::InvalidBro(s) && s@ == msg,
        },
{
    let st = match read_events(toks) {
        Ok(s) => s,
        Err(e) => {
            return Err(e);
        },
    };
    let id = match &st.id {
        Some(v) => string_of(v),
        None => {
            return Err(CptError::InvalidBro("missing broId".to_owned()));
        },
    };
    let block = match &st.block {
        Some(b) => b,
        None => {
            return Err(CptError::InvalidBro("missing cptResult values data block".to_owned()));
        },
    };
    let raw = match block_points(block, st.z) {
        Some(ps) => ps,
        None => {
            return Err(CptError::InvalidBro("number out of range".to_owned()));
        },
    };
    let points = sort_by_depth(raw);
    let position = match (st.x, st.y) {
        (Some(x), Some(y)) => Some(Position { x_rd: x, y_rd: y, z_nap: st.z }),
        _ => None,
    };
    let metadata = Metadata {
        project_name: None,
        project_number: None,
        date: st.date,
        equipment: None,
        ground_level_nap: st.z,
        source_file: String::new(),
        extra: KeyedVec::new(),
    };
    Ok(Cpt { id, metadata, position, points })
}

/// `r` is what reading a CPT_O document gives for its events `toks`.
pub open spec fn bro_cpt_read(r: Result<Cpt, CptError>, toks: Tokens) -> bool {
    match r {
        Ok(c) => bro_cpt_spec(toks) matches Ok((m, ps)) && cpt_of_model(c, m, ps) && cpt_ok(c),
        Err(e) => bro_cpt_spec(toks) matches Err(msg) && e matches CptError::InvalidBro(s) && s@ == msg,
    }
}

/// `r` is what reading `xml` as CPT_O BRO XML gives, over the events the
/// XML reader hands out for it.
pub open spec fn bro_read(r: Result<Cpt, CptError>, xml: &str) -> bool {
    exists|toks: Tokens| tokens_of(toks, xml@, true, text_len(xml)) && #[trigger] bro_cpt_read(r, toks)
}

/// Reads a CPT from CPT_O BRO XML.
///
/// The result is what `bro_cpt_spec` gives for the events the XML reader
/// hands out for `xml`, each event being what the reader's named results
/// give at its place in `xml` (see `tokens_of`). A number the library does
/// not hold exactly (not finite, or too large or too precise) is read as
/// absent; no value makes reading fail (see `law_bro_values_never_fail`).
pub fn parse(xml: &str) -> (r: Result<Cpt, CptError>)
    ensures
        bro_read(r, xml),
        r matches Ok(c) ==> cpt_ok(c),
        r matches Err(e) ==> e is InvalidBro,
{
    let toks = crate::xml::tokenize(xml, true);
    let r = cpt_from_bro_events(&toks);
    proof {
        assert(bro_cpt_read(r, toks));
    }
    r
}

/// Each point is at most as deep as the next.
pub open spec fn points_ordered(s: Seq<MeasurementPoint>) -> bool {
    forall|i: int| 0 <= i < s.len() - 1 ==> crate::bro::cpt::num_le(#[trigger] s[i].depth, s[i + 1].depth)
}

proof fn lemma_insert_point_last(s: Seq<MeasurementPoint>, p: MeasurementPoint)
    ensures
        insert_by_depth(s, p).last() == p || (s.len() > 0 && insert_by_depth(s, p).last() == s.last()),
        s.len() > 0 && !crate::bro::cpt::num_le(s.last().depth, p.depth) ==> insert_by_depth(s, p).last() == s.last(),
    decreases s.len(),
{
    if s.len() > 0 && !crate::bro::cpt::num_le(s.last().depth, p.depth) {
        lemma_insert_point_last(s.drop_last(), p);
    }
}

proof fn lemma_insert_point_ordered(s: Seq<MeasurementPoint>, p: MeasurementPoint)
    requires
        points_ordered(s),
    ensures
        points_ordered(insert_by_depth(s, p)),
        insert_by_depth(s, p).to_multiset() == s.to_multiset().insert(p),
    decreases s.len(),
{
    broadcast use vstd::seq_lib::group_to_multiset_ensures;

    if s.len() == 0 {
        assert(seq![p] =~= Seq::<MeasurementPoint>::empty().push(p));
    } else if crate::bro::cpt::num_le(s.last().depth, p.depth) {
    } else {
        let t = s.drop_last();
        assert forall|i: int| 0 <= i < t.len() - 1 implies crate::bro::cpt::num_le(#[trigger] t[i].depth, t[i + 1].depth) by {
            assert(t[i] == s[i] && t[i + 1] == s[i + 1]);
        }
        lemma_insert_point_ordered(t, p);
        lemma_insert_point_last(t, p);
        let r = insert_by_depth(t, p);
        if t.len() > 0 {
            assert(crate::bro::cpt::num_le(s[s.len() - 2].depth, s[s.len() - 1].depth));
        }
        assert(crate::bro::cpt::num_le(r.last().depth, s.last().depth));
        let out = r.push(s.last());
        assert forall|i: int| 0 <= i < out.len() - 1 implies crate::bro::cpt::num_le(#[trigger] out[i].depth, out[i + 1].depth) by {
            if i < r.len() - 1 {
                assert(out[i] == r[i] && out[i + 1] == r[i + 1]);
            } else {
                assert(out[i] == r.last());
            }
        }
        assert(s =~= t.push(s.last()));
    }
}

/// The points of a BRO CPT come out ordered by depth, each point kept as
/// often as it occurs.
pub proof fn law_points_sorted_by_depth(s: Seq<MeasurementPoint>)
    ensures
        points_ordered(sort_points(s)),
        sort_points(s).to_multiset() == s.to_multiset(),
    decreases s.len(),
{
    broadcast use vstd::seq_lib::group_to_multiset_ensures;

    if s.len() > 0 {
        law_points_sorted_by_depth(s.drop_last());
        lemma_insert_point_ordered(sort_points(s.drop_last()), s.last());
        assert(s =~= s.drop_last().push(s.last()));
    }
}

proof fn lemma_cells_read(cs: Seq<Seq<char>>, i: int, acc: Seq<Option<Number>>)
    ensures
        cells_from(cs, i, acc) is Some,
    decreases cs.len() - i,
{
    if 0 <= i < cs.len() {
        lemma_cells_read(cs, i + 1, acc.push(cell_value(cs[i])->Ok_0));
    }
}

proof fn lemma_block_read(recs: Seq<Seq<char>>, i: int, z: Option<Number>, ps: Seq<MeasurementPoint>)
    ensures
        block_from(recs, i, z, ps) is Some,
    decreases recs.len() - i,
{
    if 0 <= i < recs.len() {
        let t = trim(recs[i]);
        lemma_cells_read(split_on(t, ','), 0, seq![]);
        lemma_block_read(recs, i + 1, z, ps);
        if let Some(nums) = cells_from(split_on(t, ','), 0, seq![]) {
            if let Some(p) = bro_point(nums, z) {
                lemma_block_read(recs, i + 1, z, ps.push(p));
            }
        }
    }
}

/// No value of a CPT_O document makes reading fail: every text of the
/// document and every values block reads, a number the library does not
/// hold being read as absent.
pub proof fn law_bro_values_never_fail(
    m: BroCptModel,
    txt: Seq<char>,
    recs: Seq<Seq<char>>,
    z: Option<Number>,
)
    ensures
        text_step(m, txt) is Some,
        block_from(recs, 0, z, seq![]) is Some,
{
    lemma_block_read(recs, 0, z, seq![]);
}

/// A report date written `YYYY-MM-DD` (as the BRO writer writes it) reads
/// back as that day, given the day `chrono` reads from it with `%Y-%m-%d`
/// (see `parse_date_with`, which states that it is the day written).
pub proof fn law_report_date_reads_written_day(d: Date)
    requires
        0 <= d.year <= 9999,
        valid_date(d.year as int, d.month as int, d.day as int),
        date_parsed(ymd_text(d, "-"@), "%Y-%m-%d"@) == Some(d),
    ensures
        report_date(ymd_text(d, "-"@)) == Some(d),
{
}

proof fn lemma_bare_year(y: int)
    requires
        1 <= y <= 9999,
    ensures
        !nat_text(y as nat).contains('-'),
        int_parse(nat_text(y as nat), true, i32::MIN as int, i32::MAX as int) == Some(y),
        valid_date(y, 1, 1),
        date_parsed(nat_text(y as nat), "%Y-%m-%d"@) is None ==> report_date(nat_text(y as nat)) == Some(
            Date { year: y as i32, month: 1, day: 1 },
        ),
{
    let t = nat_text(y as nat);
    crate::number::lemma_nat_text(y as nat);
    assert(crate::number::is_digit(t[0]));
    if t.contains('-') {
        let i = choose|i: int| 0 <= i < t.len() && t[i] == '-';
        assert(crate::number::is_digit(t[i]));
    }
    assert(t.subrange(0, t.len() as int) =~= t);
}

/// A report date written as a bare year (which `chrono` does not read
/// with `%Y-%m-%d`, see `parse_date_with`) reads as January 1st of it.
pub proof fn law_report_date_bare_year(y: int)
    requires
        1 <= y <= 9999,
        date_parsed(nat_text(y as nat), "%Y-%m-%d"@) is None,
    ensures
        report_date(nat_text(y as nat)) == Some(Date { year: y as i32, month: 1, day: 1 }),
{
    lemma_bare_year(y);
}

} // verus!
