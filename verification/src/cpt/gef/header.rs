//! GEF header lines (`#KEY= value`) up to the `#EOH=` terminator.
//!
//! Keywords start with `#`, then `=` and a comma separated value list.
//! Unknown keywords are ignored.

use vstd::prelude::*;

use crate::calendar::{Date, from_ymd, valid_date};
use crate::cpt::{CptError, opt_simple};
use crate::cpt::gef::columns::{GefField, field_of, from_quantity};
use crate::number::{Number, Parsed, parse_spec, parse_number, simple, lemma_parse_simple, int_parse, parse_i32, parse_u32, parse_usize};
use crate::text::{
    find_char,
    find_char_exec,
    slice_vec,
    split_on,
    split_chars,
    trim,
    trim_chars,
    views,
    string_of,
    chars_of,
    eq_chars,
};

verus! {

/// A declared data column: its 1-based position and its quantity.
#[derive(Clone, Copy, Debug, PartialEq, Eq)]
pub struct ColumnSpec {
    pub index: usize,
    pub field: GefField,
}

/// What the header of a GEF file declares.
#[derive(Clone, Debug)]
pub struct GefHeader {
    pub test_id: Option<String>,
    pub project_id: Option<String>,
    pub project_name: Option<String>,
    pub company_id: Option<String>,
    /// `#FILEDATE`.
    pub date: Option<Date>,
    /// `#STARTDATE`, the day of the measurement.
    pub start_date: Option<Date>,
    pub x_rd: Option<Number>,
    pub y_rd: Option<Number>,
    pub z_nap: Option<Number>,
    pub columns: Vec<ColumnSpec>,
    /// (1-based column, void value) pairs.
    pub column_void: Vec<(usize, Number)>,
}

/// The header as plain values.
pub struct HeaderModel {
    pub test_id: Option<Seq<char>>,
    pub project_id: Option<Seq<char>>,
    pub project_name: Option<Seq<char>>,
    pub company_id: Option<Seq<char>>,
    pub date: Option<Date>,
    pub start_date: Option<Date>,
    pub x_rd: Option<Number>,
    pub y_rd: Option<Number>,
    pub z_nap: Option<Number>,
    pub columns: Seq<ColumnSpec>,
    pub column_void: Seq<(usize, Number)>,
}

pub open spec fn opt_view(o: Option<String>) -> Option<Seq<char>> {
    match o {
        Some(s) => Some(s@),
        None => None,
    }
}

impl View for GefHeader {
    type V = HeaderModel;

    open spec fn view(&self) -> HeaderModel {
        HeaderModel {
            test_id: opt_view(self.test_id),
            project_id: opt_view(self.project_id),
            project_name: opt_view(self.project_name),
            company_id: opt_view(self.company_id),
            date: self.date,
            start_date: self.start_date,
            x_rd: self.x_rd,
            y_rd: self.y_rd,
            z_nap: self.z_nap,
            columns: self.columns@,
            column_void: self.column_void@,
        }
    }
}

/// The numbers of a header are read from text.
pub open spec fn header_simple(h: HeaderModel) -> bool {
    &&& opt_simple(h.x_rd)
    &&& opt_simple(h.y_rd)
    &&& opt_simple(h.z_nap)
    &&& forall|j: int| 0 <= j < h.column_void.len() ==> simple(#[trigger] h.column_void[j].1)
    &&& (h.date matches Some(d) ==> valid_date(d.year as int, d.month as int, d.day as int))
    &&& (h.start_date matches Some(d) ==> valid_date(d.year as int, d.month as int, d.day as int))
}

pub open spec fn empty_model() -> HeaderModel {
    HeaderModel {
        test_id: None,
        project_id: None,
        project_name: None,
        company_id: None,
        date: None,
        start_date: None,
        x_rd: None,
        y_rd: None,
        z_nap: None,
        columns: seq![],
        column_void: seq![],
    }
}

impl GefHeader {
    /// A header that declares nothing.
    pub fn empty() -> (r: Self)
        ensures
            r@ == empty_model(),
    {
        GefHeader {
            test_id: None,
            project_id: None,
            project_name: None,
            company_id: None,
            date: None,
            start_date: None,
            x_rd: None,
            y_rd: None,
            z_nap: None,
            columns: Vec::new(),
            column_void: Vec::new(),
        }
    }
}

/// The upper-case form of a keyword under Unicode case mapping.
pub uninterp spec fn uppercase(s: Seq<char>) -> Seq<char>;

/// A word of the letters `A` to `Z` only.
pub open spec fn upper_word(s: Seq<char>) -> bool {
    forall|i: int| 0 <= i < s.len() ==> 'A' <= #[trigger] s[i] <= 'Z'
}

/// The keyword a header line declares: a word already in upper case stays
/// as it is.
pub open spec fn key_of(k: Seq<char>) -> Seq<char> {
    if upper_word(k) {
        k
    } else {
        uppercase(k)
    }
}

/// Calls `str::to_uppercase` on the keyword; its result is named by
/// `uppercase`. The letters `A` to `Z` have no other upper-case form, so a
/// word made of them alone comes back unchanged.
#[verifier::external_body]
fn to_uppercase_chars(s: &[char]) -> (r: Vec<char>)
    ensures
        r@ == uppercase(s@),
        upper_word(s@) ==> r@ == s@,
{
    let t: String = s.iter().collect();
    t.to_uppercase().chars().collect()
}

/// The comma separated parts of a value, each trimmed.
pub open spec fn trimmed_parts(value: Seq<char>) -> Seq<Seq<char>> {
    split_on(value, ',').map_values(|p: Seq<char>| trim(p))
}

/// The parts that read as `i32`, in order.
pub open spec fn int_parts(ps: Seq<Seq<char>>) -> Seq<int>
    decreases ps.len(),
{
    if ps.len() == 0 {
        seq![]
    } else {
        let r = int_parts(ps.drop_last());
        match int_parse(trim(ps.last()), true, i32::MIN as int, i32::MAX as int) {
            Some(v) => r.push(v),
            None => r,
        }
    }
}

/// A `YYYY, MM, DD` date value: the first three parts that read as `i32`.
pub open spec fn date_value(value: Seq<char>) -> Option<Date> {
    let p = int_parts(split_on(value, ','));
    if p.len() < 3 || p[1] < 0 || p[2] < 0 || !valid_date(p[0], p[1], p[2]) {
        None
    } else {
        Some(Date { year: p[0] as i32, month: p[1] as u32, day: p[2] as u32 })
    }
}

pub open spec fn set_xy(h: HeaderModel, x: Number, y: Number) -> HeaderModel {
    HeaderModel { x_rd: Some(x), y_rd: Some(y), ..h }
}

/// `#XYID= id, x, y, ...`: the position is set when both coordinates are
/// numbers the library holds exactly; a coordinate that is not a number,
/// is not finite, or is too large or too precise to hold leaves it unset.
pub open spec fn xyid_step(h: HeaderModel, value: Seq<char>) -> Option<HeaderModel> {
    let ps = trimmed_parts(value);
    if ps.len() < 3 {
        Some(h)
    } else {
        match (parse_spec(ps[1]), parse_spec(ps[2])) {
            (Parsed::Finite(a), Parsed::Finite(b)) => Some(set_xy(h, a, b)),
            _ => Some(h),
        }
    }
}

/// `#ZID= id, z, ...`: `z` is set when it is a number the library holds
/// exactly, and left unset otherwise.
pub open spec fn zid_step(h: HeaderModel, value: Seq<char>) -> Option<HeaderModel> {
    let ps = trimmed_parts(value);
    if ps.len() < 2 {
        Some(h)
    } else {
        match parse_spec(ps[1]) {
            Parsed::Finite(z) => Some(HeaderModel { z_nap: Some(z), ..h }),
            _ => Some(h),
        }
    }
}

/// `#COLUMNINFO= column, unit, name, quantity`.
pub open spec fn columninfo_step(h: HeaderModel, value: Seq<char>) -> HeaderModel {
    let ps = trimmed_parts(value);
    if ps.len() < 4 {
        h
    } else {
        match (int_parse(ps[0], false, 0, usize::MAX as int), int_parse(ps[3], false, 0, u32::MAX as int)) {
            (Some(c), Some(q)) => HeaderModel {
                columns: h.columns.push(ColumnSpec { index: c as usize, field: field_of(q as u32) }),
                ..h
            },
            _ => h,
        }
    }
}

/// `#COLUMNVOID= column, value`: the void is recorded when the value is a
/// number the library holds exactly, and left out otherwise.
pub open spec fn columnvoid_step(h: HeaderModel, value: Seq<char>) -> Option<HeaderModel> {
    let ps = trimmed_parts(value);
    if ps.len() < 2 {
        Some(h)
    } else {
        match (int_parse(ps[0], false, 0, usize::MAX as int), parse_spec(ps[1])) {
            (Some(c), Parsed::Finite(n)) => Some(
                HeaderModel { column_void: h.column_void.push((c as usize, n)), ..h },
            ),
            _ => Some(h),
        }
    }
}

/// What a header line with keyword `key` and trimmed value `value` does.
pub open spec fn header_entry(h: HeaderModel, key: Seq<char>, value: Seq<char>) -> Option<HeaderModel> {
    if key == "TESTID"@ {
        Some(HeaderModel { test_id: Some(value), ..h })
    } else if key == "PROJECTID"@ {
        Some(HeaderModel { project_id: Some(value), ..h })
    } else if key == "PROJECTNAME"@ {
        Some(HeaderModel { project_name: Some(value), ..h })
    } else if key == "COMPANYID"@ {
        Some(HeaderModel { company_id: Some(trim(value.subrange(0, find_char(value, ',', 0)))), ..h })
    } else if key == "FILEDATE"@ {
        Some(HeaderModel { date: date_value(value), ..h })
    } else if key == "STARTDATE"@ {
        Some(HeaderModel { start_date: date_value(value), ..h })
    } else if key == "XYID"@ {
        xyid_step(h, value)
    } else if key == "ZID"@ {
        zid_step(h, value)
    } else if key == "COLUMNINFO"@ {
        Some(columninfo_step(h, value))
    } else if key == "COLUMNVOID"@ {
        columnvoid_step(h, value)
    } else {
        Some(h)
    }
}

/// What one (trimmed) header line does.
pub open spec fn header_line(h: HeaderModel, line: Seq<char>) -> Option<HeaderModel> {
    if line.len() == 0 || line[0] != '#' {
        Some(h)
    } else {
        let rest = line.subrange(1, line.len() as int);
        let e = find_char(rest, '=', 0);
        if e >= rest.len() {
            Some(h)
        } else {
            header_entry(h, key_of(trim(rest.subrange(0, e))), trim(rest.subrange(e + 1, rest.len() as int)))
        }
    }
}

/// Why a header could not be read.
#[derive(Clone, Copy, Debug, PartialEq, Eq)]
pub enum HeaderFailure {
    /// No `#EOH=` line.
    MissingEoh,
    /// A header line that does not read. Every line reads (see
    /// `law_gef_fails_only_without_eoh`), so reading never reports it.
    OutOfRange,
}

pub open spec fn is_eoh(t: Seq<char>) -> bool {
    t == "#EOH="@ || t == "#EOH"@
}

/// Reads header lines from `i` on with `h` read so far; on success the
/// header and the index of the first data line.
pub open spec fn scan_header(lines: Seq<Seq<char>>, i: int, h: HeaderModel) -> Result<
    (HeaderModel, int),
    HeaderFailure,
>
    decreases lines.len() - i,
{
    if i < 0 || i >= lines.len() {
        Err(HeaderFailure::MissingEoh)
    } else if is_eoh(trim(lines[i])) {
        Ok((h, i + 1))
    } else {
        match header_line(h, trim(lines[i])) {
            Some(h2) => scan_header(lines, i + 1, h2),
            None => Err(HeaderFailure::OutOfRange),
        }
    }
}

pub open spec fn header_spec(lines: Seq<Seq<char>>) -> Result<(HeaderModel, int), HeaderFailure> {
    scan_header(lines, 0, empty_model())
}

/// The message of a GEF error.
pub open spec fn gef_error(e: CptError, msg: Seq<char>) -> bool {
    e matches CptError::InvalidGef(m) && m@ == msg
}

/// The error a header failure is reported as.
pub open spec fn header_error(e: CptError, f: HeaderFailure) -> bool {
    match f {
        HeaderFailure::MissingEoh => gef_error(e, "missing #EOH terminator"@),
        HeaderFailure::OutOfRange => gef_error(e, "number out of range"@),
    }
}

pub fn failure_error(f: HeaderFailure) -> (e: CptError)
    ensures
        header_error(e, f),
{
    match f {
        HeaderFailure::MissingEoh => CptError::InvalidGef("missing #EOH terminator".to_owned()),
        HeaderFailure::OutOfRange => CptError::InvalidGef("number out of range".to_owned()),
    }
}

fn is_word(k: &[char], w: &str) -> (r: bool)
    ensures
        r == (k@ == w@),
{
    let wc = chars_of(w);
    eq_chars(k, &wc)
}

fn trimmed_parts_exec(value: &[char]) -> (r: Vec<Vec<char>>)
    ensures
        views(r@) == trimmed_parts(value@),
{
    let ps = split_chars(value, ',');
    let mut r: Vec<Vec<char>> = Vec::new();
    for i in 0..ps.len()
        invariant
            views(ps@) == split_on(value@, ','),
            views(r@) == split_on(value@, ',').take(i as int).map_values(|p: Seq<char>| trim(p)),
    {
        let t = trim_chars(&ps[i]);
        let ghost before = views(r@);
        r.push(t);
        proof {
            assert(views(r@) =~= before.push(t@));
            assert(split_on(value@, ',').take(i + 1).map_values(|p: Seq<char>| trim(p))
                =~= before.push(trim(ps@[i as int]@)));
        }
    }
    proof {
        assert(split_on(value@, ',').take(ps@.len() as int) =~= split_on(value@, ','));
    }
    r
}

fn date_value_exec(value: &[char]) -> (r: Option<Date>)
    ensures
        r == date_value(value@),
{
    let ps = split_chars(value, ',');
    let mut p: Vec<i32> = Vec::new();
    for i in 0..ps.len()
        invariant
            views(ps@) == split_on(value@, ','),
            p@.len() == int_parts(views(ps@).take(i as int)).len(),
            forall|j: int|
                0 <= j < p@.len() ==> #[trigger] p@[j] as int == int_parts(views(ps@).take(i as int))[j],
    {
        let t = trim_chars(&ps[i]);
        proof {
            assert(views(ps@).take(i + 1).drop_last() =~= views(ps@).take(i as int));
            assert(views(ps@).take(i + 1).last() == ps@[i as int]@);
        }
        match parse_i32(&t) {
            Some(v) => {
                p.push(v);
            },
            None => {},
        }
    }
    proof {
        assert(views(ps@).take(ps@.len() as int) =~= views(ps@));
    }
    if p.len() < 3 {
        return None;
    }
    if p[1] < 0 || p[2] < 0 {
        return None;
    }
    from_ymd(p[0], p[1] as u32, p[2] as u32)
}

/// Reads a numeric part as `str::parse::<f64>` would, over exact numbers.
fn float_part(s: &[char]) -> (r: Parsed)
    ensures
        r == parse_spec(s@),
        r matches Parsed::Finite(n) ==> simple(n),
{
    proof {
        lemma_parse_simple(s@);
    }
    parse_number(s)
}

fn xyid_exec(h: GefHeader, value: &[char]) -> (r: Option<GefHeader>)
    requires
        header_simple(h@),
    ensures
        r matches Some(h2) ==> header_simple(h2@),
        match r {
            Some(h2) => xyid_step(h@, value@) == Some(h2@),
            None => xyid_step(h@, value@) is None,
        },
{
    let ps = trimmed_parts_exec(value);
    if ps.len() < 3 {
        return Some(h);
    }
    let x = float_part(&ps[1]);
    let y = float_part(&ps[2]);
    match (x, y) {
        (Parsed::Invalid, _) => Some(h),
        (_, Parsed::Invalid) => Some(h),
        (Parsed::Finite(a), Parsed::Finite(b)) => {
            let mut h = h;
            h.x_rd = Some(a);
            h.y_rd = Some(b);
            Some(h)
        },
        _ => Some(h),
    }
}

fn zid_exec(h: GefHeader, value: &[char]) -> (r: Option<GefHeader>)
    requires
        header_simple(h@),
    ensures
        r matches Some(h2) ==> header_simple(h2@),
        match r {
            Some(h2) => zid_step(h@, value@) == Some(h2@),
            None => zid_step(h@, value@) is None,
        },
{
    let ps = trimmed_parts_exec(value);
    if ps.len() < 2 {
        return Some(h);
    }
    match float_part(&ps[1]) {
        Parsed::Finite(z) => {
            let mut h = h;
            h.z_nap = Some(z);
            Some(h)
        },
        _ => Some(h),
    }
}

fn columninfo_exec(h: GefHeader, value: &[char]) -> (r: GefHeader)
    requires
        header_simple(h@),
    ensures
        header_simple(r@),
        r@ == columninfo_step(h@, value@),
{
    let ps = trimmed_parts_exec(value);
    if ps.len() < 4 {
        return h;
    }
    let col = parse_usize(&ps[0]);
    let q = parse_u32(&ps[3]);
    match (col, q) {
        (Some(c), Some(q)) => {
            let mut h = h;
            h.columns.push(ColumnSpec { index: c, field: from_quantity(q) });
            h
        },
        _ => h,
    }
}

fn columnvoid_exec(h: GefHeader, value: &[char]) -> (r: Option<GefHeader>)
    requires
        header_simple(h@),
    ensures
        r matches Some(h2) ==> header_simple(h2@),
        match r {
            Some(h2) => columnvoid_step(h@, value@) == Some(h2@),
            None => columnvoid_step(h@, value@) is None,
        },
{
    let ps = trimmed_parts_exec(value);
    if ps.len() < 2 {
        return Some(h);
    }
    let c = parse_usize(&ps[0]);
    let v = float_part(&ps[1]);
    match (c, v) {
        (None, _) => Some(h),
        (_, Parsed::Invalid) => Some(h),
        (Some(c), Parsed::Finite(n)) => {
            let mut h = h;
            h.column_void.push((c, n));
            Some(h)
        },
        _ => Some(h),
    }
}

/// Applies one trimmed header line.
fn header_line_exec(h: GefHeader, line: &[char]) -> (r: Option<GefHeader>)
    requires
        header_simple(h@),
    ensures
        r matches Some(h2) ==> header_simple(h2@),
        match r {
            Some(h2) => header_line(h@, line@) == Some(h2@),
            None => header_line(h@, line@) is None,
        },
{
    if line.len() == 0 || line[0] != '#' {
        return Some(h);
    }
    let rest = slice_vec(line, 1, line.len());
    let e = find_char_exec(&rest, '=', 0);
    if e >= rest.len() {
        return Some(h);
    }
    let kraw = slice_vec(&rest, 0, e);
    let kt = trim_chars(&kraw);
    let key = to_uppercase_chars(&kt);
    let vraw = slice_vec(&rest, e + 1, rest.len());
    let value = trim_chars(&vraw);
    let mut h = h;
    if is_word(&key, "TESTID") {
        h.test_id = Some(string_of(&value));
        Some(h)
    } else if is_word(&key, "PROJECTID") {
        h.project_id = Some(string_of(&value));
        Some(h)
    } else if is_word(&key, "PROJECTNAME") {
        h.project_name = Some(string_of(&value));
        Some(h)
    } else if is_word(&key, "COMPANYID") {
        let c = find_char_exec(&value, ',', 0);
        let first = slice_vec(&value, 0, c);
        let t = trim_chars(&first);
        h.company_id = Some(string_of(&t));
        Some(h)
    } else if is_word(&key, "FILEDATE") {
        h.date = date_value_exec(&value);
        Some(h)
    } else if is_word(&key, "STARTDATE") {
        h.start_date = date_value_exec(&value);
        Some(h)
    } else if is_word(&key, "XYID") {
        xyid_exec(h, &value)
    } else if is_word(&key, "ZID") {
        zid_exec(h, &value)
    } else if is_word(&key, "COLUMNINFO") {
        Some(columninfo_exec(h, &value))
    } else if is_word(&key, "COLUMNVOID") {
        columnvoid_exec(h, &value)
    } else {
        Some(h)
    }
}

fn is_eoh_exec(t: &[char]) -> (r: bool)
    ensures
        r == is_eoh(t@),
{
    is_word(t, "#EOH=") || is_word(t, "#EOH")
}

/// Reads the header from lines of text: the header and the index of the
/// first line after `#EOH=`.
pub fn scan_header_lines(lines: &Vec<Vec<char>>) -> (r: Result<(GefHeader, usize), CptError>)
    ensures
        match r {
            Ok((h, k)) => header_spec(views(lines@)) == Ok::<(HeaderModel, int), HeaderFailure>(
                (h@, k as int),
            ) && header_simple(h@) && k <= lines@.len(),
            Err(e) => exists|f: HeaderFailure|
                header_spec(views(lines@)) == Err::<(HeaderModel, int), HeaderFailure>(f)
                    && header_error(e, f),
        },
{
    let mut h = GefHeader::empty();
    let mut i: usize = 0;
    while i < lines.len()
        invariant
            i <= lines@.len(),
            header_spec(views(lines@)) == scan_header(views(lines@), i as int, h@),
            header_simple(h@),
        decreases lines@.len() - i,
    {
        let t = trim_chars(&lines[i]);
        if is_eoh_exec(&t) {
            return Ok((h, i + 1));
        }
        match header_line_exec(h, &t) {
            Some(h2) => {
                h = h2;
            },
            None => {
                let e = failure_error(HeaderFailure::OutOfRange);
                return Err(e);
            },
        }
        i = i + 1;
    }
    let e = failure_error(HeaderFailure::MissingEoh);
    Err(e)
}

/// Reads the header of a GEF file given as lines: the header and the index
/// of the first data line.
pub fn parse_header(lines: &[&str]) -> (r: Result<(GefHeader, usize), CptError>)
    ensures
        match r {
            Ok((h, k)) => header_spec(lines@.map_values(|l: &str| l@)) == Ok::<
                (HeaderModel, int),
                HeaderFailure,
            >((h@, k as int)),
            Err(e) => exists|f: HeaderFailure|
                header_spec(lines@.map_values(|l: &str| l@)) == Err::<
                    (HeaderModel, int),
                    HeaderFailure,
                >(f) && header_error(e, f),
        },
{
    let mut v: Vec<Vec<char>> = Vec::new();
    for i in 0..lines.len()
        invariant
            views(v@) == lines@.take(i as int).map_values(|l: &str| l@),
    {
        let c = chars_of(lines[i]);
        let ghost before = views(v@);
        v.push(c);
        proof {
            assert(views(v@) =~= before.push(c@));
            assert(lines@.take(i + 1).map_values(|l: &str| l@) =~= before.push(lines@[i as int]@));
        }
    }
    proof {
        assert(lines@.take(lines@.len() as int) =~= lines@);
    }
    scan_header_lines(&v)
}

} // verus!
