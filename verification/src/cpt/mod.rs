//! Cone penetration tests: the shared domain model, parsers for GEF and BRO
//! XML, Robertson classification, layer detection and writers.

pub mod robertson;
pub mod layers;
pub mod gef;
pub mod write;
pub mod bro;
pub mod ifcgis;
pub mod round_trip;
pub mod bro_values;
pub mod footer;

use vstd::prelude::*;

use crate::calendar::{Date, valid_date};
use crate::cpt::gef::data::{gef_spec, cpt_of_header, gef_read};
use crate::cpt::gef::header::header_error;
use crate::text::{chars_of, starts_with, starts_with_chars, trim_start, trim_start_chars};
use crate::keyed::KeyedVec;
use crate::number::{Number, simple, bounded, ratio};
use crate::xml::{Tokens, tokens_of, text_len};
use crate::cpt::bro::{bro_cpt_read, bro_read};

verus! {

/// RD coordinates of a test and the NAP level of its ground surface.
#[derive(Clone, Copy, Debug, PartialEq, Eq)]
pub struct Position {
    pub x_rd: Number,
    pub y_rd: Number,
    pub z_nap: Option<Number>,
}

/// One measurement row of a CPT.
#[derive(Clone, Copy, Debug, PartialEq, Eq)]
pub struct MeasurementPoint {
    /// Depth below ground level in metres (positive downwards).
    pub depth: Number,
    /// Depth as NAP level, when the ground level is known.
    pub depth_nap: Option<Number>,
    /// Cone resistance in MPa.
    pub qc: Option<Number>,
    /// Sleeve friction in MPa.
    pub fs: Option<Number>,
    /// Friction ratio in percent.
    pub rf: Option<Number>,
    /// Pore pressure u2 in MPa.
    pub u2: Option<Number>,
    /// Inclination in degrees.
    pub inclination: Option<Number>,
}

/// Descriptive metadata of a CPT.
#[derive(Clone, Debug)]
pub struct Metadata {
    pub project_name: Option<String>,
    pub project_number: Option<String>,
    pub date: Option<Date>,
    pub equipment: Option<String>,
    pub ground_level_nap: Option<Number>,
    pub source_file: String,
    pub extra: KeyedVec<String>,
}

/// A cone penetration test.
#[derive(Clone, Debug)]
pub struct Cpt {
    pub id: String,
    pub metadata: Metadata,
    pub position: Option<Position>,
    pub points: Vec<MeasurementPoint>,
}

/// Errors of the CPT parsers.
#[derive(Clone, Debug, PartialEq, Eq)]
pub enum CptError {
    /// The content is neither GEF nor XML.
    UnknownFormat,
    /// The GEF content is not usable.
    InvalidGef(String),
    /// The BRO XML content is not usable.
    InvalidBro(String),
}

pub open spec fn opt_simple(o: Option<Number>) -> bool {
    o matches Some(n) ==> simple(n)
}

pub open spec fn opt_bounded(o: Option<Number>) -> bool {
    o matches Some(n) ==> bounded(n)
}

pub open spec fn opt_ratio(o: Option<Number>) -> bool {
    o matches Some(n) ==> ratio(n)
}

pub open spec fn opt_valid(o: Option<Number>) -> bool {
    o matches Some(n) ==> n.den > 0
}

/// Every number of the point is a well-formed fraction (`den > 0`).
pub open spec fn point_valid(p: MeasurementPoint) -> bool {
    &&& p.depth.den > 0
    &&& opt_valid(p.depth_nap)
    &&& opt_valid(p.qc)
    &&& opt_valid(p.fs)
    &&& opt_valid(p.rf)
    &&& opt_valid(p.u2)
    &&& opt_valid(p.inclination)
}

/// A well-formed CPT: every number has a positive denominator and the
/// date, if any, exists.
pub open spec fn cpt_valid(c: Cpt) -> bool {
    &&& forall|i: int| 0 <= i < c.points@.len() ==> point_valid(#[trigger] c.points@[i])
    &&& (c.position matches Some(p) ==> p.x_rd.den > 0 && p.y_rd.den > 0 && opt_valid(p.z_nap))
    &&& opt_valid(c.metadata.ground_level_nap)
    &&& (c.metadata.date matches Some(d) ==> valid_date(d.year as int, d.month as int, d.day as int))
}

/// The CPTs the parsers make are well formed.
pub proof fn lemma_ok_valid(c: Cpt)
    requires
        cpt_ok(c),
    ensures
        cpt_valid(c),
{
    assert forall|i: int| 0 <= i < c.points@.len() implies point_valid(#[trigger] c.points@[i]) by {
        assert(point_ok(c.points@[i]));
    }
}

/// The values of a measurement point as the parsers make them: read from
/// text, or derived from such values (`rf`, `depth_nap`).
pub open spec fn point_ok(p: MeasurementPoint) -> bool {
    &&& simple(p.depth)
    &&& opt_bounded(p.depth_nap)
    &&& opt_simple(p.qc)
    &&& opt_simple(p.fs)
    &&& opt_ratio(p.rf)
    &&& opt_simple(p.u2)
    &&& opt_simple(p.inclination)
}

/// A CPT whose values are all exact decimals of the sizes the parsers
/// produce, and whose date exists.
pub open spec fn cpt_ok(c: Cpt) -> bool {
    &&& forall|i: int| 0 <= i < c.points@.len() ==> point_ok(#[trigger] c.points@[i])
    &&& (c.position matches Some(p) ==> simple(p.x_rd) && simple(p.y_rd) && opt_simple(p.z_nap))
    &&& opt_simple(c.metadata.ground_level_nap)
    &&& (c.metadata.date matches Some(d) ==> valid_date(d.year as int, d.month as int, d.day as int))
}

impl Metadata {
    /// Metadata with every field empty.
    pub fn empty() -> (r: Self)
        ensures
            r.project_name is None,
            r.project_number is None,
            r.date is None,
            r.equipment is None,
            r.ground_level_nap is None,
            r.source_file@ == Seq::<char>::empty(),
            r.extra.entries() == Seq::<(Seq<char>, String)>::empty(),
    {
        Metadata {
            project_name: None,
            project_number: None,
            date: None,
            equipment: None,
            ground_level_nap: None,
            source_file: String::new(),
            extra: KeyedVec::new(),
        }
    }
}

fn fits_simple(n: Number) -> (r: bool)
    ensures
        r == simple(n),
{
    proof {
        crate::number::lemma_pow_facts();
    }
    0 < n.den && n.den <= 1000000000000000000 && -100000000000000000 < n.num && n.num < 100000000000000000
}

fn fits_opt(o: Option<Number>, den_max: i128) -> (r: bool)
    requires
        den_max == 1000000000000000000 || den_max == 1000000000000000000000000000000000000
            || den_max == 100000000000000000000000000000000000,
    ensures
        r == (o matches Some(n) ==> (if den_max == 1000000000000000000 {
            simple(n)
        } else if den_max == 1000000000000000000000000000000000000 {
            bounded(n)
        } else {
            ratio(n)
        })),
{
    proof {
        crate::number::lemma_pow_facts();
    }
    match o {
        None => true,
        Some(n) => if den_max == 1000000000000000000 {
            fits_simple(n)
        } else {
            0 < n.den && n.den <= den_max && -10000000000000000000000000000000000000 <= n.num
                && n.num <= 10000000000000000000000000000000000000
        },
    }
}

fn point_fits(p: MeasurementPoint) -> (r: bool)
    ensures
        r == point_ok(p),
{
    let s: i128 = 1000000000000000000;
    let b: i128 = 1000000000000000000000000000000000000;
    let q: i128 = 100000000000000000000000000000000000;
    fits_simple(p.depth) && fits_opt(p.depth_nap, b) && fits_opt(p.qc, s) && fits_opt(p.fs, s)
        && fits_opt(p.rf, q) && fits_opt(p.u2, s) && fits_opt(p.inclination, s)
}

/// Whether a CPT built elsewhere holds only values of the sizes the parsers
/// produce and an existing date.
pub fn cpt_fits(c: &Cpt) -> (r: bool)
    ensures
        r == cpt_ok(*c),
{
    let mut i: usize = 0;
    while i < c.points.len()
        invariant
            i <= c.points@.len(),
            forall|j: int| 0 <= j < i ==> point_ok(#[trigger] c.points@[j]),
        decreases c.points@.len() - i,
    {
        if !point_fits(c.points[i]) {
            return false;
        }
        i = i + 1;
    }
    let s: i128 = 1000000000000000000;
    let pos = match c.position {
        Some(p) => fits_simple(p.x_rd) && fits_simple(p.y_rd) && fits_opt(p.z_nap, s),
        None => true,
    };
    let date = match c.metadata.date {
        Some(d) => crate::calendar::from_ymd(d.year, d.month, d.day).is_some(),
        None => true,
    };
    pos && fits_opt(c.metadata.ground_level_nap, s) && date
}

/// What reading `content` as GEF or BRO XML gives (see `parse_auto`).
pub open spec fn auto_read(r: Result<Cpt, CptError>, content: &str) -> bool {
    let t = trim_start(content@);
    &&& (!starts_with(t, "#GEF"@) && !starts_with(t, "<"@) <==> r matches Err(CptError::UnknownFormat))
    &&& (starts_with(t, "#GEF"@) ==> gef_read(r, content@))
    &&& (!starts_with(t, "#GEF"@) && starts_with(t, "<"@) ==> bro_read(r, content))
    &&& (r matches Ok(c) ==> cpt_ok(c))
}

/// Reads a CPT from GEF or BRO XML, told apart by the first non-blank
/// characters: `#GEF` starts a GEF file, `<` an XML document; anything
/// else is an unknown format.
pub fn parse_auto(content: &str) -> (r: Result<Cpt, CptError>)
    ensures
        !starts_with(trim_start(content@), "#GEF"@) && !starts_with(trim_start(content@), "<"@)
            <==> r matches Err(CptError::UnknownFormat),
        starts_with(trim_start(content@), "#GEF"@) ==> gef_read(r, content@),
        !starts_with(trim_start(content@), "#GEF"@) && starts_with(trim_start(content@), "<"@) ==> bro_read(
            r,
            content,
        ),
        r matches Ok(c) ==> cpt_ok(c),
        auto_read(r, content),
{
    let c = chars_of(content);
    let t = trim_start_chars(&c);
    proof {
        if starts_with(t@, "#GEFID"@) {
            reveal_strlit("#GEFID");
            reveal_strlit("#GEF");
            assert(t@.take(6).take(4) =~= t@.take(4));
            assert("#GEFID"@.take(4) =~= "#GEF"@);
        }
    }
    if starts_with_chars(&t, &chars_of("#GEF")) || starts_with_chars(&t, &chars_of("#GEFID")) {
        return crate::cpt::gef::data::parse(content);
    }
    if starts_with_chars(&t, &chars_of("<?xml")) || starts_with_chars(&t, &chars_of("<")) {
        let r = crate::cpt::bro::parse(content);
        proof {
            if starts_with(t@, "<?xml"@) {
                reveal_strlit("<?xml");
                reveal_strlit("<");
                assert(t@.take(5).take(1) =~= t@.take(1));
                assert("<?xml"@.take(1) =~= "<"@);
            }
        }
        return r;
    }
    Err(CptError::UnknownFormat)
}

/// `parse_auto` answers as the reader its content names: for text whose
/// first non-blank characters are `#GEF`, whatever the GEF reader's
/// contract says of its answer on that text; for other text starting with
/// `<`, whatever the BRO CPT reader's says; for any other text, the
/// unknown-format error.
pub proof fn law_parse_auto_dispatches(content: &str, r: Result<Cpt, CptError>)
    requires
        auto_read(r, content),
    ensures
        starts_with(trim_start(content@), "#GEF"@) ==> gef_read(r, content@),
        !starts_with(trim_start(content@), "#GEF"@) && starts_with(trim_start(content@), "<"@) ==> bro_read(
            r,
            content,
        ),
        !starts_with(trim_start(content@), "#GEF"@) && !starts_with(trim_start(content@), "<"@) ==> r
            == Err::<Cpt, CptError>(CptError::UnknownFormat),
{
}

} // verus!
