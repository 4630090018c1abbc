//! Writers: a CPT back into GEF 1.1 (in the layout GEFPlotTool 5.1
//! expects) and into a minimal BRO XML CPT_O document, each readable by the
//! parsers of this library.

use vstd::prelude::*;

use crate::calendar::{Date, ymd_text, push_ymd};
use crate::cpt::{Cpt, MeasurementPoint, cpt_valid, point_valid};
use crate::cpt::gef::header::opt_view;
use crate::number::{Number, Parsed, fixed_text, fixed_chars, nat_text, nat_chars, lemma_pow_facts, simple, ratio, pow10, scaled_round, shown, numeral_char, parse_spec, lemma_fixed_text_shape, law_fixed_text_reads_back, lemma_void_texts};
use crate::cpt::gef::columns::GefField;
use crate::cpt::gef::header::{ColumnSpec, HeaderModel};
use crate::cpt::gef::data::{values_from, record_tokens, point_spec, columns_from, column_step, voided, near, abs_num, complete_point, blank_point};
use crate::text::{trim, split_on, find_char, lemma_split_first, lemma_trim_plain};
use crate::text::{chars_of, push_str, push_all, string_of, join};

verus! {

/// The fixed opening of a written GEF file.
pub open spec fn gef_head_text() -> Seq<char> {
    "#GEFID= 1, 1, 0\n#COLUMN= 4\n#COLUMNINFO= 1, m, sondeertrajectlengte, 1\n#COLUMNINFO= 2, MPa, conusweerstand, 2\n#COLUMNINFO= 3, MPa, plaatselijke wrijving, 3\n#COLUMNINFO= 4, %, wrijvingsgetal, 4\n#COLUMNSEPARATOR= ;\n#COLUMNTEXT= 1, aan\n#COLUMNVOID= 1, 999.999\n#COLUMNVOID= 2, 999.999\n#COLUMNVOID= 3, 9.999\n#COLUMNVOID= 4, 999.9\n"@
}

pub open spec fn company_text(c: Cpt) -> Seq<char> {
    match opt_view(c.metadata.equipment) {
        Some(e) => "#COMPANYID= "@ + e + "\n"@,
        None => seq![],
    }
}

pub open spec fn filedate_text(c: Cpt) -> Seq<char> {
    match c.metadata.date {
        Some(d) => "#FILEDATE= "@ + ymd_text(d, ", "@) + "\n"@,
        None => seq![],
    }
}

/// `#FILEOWNER=`: the `FILEOWNER` extra, or the studio name.
pub open spec fn owner_text(c: Cpt) -> Seq<char> {
    "#FILEOWNER= "@ + (match c.metadata.extra.get_spec("FILEOWNER"@) {
        Some(s) => s@,
        None => "Open Geotechniek Studio"@,
    }) + "\n"@
}

pub open spec fn lastscan_text(c: Cpt) -> Seq<char> {
    "#LASTSCAN= "@ + nat_text(c.points@.len()) + "\n"@
}

/// A vertical reference is known.
pub open spec fn has_z(c: Cpt) -> bool {
    (c.position matches Some(p) && p.z_nap is Some) || c.metadata.ground_level_nap is Some
}

pub open spec fn mtext_text(c: Cpt) -> Seq<char> {
    if has_z(c) {
        "#MEASUREMENTTEXT= 9, maaiveld, lokaal verticaal referentiepunt\n"@
    } else {
        seq![]
    }
}

pub open spec fn zero() -> Number {
    Number { num: 0, den: 1 }
}

/// Depth of the first point (0 without points).
pub open spec fn first_depth(ps: Seq<MeasurementPoint>) -> Number {
    if ps.len() > 0 {
        ps[0].depth
    } else {
        zero()
    }
}

/// Depth of the last point (0 without points).
pub open spec fn last_depth(ps: Seq<MeasurementPoint>) -> Number {
    if ps.len() > 0 {
        ps.last().depth
    } else {
        zero()
    }
}

pub open spec fn mvar_text(c: Cpt) -> Seq<char> {
    let f = first_depth(c.points@);
    (if f.num > 0 {
        "#MEASUREMENTVAR= 13, "@ + fixed_text(f, 3) + ", m, voorgeboord tot\n"@
    } else {
        seq![]
    }) + "#MEASUREMENTVAR= 16, "@ + fixed_text(last_depth(c.points@), 3) + ", m, einddiepte\n"@
        + "#MEASUREMENTVAR= 17, 0, -, stopcriterium\n"@
}

/// `#PROJECTID=`: the project number, else the `PROJECTID` extra, else
/// `Unknown`.
pub open spec fn project_text(c: Cpt) -> Seq<char> {
    "#PROJECTID= "@ + (match opt_view(c.metadata.project_number) {
        Some(s) => s,
        None => match c.metadata.extra.get_spec("PROJECTID"@) {
            Some(s) => s@,
            None => "Unknown"@,
        },
    }) + "\n"@
}

pub open spec fn separators_text() -> Seq<char> {
    "#RECORDSEPARATOR= !\n#REPORTCODE= GEF-CPT-Report, 1, 1, 2\n"@
}

pub open spec fn startdate_text(c: Cpt) -> Seq<char> {
    match c.metadata.date {
        Some(d) => "#STARTDATE= "@ + ymd_text(d, ", "@) + "\n"@ + "#STARTTIME= -, -, -\n"@,
        None => seq![],
    }
}

pub open spec fn testid_text(c: Cpt) -> Seq<char> {
    "#TESTID= "@ + c.id@ + "\n"@
}

pub open spec fn zid_text(z: Number) -> Seq<char> {
    "#ZID= 31000, "@ + fixed_text(z, 3) + "\n"@
}

pub open spec fn opt_zid_text(z: Option<Number>) -> Seq<char> {
    match z {
        Some(v) => zid_text(v),
        None => seq![],
    }
}

/// `#XYID=` and `#ZID=`; the level of the position wins over the ground
/// level.
pub open spec fn xyz_text(c: Cpt) -> Seq<char> {
    match c.position {
        Some(p) => "#XYID= 28992, "@ + fixed_text(p.x_rd, 3) + ", "@ + fixed_text(p.y_rd, 3) + "\n"@
            + (if p.z_nap is Some {
            opt_zid_text(p.z_nap)
        } else {
            opt_zid_text(c.metadata.ground_level_nap)
        }),
        None => opt_zid_text(c.metadata.ground_level_nap),
    }
}

pub open spec fn void_or(o: Option<Number>, k: nat, void: Seq<char>) -> Seq<char> {
    match o {
        Some(x) => fixed_text(x, k),
        None => void,
    }
}

/// One data record: `length;qc;fs;rf;!`.
pub open spec fn gef_row_text(p: MeasurementPoint) -> Seq<char> {
    fixed_text(p.depth, 3) + ";"@ + void_or(p.qc, 3, "999.999"@) + ";"@ + void_or(p.fs, 3, "9.999"@)
        + ";"@ + void_or(p.rf, 1, "999.9"@) + ";!\n"@
}

pub open spec fn gef_rows_text(ps: Seq<MeasurementPoint>) -> Seq<char>
    decreases ps.len(),
{
    if ps.len() == 0 {
        seq![]
    } else {
        gef_rows_text(ps.drop_last()) + gef_row_text(ps.last())
    }
}

/// The GEF text written for `c`.
pub open spec fn gef_text(c: Cpt) -> Seq<char> {
    gef_head_text() + company_text(c) + filedate_text(c) + owner_text(c) + lastscan_text(c)
        + mtext_text(c) + mvar_text(c) + project_text(c) + separators_text() + startdate_text(c)
        + testid_text(c) + xyz_text(c) + "#EOH=\n"@ + gef_rows_text(c.points@)
}

fn push_fixed(out: &mut Vec<char>, n: Number, k: u32)
    requires
        n.den > 0,
        k <= 3,
    ensures
        final(out)@ == old(out)@ + fixed_text(n, k as nat),
{
    let mut t = fixed_chars(n, k);
    out.append(&mut t);
}

fn push_void_or(out: &mut Vec<char>, o: Option<Number>, k: u32, void: &str)
    requires
        o matches Some(x) ==> x.den > 0,
        k <= 3,
    ensures
        final(out)@ == old(out)@ + void_or(o, k as nat, void@),
{
    match o {
        Some(x) => push_fixed(out, x, k),
        None => push_str(out, void),
    }
}

fn push_gef_row(out: &mut Vec<char>, p: &MeasurementPoint)
    requires
        point_valid(*p),
    ensures
        final(out)@ == old(out)@ + gef_row_text(*p),
{
    let mut r = fixed_vec(p.depth, 3);
    push_str(&mut r, ";");
    push_void_or(&mut r, p.qc, 3, "999.999");
    push_str(&mut r, ";");
    push_void_or(&mut r, p.fs, 3, "9.999");
    push_str(&mut r, ";");
    push_void_or(&mut r, p.rf, 1, "999.9");
    push_str(&mut r, ";!\n");
    push_all(out, &r);
}

fn push_zid(out: &mut Vec<char>, z: Option<Number>)
    requires
        z matches Some(v) ==> v.den > 0,
    ensures
        final(out)@ == old(out)@ + opt_zid_text(z),
{
    match z {
        Some(v) => {
            let ghost start = out@;
            push_str(out, "#ZID= 31000, ");
            push_fixed(out, v, 3);
            push_str(out, "\n");
            proof {
                assert(out@ =~= start + zid_text(v));
            }
        },
        None => {
            proof {
                assert(out@ =~= old(out)@ + opt_zid_text(z));
            }
        },
    }
}

fn push_line(out: &mut Vec<char>, key: &str, value: &[char])
    ensures
        final(out)@ == old(out)@ + (key@ + value@ + "\n"@),
{
    let ghost start = out@;
    push_str(out, key);
    push_all(out, value);
    push_str(out, "\n");
    proof {
        assert(out@ =~= start + (key@ + value@ + "\n"@));
    }
}

fn push_company(out: &mut Vec<char>, cpt: &Cpt)
    ensures
        final(out)@ == old(out)@ + company_text(*cpt),
{
    match &cpt.metadata.equipment {
        Some(e) => {
            let ec = chars_of(e.as_str());
            push_line(out, "#COMPANYID= ", &ec);
        },
        None => {
            proof {
                assert(out@ =~= old(out)@ + company_text(*cpt));
            }
        },
    }
}

fn push_dated(out: &mut Vec<char>, key: &str, d: Date)
    requires
        crate::calendar::valid_date(d.year as int, d.month as int, d.day as int),
    ensures
        final(out)@ == old(out)@ + (key@ + ymd_text(d, ", "@) + "\n"@),
{
    let ghost start = out@;
    push_str(out, key);
    push_ymd(out, d, ", ");
    push_str(out, "\n");
    proof {
        assert(out@ =~= start + (key@ + ymd_text(d, ", "@) + "\n"@));
    }
}

fn push_filedate(out: &mut Vec<char>, cpt: &Cpt)
    requires
        cpt_valid(*cpt),
    ensures
        final(out)@ == old(out)@ + filedate_text(*cpt),
{
    match cpt.metadata.date {
        Some(d) => push_dated(out, "#FILEDATE= ", d),
        None => {
            proof {
                assert(out@ =~= old(out)@ + filedate_text(*cpt));
            }
        },
    }
}

fn push_owner(out: &mut Vec<char>, cpt: &Cpt)
    ensures
        final(out)@ == old(out)@ + owner_text(*cpt),
{
    let owner_key = chars_of("FILEOWNER");
    let owner = match cpt.metadata.extra.get(&owner_key) {
        Some(s) => chars_of(s.as_str()),
        None => chars_of("Open Geotechniek Studio"),
    };
    push_line(out, "#FILEOWNER= ", &owner);
}

fn push_lastscan(out: &mut Vec<char>, cpt: &Cpt)
    ensures
        final(out)@ == old(out)@ + lastscan_text(*cpt),
{
    let n = nat_chars(cpt.points.len() as u128);
    push_line(out, "#LASTSCAN= ", &n);
}

fn push_mtext(out: &mut Vec<char>, cpt: &Cpt)
    ensures
        final(out)@ == old(out)@ + mtext_text(*cpt),
{
    let z_known = match cpt.position {
        Some(p) => p.z_nap.is_some(),
        None => false,
    } || cpt.metadata.ground_level_nap.is_some();
    if z_known {
        push_str(out, "#MEASUREMENTTEXT= 9, maaiveld, lokaal verticaal referentiepunt\n");
    } else {
        proof {
            assert(out@ =~= old(out)@ + mtext_text(*cpt));
        }
    }
}

fn push_mvar(out: &mut Vec<char>, cpt: &Cpt)
    requires
        cpt_valid(*cpt),
    ensures
        final(out)@ == old(out)@ + mvar_text(*cpt),
{
    let ghost start = out@;
    let np = cpt.points.len();
    let first = if np > 0 {
        cpt.points[0].depth
    } else {
        Number { num: 0, den: 1 }
    };
    let last = if np > 0 {
        cpt.points[np - 1].depth
    } else {
        first
    };
    proof {
        lemma_pow_facts();
        if np > 0 {
            assert(point_valid(cpt.points@[0]));
            assert(point_valid(cpt.points@[np - 1]));
            assert(cpt.points@.last() == cpt.points@[np - 1]);
        }
    }
    let ghost a = out@;
    if first.num > 0 {
        push_str(out, "#MEASUREMENTVAR= 13, ");
        push_fixed(out, first, 3);
        push_str(out, ", m, voorgeboord tot\n");
    }
    proof {
        assert(out@ =~= a + (if first.num > 0 {
            "#MEASUREMENTVAR= 13, "@ + fixed_text(first, 3) + ", m, voorgeboord tot\n"@
        } else {
            seq![]
        }));
    }
    push_str(out, "#MEASUREMENTVAR= 16, ");
    push_fixed(out, last, 3);
    push_str(out, ", m, einddiepte\n");
    push_str(out, "#MEASUREMENTVAR= 17, 0, -, stopcriterium\n");
    proof {
        assert(out@ =~= start + mvar_text(*cpt));
    }
}

fn push_project(out: &mut Vec<char>, cpt: &Cpt)
    ensures
        final(out)@ == old(out)@ + project_text(*cpt),
{
    let pid = match &cpt.metadata.project_number {
        Some(s) => chars_of(s.as_str()),
        None => {
            let pk = chars_of("PROJECTID");
            match cpt.metadata.extra.get(&pk) {
                Some(s) => chars_of(s.as_str()),
                None => chars_of("Unknown"),
            }
        },
    };
    push_line(out, "#PROJECTID= ", &pid);
}

fn push_startdate(out: &mut Vec<char>, cpt: &Cpt)
    requires
        cpt_valid(*cpt),
    ensures
        final(out)@ == old(out)@ + startdate_text(*cpt),
{
    let ghost start = out@;
    match cpt.metadata.date {
        Some(d) => {
            push_dated(out, "#STARTDATE= ", d);
            push_str(out, "#STARTTIME= -, -, -\n");
        },
        None => {},
    }
    proof {
        assert(out@ =~= start + startdate_text(*cpt));
    }
}

fn push_xyz(out: &mut Vec<char>, cpt: &Cpt)
    requires
        cpt_valid(*cpt),
    ensures
        final(out)@ == old(out)@ + xyz_text(*cpt),
{
    let ghost start = out@;
    match cpt.position {
        Some(pos) => {
            push_str(out, "#XYID= 28992, ");
            push_fixed(out, pos.x_rd, 3);
            push_str(out, ", ");
            push_fixed(out, pos.y_rd, 3);
            push_str(out, "\n");
            if pos.z_nap.is_some() {
                push_zid(out, pos.z_nap);
            } else {
                push_zid(out, cpt.metadata.ground_level_nap);
            }
        },
        None => {
            push_zid(out, cpt.metadata.ground_level_nap);
        },
    }
    proof {
        assert(out@ =~= start + xyz_text(*cpt));
    }
}

fn push_gef_rows(out: &mut Vec<char>, cpt: &Cpt)
    requires
        cpt_valid(*cpt),
    ensures
        final(out)@ == old(out)@ + gef_rows_text(cpt.points@),
{
    let ghost start = out@;
    for i in 0..cpt.points.len()
        invariant
            cpt_valid(*cpt),
            out@ == start + gef_rows_text(cpt.points@.take(i as int)),
    {
        proof {
            assert(cpt.points@.take(i + 1).drop_last() =~= cpt.points@.take(i as int));
            assert(point_valid(cpt.points@[i as int]));
        }
        push_gef_row(out, &cpt.points[i]);
        proof {
            assert(out@ =~= start + gef_rows_text(cpt.points@.take(i + 1)));
        }
    }
    proof {
        assert(cpt.points@.take(cpt.points@.len() as int) =~= cpt.points@);
    }
}

/// Writes `cpt` as a GEF 1.1 file in the layout GEFPlotTool 5.1 expects:
/// keywords in alphabetical order after `#GEFID=`, `#EOH=`, then one
/// `length;qc;fs;rf;!` record per point, missing values written as their
/// column's void value.
pub fn write_gef(cpt: &Cpt) -> (r: String)
    requires
        cpt_valid(*cpt),
    ensures
        r@ == gef_text(*cpt),
{
    let mut out = chars_of(
        "#GEFID= 1, 1, 0\n#COLUMN= 4\n#COLUMNINFO= 1, m, sondeertrajectlengte, 1\n#COLUMNINFO= 2, MPa, conusweerstand, 2\n#COLUMNINFO= 3, MPa, plaatselijke wrijving, 3\n#COLUMNINFO= 4, %, wrijvingsgetal, 4\n#COLUMNSEPARATOR= ;\n#COLUMNTEXT= 1, aan\n#COLUMNVOID= 1, 999.999\n#COLUMNVOID= 2, 999.999\n#COLUMNVOID= 3, 9.999\n#COLUMNVOID= 4, 999.9\n",
    );
    push_company(&mut out, cpt);
    push_filedate(&mut out, cpt);
    push_owner(&mut out, cpt);
    push_lastscan(&mut out, cpt);
    push_mtext(&mut out, cpt);
    push_mvar(&mut out, cpt);
    push_project(&mut out, cpt);
    push_str(&mut out, "#RECORDSEPARATOR= !\n#REPORTCODE= GEF-CPT-Report, 1, 1, 2\n");
    push_startdate(&mut out, cpt);
    let idc = chars_of(cpt.id.as_str());
    push_line(&mut out, "#TESTID= ", &idc);
    push_xyz(&mut out, cpt);
    push_str(&mut out, "#EOH=\n");
    push_gef_rows(&mut out, cpt);
    string_of(&out)
}

/// `&`, `<` and `>` written as XML entities.
pub open spec fn escape_char(c: char) -> Seq<char> {
    if c == '&' {
        "&amp;"@
    } else if c == '<' {
        "&lt;"@
    } else if c == '>' {
        "&gt;"@
    } else {
        seq![c]
    }
}

pub open spec fn xml_escaped(s: Seq<char>) -> Seq<char>
    decreases s.len(),
{
    if s.len() == 0 {
        seq![]
    } else {
        xml_escaped(s.drop_last()) + escape_char(s.last())
    }
}

/// Appends `s` with `&`, `<` and `>` escaped.
fn push_escaped(out: &mut Vec<char>, s: &[char])
    ensures
        final(out)@ == old(out)@ + xml_escaped(s@),
{
    let ghost start = out@;
    for i in 0..s.len()
        invariant
            out@ == start + xml_escaped(s@.take(i as int)),
    {
        proof {
            assert(s@.take(i + 1).drop_last() =~= s@.take(i as int));
            assert(s@.take(i + 1).last() == s@[i as int]);
        }
        let c = s[i];
        if c == '&' {
            push_str(out, "&amp;");
        } else if c == '<' {
            push_str(out, "&lt;");
        } else if c == '>' {
            push_str(out, "&gt;");
        } else {
            out.push(c);
        }
        proof {
            assert(out@ =~= start + xml_escaped(s@.take(i + 1)));
        }
    }
    proof {
        assert(s@.take(s@.len() as int) =~= s@);
    }
}

pub open spec fn bro_void_text() -> Seq<char> {
    "-999999"@
}

/// One row of the 25-column BRO data array: length and depth (both the
/// depth), qc, inclination, fs, u2 and rf at their columns, void elsewhere.
pub open spec fn bro_row_text(p: MeasurementPoint) -> Seq<char> {
    fixed_text(p.depth, 3) + ","@ + fixed_text(p.depth, 3) + ",-999999,"@ + void_or(p.qc, 3, bro_void_text())
        + ",-999999,-999999,-999999,-999999,-999999,-999999,-999999,-999999,-999999,-999999,-999999,"@
        + void_or(p.inclination, 3, bro_void_text()) + ",-999999,-999999,"@ + void_or(p.fs, 3, bro_void_text())
        + ",-999999,-999999,-999999,"@ + void_or(p.u2, 3, bro_void_text()) + ",-999999,"@ + void_or(
        p.rf,
        3,
        bro_void_text(),
    )
}

pub open spec fn bro_rows(ps: Seq<MeasurementPoint>) -> Seq<Seq<char>> {
    ps.map_values(|p: MeasurementPoint| bro_row_text(p))
}

pub open spec fn bro_head_text() -> Seq<char> {
    "<?xml version=\"1.0\" encoding=\"UTF-8\"?>\n<dispatchDataResponse xmlns=\"http://www.broservices.nl/xsd/dscpt/1.1\" xmlns:swe=\"http://www.opengis.net/swe/2.0\" xmlns:xlink=\"http://www.w3.org/1999/xlink\" xmlns:brocom=\"http://www.broservices.nl/xsd/brocommon/3.0\" xmlns:cptcommon=\"http://www.broservices.nl/xsd/cptcommon/1.1\" xmlns:gml=\"http://www.opengis.net/gml/3.2\" xmlns:om=\"http://www.opengis.net/om/2.0\" xmlns:sampling=\"http://www.opengis.net/sampling/2.0\">\n  <brocom:responseType>dispatch</brocom:responseType>\n  <dispatchDocument>\n    <CPT_O gml:id=\"OGS_0001\">\n"@
}

pub open spec fn bro_id_text(c: Cpt) -> Seq<char> {
    "      <brocom:broId>"@ + xml_escaped(c.id@) + "</brocom:broId>\n"@
}

pub open spec fn bro_date_text(c: Cpt) -> Seq<char> {
    match c.metadata.date {
        Some(d) => "      <researchReportDate>\n        <brocom:date>"@ + ymd_text(d, "-"@)
            + "</brocom:date>\n      </researchReportDate>\n"@,
        None => seq![],
    }
}

pub open spec fn vertical_text(z: Number) -> Seq<char> {
    "      <deliveredVerticalPosition>\n        <cptcommon:offset uom=\"m\">"@ + fixed_text(z, 3)
        + "</cptcommon:offset>\n        <cptcommon:verticalDatum codeSpace=\"urn:bro:cpt:VerticalDatum\">NAP</cptcommon:verticalDatum>\n      </deliveredVerticalPosition>\n"@
}

pub open spec fn opt_vertical_text(z: Option<Number>) -> Seq<char> {
    match z {
        Some(v) => vertical_text(v),
        None => seq![],
    }
}

/// The delivered location and vertical position; the level of the position
/// wins over the ground level.
pub open spec fn bro_location_text(c: Cpt) -> Seq<char> {
    match c.position {
        Some(p) => "      <deliveredLocation>\n        <cptcommon:location srsName=\"urn:ogc:def:crs:EPSG::28992\" gml:id=\"OGS_LOC_0001\">\n          <gml:pos>"@
            + fixed_text(p.x_rd, 3) + " "@ + fixed_text(p.y_rd, 3)
            + "</gml:pos>\n        </cptcommon:location>\n      </deliveredLocation>\n"@
            + (if p.z_nap is Some {
            opt_vertical_text(p.z_nap)
        } else {
            opt_vertical_text(c.metadata.ground_level_nap)
        }),
        None => opt_vertical_text(c.metadata.ground_level_nap),
    }
}

pub open spec fn bro_result_open() -> Seq<char> {
    "      <conePenetrometerSurvey>\n        <cptcommon:conePenetrationTest>\n          <cptcommon:cptResult>\n            <cptcommon:values>"@
}

pub open spec fn bro_tail_text() -> Seq<char> {
    "</cptcommon:values>\n          </cptcommon:cptResult>\n        </cptcommon:conePenetrationTest>\n      </conePenetrometerSurvey>\n    </CPT_O>\n  </dispatchDocument>\n</dispatchDataResponse>\n"@
}

/// The BRO XML text written for `c`.
pub open spec fn bro_text(c: Cpt) -> Seq<char> {
    bro_head_text() + bro_id_text(c) + bro_date_text(c) + bro_location_text(c) + bro_result_open()
        + join(bro_rows(c.points@), ';') + bro_tail_text()
}

fn fixed_vec(n: Number, k: u32) -> (r: Vec<char>)
    requires
        n.den > 0,
        k <= 3,
    ensures
        r@ == fixed_text(n, k as nat),
{
    let mut r: Vec<char> = Vec::new();
    push_fixed(&mut r, n, k);
    proof {
        assert(r@ =~= fixed_text(n, k as nat));
    }
    r
}

fn push_bro_row(out: &mut Vec<char>, p: &MeasurementPoint)
    requires
        point_valid(*p),
    ensures
        final(out)@ == old(out)@ + bro_row_text(*p),
{
    let mut r = fixed_vec(p.depth, 3);
    push_str(&mut r, ",");
    push_fixed(&mut r, p.depth, 3);
    push_str(&mut r, ",-999999,");
    push_void_or(&mut r, p.qc, 3, "-999999");
    push_str(
        &mut r,
        ",-999999,-999999,-999999,-999999,-999999,-999999,-999999,-999999,-999999,-999999,-999999,",
    );
    push_void_or(&mut r, p.inclination, 3, "-999999");
    push_str(&mut r, ",-999999,-999999,");
    push_void_or(&mut r, p.fs, 3, "-999999");
    push_str(&mut r, ",-999999,-999999,-999999,");
    push_void_or(&mut r, p.u2, 3, "-999999");
    push_str(&mut r, ",-999999,");
    push_void_or(&mut r, p.rf, 3, "-999999");
    push_all(out, &r);
}

fn push_bro_date(out: &mut Vec<char>, cpt: &Cpt)
    requires
        cpt_valid(*cpt),
    ensures
        final(out)@ == old(out)@ + bro_date_text(*cpt),
{
    let ghost start = out@;
    match cpt.metadata.date {
        Some(d) => {
            push_str(out, "      <researchReportDate>\n        <brocom:date>");
            push_ymd(out, d, "-");
            push_str(out, "</brocom:date>\n      </researchReportDate>\n");
        },
        None => {},
    }
    proof {
        assert(out@ =~= start + bro_date_text(*cpt));
    }
}

fn push_vertical(out: &mut Vec<char>, z: Option<Number>)
    requires
        z matches Some(v) ==> v.den > 0,
    ensures
        final(out)@ == old(out)@ + opt_vertical_text(z),
{
    let ghost start = out@;
    match z {
        Some(v) => {
            push_str(out, "      <deliveredVerticalPosition>\n        <cptcommon:offset uom=\"m\">");
            push_fixed(out, v, 3);
            push_str(
                out,
                "</cptcommon:offset>\n        <cptcommon:verticalDatum codeSpace=\"urn:bro:cpt:VerticalDatum\">NAP</cptcommon:verticalDatum>\n      </deliveredVerticalPosition>\n",
            );
        },
        None => {},
    }
    proof {
        assert(out@ =~= start + opt_vertical_text(z));
    }
}

fn push_bro_location(out: &mut Vec<char>, cpt: &Cpt)
    requires
        cpt_valid(*cpt),
    ensures
        final(out)@ == old(out)@ + bro_location_text(*cpt),
{
    let ghost start = out@;
    match cpt.position {
        Some(pos) => {
            push_str(
                out,
                "      <deliveredLocation>\n        <cptcommon:location srsName=\"urn:ogc:def:crs:EPSG::28992\" gml:id=\"OGS_LOC_0001\">\n          <gml:pos>",
            );
            push_fixed(out, pos.x_rd, 3);
            push_str(out, " ");
            push_fixed(out, pos.y_rd, 3);
            push_str(out, "</gml:pos>\n        </cptcommon:location>\n      </deliveredLocation>\n");
            if pos.z_nap.is_some() {
                push_vertical(out, pos.z_nap);
            } else {
                push_vertical(out, cpt.metadata.ground_level_nap);
            }
        },
        None => {
            push_vertical(out, cpt.metadata.ground_level_nap);
        },
    }
    proof {
        assert(out@ =~= start + bro_location_text(*cpt));
    }
}

fn push_bro_rows(out: &mut Vec<char>, cpt: &Cpt)
    requires
        cpt_valid(*cpt),
    ensures
        final(out)@ == old(out)@ + join(bro_rows(cpt.points@), ';'),
{
    let ghost start = out@;
    for i in 0..cpt.points.len()
        invariant
            cpt_valid(*cpt),
            out@ == start + join(bro_rows(cpt.points@.take(i as int)), ';'),
    {
        let ghost prev = bro_rows(cpt.points@.take(i as int));
        let ghost next = bro_rows(cpt.points@.take(i + 1));
        proof {
            assert(next.drop_last() =~= prev);
            assert(next.last() == bro_row_text(cpt.points@[i as int]));
            assert(point_valid(cpt.points@[i as int]));
        }
        if i > 0 {
            out.push(';');
        }
        push_bro_row(out, &cpt.points[i]);
        proof {
            if i == 0 {
                assert(prev =~= Seq::<Seq<char>>::empty());
                assert(next.len() == 1);
                assert(out@ =~= start + join(next, ';'));
            } else {
                assert(out@ =~= start + join(next, ';'));
            }
        }
    }
    proof {
        assert(cpt.points@.take(cpt.points@.len() as int) =~= cpt.points@);
    }
}

/// Writes `cpt` as a minimal BRO XML CPT_O dispatch document: broId,
/// research report date, delivered location and vertical position, and the
/// 25-column `cptResult` values, void values written as `-999999`.
pub fn write_bro_xml(cpt: &Cpt) -> (r: String)
    requires
        cpt_valid(*cpt),
    ensures
        r@ == bro_text(*cpt),
{
    let mut out = chars_of(
        "<?xml version=\"1.0\" encoding=\"UTF-8\"?>\n<dispatchDataResponse xmlns=\"http://www.broservices.nl/xsd/dscpt/1.1\" xmlns:swe=\"http://www.opengis.net/swe/2.0\" xmlns:xlink=\"http://www.w3.org/1999/xlink\" xmlns:brocom=\"http://www.broservices.nl/xsd/brocommon/3.0\" xmlns:cptcommon=\"http://www.broservices.nl/xsd/cptcommon/1.1\" xmlns:gml=\"http://www.opengis.net/gml/3.2\" xmlns:om=\"http://www.opengis.net/om/2.0\" xmlns:sampling=\"http://www.opengis.net/sampling/2.0\">\n  <brocom:responseType>dispatch</brocom:responseType>\n  <dispatchDocument>\n    <CPT_O gml:id=\"OGS_0001\">\n",
    );
    let ghost s0 = out@;
    let idc = chars_of(cpt.id.as_str());
    push_str(&mut out, "      <brocom:broId>");
    push_escaped(&mut out, &idc);
    push_str(&mut out, "</brocom:broId>\n");
    proof {
        assert(out@ =~= s0 + bro_id_text(*cpt));
    }
    push_bro_date(&mut out, cpt);
    push_bro_location(&mut out, cpt);
    push_str(
        &mut out,
        "      <conePenetrometerSurvey>\n        <cptcommon:conePenetrationTest>\n          <cptcommon:cptResult>\n            <cptcommon:values>",
    );
    push_bro_rows(&mut out, cpt);
    push_str(
        &mut out,
        "</cptcommon:values>\n          </cptcommon:cptResult>\n        </cptcommon:conePenetrationTest>\n      </conePenetrometerSurvey>\n    </CPT_O>\n  </dispatchDocument>\n</dispatchDataResponse>\n",
    );
    string_of(&out)
}

/// The columns a written GEF file declares: length, cone resistance,
/// sleeve friction and friction ratio.
pub open spec fn written_columns() -> Seq<ColumnSpec> {
    seq![
        ColumnSpec { index: 1, field: GefField::Length },
        ColumnSpec { index: 2, field: GefField::Qc },
        ColumnSpec { index: 3, field: GefField::Fs },
        ColumnSpec { index: 4, field: GefField::Rf },
    ]
}

pub open spec fn void3() -> Number {
    Number { num: 999999, den: 1000 }
}

pub open spec fn void_fs() -> Number {
    Number { num: 9999, den: 1000 }
}

pub open spec fn void_rf() -> Number {
    Number { num: 9999, den: 10 }
}

/// The void values a written GEF file declares per column.
pub open spec fn written_voids() -> Seq<(usize, Number)> {
    seq![(1usize, void3()), (2usize, void3()), (3usize, void_fs()), (4usize, void_rf())]
}

/// One written record without its record separator.
pub open spec fn gef_record_text(p: MeasurementPoint) -> Seq<char> {
    fixed_text(p.depth, 3) + ";"@ + void_or(p.qc, 3, "999.999"@) + ";"@ + void_or(p.fs, 3, "9.999"@) + ";"@
        + void_or(p.rf, 1, "999.9"@) + ";"@
}

/// The number a reader gets back for a written value or its void text.
pub open spec fn raw_back(o: Option<Number>, k: nat, void: Number) -> Number {
    match o {
        Some(x) => shown(x, k),
        None => void,
    }
}

/// What a written value reads back as: absent when it shows the void.
pub open spec fn read_back(o: Option<Number>, k: nat, void: Number) -> Option<Number> {
    if near(raw_back(o, k, void), void) {
        None
    } else {
        Some(raw_back(o, k, void))
    }
}

/// A value fits the text the writer gives it: it has a positive
/// denominator and, scaled to its decimals, stays below `10^17`.
pub open spec fn writable(o: Option<Number>, k: nat) -> bool {
    o matches Some(x) ==> x.den > 0 && scaled_round(x, k) < pow10(17)
}

pub proof fn lemma_written_piece(o: Option<Number>, k: nat, void: Number, vt: Seq<char>)
    requires
        1 <= k <= 3,
        writable(o, k),
        vt == fixed_text(void, k),
        void.den > 0,
        scaled_round(void, k) < pow10(17),
    ensures
        void_or(o, k, vt).len() > 0,
        forall|i: int| 0 <= i < void_or(o, k, vt).len() ==> numeral_char(#[trigger] void_or(o, k, vt)[i]),
        parse_spec(void_or(o, k, vt)) == Parsed::Finite(raw_back(o, k, void)) || (o is None && parse_spec(vt)
            == Parsed::Finite(shown(void, k))),
{
    match o {
        Some(x) => {
            lemma_fixed_text_shape(x, k);
            law_fixed_text_reads_back(x, k);
        },
        None => {
            lemma_fixed_text_shape(void, k);
            law_fixed_text_reads_back(void, k);
        },
    }
}

proof fn lemma_plain_token(t: Seq<char>)
    requires
        t.len() > 0,
        forall|i: int| 0 <= i < t.len() ==> numeral_char(#[trigger] t[i]),
    ensures
        trim(t) == t,
        forall|i: int| 0 <= i < t.len() ==> #[trigger] t[i] != ';',
{
    assert(numeral_char(t[0]));
    assert(numeral_char(t[t.len() - 1]));
    lemma_trim_plain(t);
}

#[verifier::rlimit(40)]
proof fn lemma_four_tokens(a: Seq<char>, b: Seq<char>, c: Seq<char>, d: Seq<char>, n: Seq<Number>)
    requires
        n.len() == 4,
        a.len() > 0,
        b.len() > 0,
        c.len() > 0,
        d.len() > 0,
        forall|i: int| 0 <= i < a.len() ==> numeral_char(#[trigger] a[i]),
        forall|i: int| 0 <= i < b.len() ==> numeral_char(#[trigger] b[i]),
        forall|i: int| 0 <= i < c.len() ==> numeral_char(#[trigger] c[i]),
        forall|i: int| 0 <= i < d.len() ==> numeral_char(#[trigger] d[i]),
        parse_spec(a) == Parsed::Finite(n[0]),
        parse_spec(b) == Parsed::Finite(n[1]),
        parse_spec(c) == Parsed::Finite(n[2]),
        parse_spec(d) == Parsed::Finite(n[3]),
    ensures
        values_from(
            record_tokens(trim(a + ";"@ + b + ";"@ + c + ";"@ + d + ";"@), Some(';')),
            0,
            seq![],
        ) == Some(n),
{
    lemma_plain_token(a);
    lemma_plain_token(b);
    lemma_plain_token(c);
    lemma_plain_token(d);
    reveal_strlit(";");
    let e = Seq::<char>::empty();
    let r = a + ";"@ + b + ";"@ + c + ";"@ + d + ";"@;
    assert(r =~= a + seq![';'] + (b + seq![';'] + (c + seq![';'] + (d + seq![';'] + e))));
    assert(r[0] == a[0]);
    assert(numeral_char(a[0]));
    assert(r.last() == ';');
    lemma_trim_plain(r);
    lemma_split_first(a, ';', b + seq![';'] + (c + seq![';'] + (d + seq![';'] + e)));
    lemma_split_first(b, ';', c + seq![';'] + (d + seq![';'] + e));
    lemma_split_first(c, ';', d + seq![';'] + e);
    lemma_split_first(d, ';', e);
    assert(find_char(e, ';', 0) == 0);
    assert(e.subrange(0, 0) =~= e);
    assert(split_on(e, ';') == seq![e]);
    let toks = split_on(r, ';');
    assert(toks =~= seq![a, b, c, d, e]);
    assert(trim(e) == e);
    let (n0, n1, n2, n3) = (n[0], n[1], n[2], n[3]);
    assert(values_from(toks, 5, seq![n0, n1, n2, n3]) == Some(seq![n0, n1, n2, n3]));
    assert(values_from(toks, 4, seq![n0, n1, n2, n3]) == Some(seq![n0, n1, n2, n3]));
    assert(seq![n0, n1, n2].push(n3) =~= seq![n0, n1, n2, n3]);
    assert(values_from(toks, 3, seq![n0, n1, n2]) == Some(seq![n0, n1, n2, n3]));
    assert(seq![n0, n1].push(n2) =~= seq![n0, n1, n2]);
    assert(values_from(toks, 2, seq![n0, n1]) == Some(seq![n0, n1, n2, n3]));
    assert(seq![n0].push(n1) =~= seq![n0, n1]);
    assert(values_from(toks, 1, seq![n0]) == Some(seq![n0, n1, n2, n3]));
    assert(Seq::<Number>::empty().push(n0) =~= seq![n0]);
    assert(n =~= seq![n0, n1, n2, n3]);
}

proof fn lemma_record_values(p: MeasurementPoint)
    requires
        p.depth.den > 0,
        scaled_round(p.depth, 3) < pow10(17),
        writable(p.qc, 3),
        writable(p.fs, 3),
        writable(p.rf, 1),
    ensures
        values_from(record_tokens(trim(gef_record_text(p)), Some(';')), 0, seq![]) == Some(
            seq![
                shown(p.depth, 3),
                raw_back(p.qc, 3, void3()),
                raw_back(p.fs, 3, void_fs()),
                raw_back(p.rf, 1, void_rf()),
            ],
        ),
{
    lemma_pow_facts();
    lemma_void_texts();
    lemma_fixed_text_shape(p.depth, 3);
    law_fixed_text_reads_back(p.depth, 3);
    lemma_written_piece(p.qc, 3, void3(), "999.999"@);
    lemma_written_piece(p.fs, 3, void_fs(), "9.999"@);
    lemma_written_piece(p.rf, 1, void_rf(), "999.9"@);
    assert(shown(void3(), 3) == void3());
    assert(shown(void_fs(), 3) == void_fs());
    assert(shown(void_rf(), 1) == void_rf());
    let n = seq![
        shown(p.depth, 3),
        raw_back(p.qc, 3, void3()),
        raw_back(p.fs, 3, void_fs()),
        raw_back(p.rf, 1, void_rf()),
    ];
    lemma_four_tokens(
        fixed_text(p.depth, 3),
        void_or(p.qc, 3, "999.999"@),
        void_or(p.fs, 3, "9.999"@),
        void_or(p.rf, 1, "999.9"@),
        n,
    );
}

proof fn lemma_record_columns(n0: Number, n1: Number, n2: Number, n3: Number)
    ensures
        columns_from(written_columns(), 0, seq![n0, n1, n2, n3], written_voids(), blank_point(), false) == Some(
            (
                MeasurementPoint {
                    depth: if near(n0, void3()) { blank_point().depth } else { abs_num(n0) },
                    qc: if near(n1, void3()) { None } else { Some(n1) },
                    fs: if near(n2, void_fs()) { None } else { Some(n2) },
                    rf: if near(n3, void_rf()) { None } else { Some(n3) },
                    ..blank_point()
                },
                !near(n0, void3()),
            ),
        ),
{
    let nums = seq![n0, n1, n2, n3];
    let vs = written_voids();
    assert(voided(vs, 1, n0) == near(n0, void3())) by {
        if near(n0, void3()) {
            assert(vs[0].0 == 1 && near(n0, vs[0].1));
        }
    }
    assert(voided(vs, 2, n1) == near(n1, void3())) by {
        if near(n1, void3()) {
            assert(vs[1].0 == 2 && near(n1, vs[1].1));
        }
    }
    assert(voided(vs, 3, n2) == near(n2, void_fs())) by {
        if near(n2, void_fs()) {
            assert(vs[2].0 == 3 && near(n2, vs[2].1));
        }
    }
    assert(voided(vs, 4, n3) == near(n3, void_rf())) by {
        if near(n3, void_rf()) {
            assert(vs[3].0 == 4 && near(n3, vs[3].1));
        }
    }
    let cols = written_columns();
    let b0 = blank_point();
    let s1 = column_step(cols[0], nums, vs, b0, false);
    let p1 = if near(n0, void3()) { b0 } else { MeasurementPoint { depth: abs_num(n0), ..b0 } };
    assert(s1 == Some((p1, !near(n0, void3()))));
    let p2 = MeasurementPoint { qc: if near(n1, void3()) { None } else { Some(n1) }, ..p1 };
    assert(column_step(cols[1], nums, vs, p1, !near(n0, void3())) == Some((p2, !near(n0, void3()))));
    let p3 = MeasurementPoint { fs: if near(n2, void_fs()) { None } else { Some(n2) }, ..p2 };
    assert(column_step(cols[2], nums, vs, p2, !near(n0, void3())) == Some((p3, !near(n0, void3()))));
    let p4 = MeasurementPoint { rf: if near(n3, void_rf()) { None } else { Some(n3) }, ..p3 };
    assert(column_step(cols[3], nums, vs, p3, !near(n0, void3())) == Some((p4, !near(n0, void3()))));
    assert(columns_from(cols, 4, nums, vs, p4, !near(n0, void3())) == Some((p4, !near(n0, void3()))));
    assert(columns_from(cols, 3, nums, vs, p3, !near(n0, void3())) == Some((p4, !near(n0, void3()))));
    assert(columns_from(cols, 2, nums, vs, p2, !near(n0, void3())) == Some((p4, !near(n0, void3()))));
    assert(columns_from(cols, 1, nums, vs, p1, !near(n0, void3())) == Some((p4, !near(n0, void3()))));
    assert(columns_from(cols, 0, nums, vs, b0, false) == Some((p4, !near(n0, void3()))));
}


/// A record the GEF writer writes for a point reads back, under the columns
/// and void values the writer declares, as the point with each value shown
/// at the writer's precision, values that show the void absent, and `rf`
/// and the NAP level completed as for any read record.
pub proof fn law_gef_record_reads_back(p: MeasurementPoint, h: HeaderModel)
    requires
        p.depth.den > 0,
        scaled_round(p.depth, 3) < pow10(17),
        writable(p.qc, 3),
        writable(p.fs, 3),
        writable(p.rf, 1),
        h.columns == written_columns(),
        h.column_void == written_voids(),
    ensures
        gef_row_text(p) == gef_record_text(p) + "!\n"@,
        ({
            let nums = seq![
                shown(p.depth, 3),
                raw_back(p.qc, 3, void3()),
                raw_back(p.fs, 3, void_fs()),
                raw_back(p.rf, 1, void_rf()),
            ];
            &&& values_from(record_tokens(trim(gef_record_text(p)), Some(';')), 0, seq![]) == Some(nums)
            &&& point_spec(nums, h) == (if near(shown(p.depth, 3), void3()) {
                None
            } else {
                Some(
                    complete_point(
                        MeasurementPoint {
                            depth: abs_num(shown(p.depth, 3)),
                            depth_nap: None,
                            qc: read_back(p.qc, 3, void3()),
                            fs: read_back(p.fs, 3, void_fs()),
                            rf: read_back(p.rf, 1, void_rf()),
                            u2: None,
                            inclination: None,
                        },
                        h.z_nap,
                    ),
                )
            })
        }),
{
    let n0 = shown(p.depth, 3);
    let n1 = raw_back(p.qc, 3, void3());
    let n2 = raw_back(p.fs, 3, void_fs());
    let n3 = raw_back(p.rf, 1, void_rf());
    lemma_record_values(p);
    lemma_record_columns(n0, n1, n2, n3);
    reveal_strlit(";!\n");
    reveal_strlit(";");
    reveal_strlit("!\n");
    assert(gef_row_text(p) =~= gef_record_text(p) + "!\n"@);
}

} // verus!
