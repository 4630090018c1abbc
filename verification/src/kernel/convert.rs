//! A BRO CPT document in the CPT model used by the rest of the library.

use vstd::prelude::*;

use crate::bro::version_text;
use crate::bro::bhr_g::{plain_text, plain_chars};
use crate::bro::cpt::{CptDocument, CptMeasurement, measurement_simple};
use crate::bro::document::cpt_doc_ok;
use crate::bro::metadata::{CommonMetadata, common_ok, opt_string};
use crate::calendar::{Date, ymd_text, push_ymd};
use crate::cpt::{Cpt, MeasurementPoint, Metadata, Position, cpt_ok, point_ok};
use crate::cpt::gef::data::level_below;
use crate::keyed::KeyedVec;
use crate::number::{Number, simple, lemma_pow_facts};
use crate::text::{chars_of, eq_chars, string_of};

verus! {

pub open spec fn date_text(d: Option<Date>) -> Option<Seq<char>> {
    match d {
        Some(x) => Some(ymd_text(x, "-"@)),
        None => None,
    }
}

/// A coordinate reference system of RD New (EPSG:28992), as BRO writes it.
pub open spec fn rd_crs(crs: Seq<char>) -> bool {
    crs == "EPSG:28992"@ || crs == "urn:ogc:def:crs:EPSG::28992"@
}

/// The extra metadata a BRO CPT carries into the CPT model, by key: its
/// extensions, then the schema version, quality regime, accountable party,
/// registration time, research end date, position CRS, the coordinates of
/// a position outside RD, vertical datum, cone type and final depth (each
/// replacing what came before).
pub open spec fn bro_extra(c: CommonMetadata, cone: Option<String>, fd: Option<Number>, k: Seq<char>) -> Option<Seq<char>> {
    if k == "final_depth"@ && fd is Some {
        Some(plain_text(fd->0))
    } else if k == "cone_type"@ && cone is Some {
        opt_string(cone)
    } else if k == "vertical_datum"@ && (c.vertical_position matches Some(v) && v.datum is Some) {
        opt_string(c.vertical_position->0.datum)
    } else if k == "position_y"@ && (c.position matches Some(p) && !rd_crs(p.crs@)) {
        Some(plain_text(c.position->0.y))
    } else if k == "position_x"@ && (c.position matches Some(p) && !rd_crs(p.crs@)) {
        Some(plain_text(c.position->0.x))
    } else if k == "position_crs"@ && c.position is Some {
        Some(c.position->0.crs@)
    } else if k == "research_end_date"@ && c.research_end_date is Some {
        date_text(c.research_end_date)
    } else if k == "registration_time"@ && c.registration_time is Some {
        date_text(c.registration_time)
    } else if k == "accountable_party"@ && c.accountable_party is Some {
        opt_string(c.accountable_party)
    } else if k == "quality_regime"@ && c.quality_regime is Some {
        opt_string(c.quality_regime)
    } else if k == "schema_version"@ {
        Some(version_text(c.schema_version))
    } else {
        opt_string(c.extensions.get_spec(k))
    }
}

/// The point a BRO measurement makes, with its NAP level when the vertical
/// offset is known.
pub open spec fn point_of_measurement(m: CptMeasurement, offset: Option<Number>) -> MeasurementPoint {
    MeasurementPoint {
        depth: m.depth,
        depth_nap: match offset {
            Some(o) => Some(level_below(o, m.depth)),
            None => None,
        },
        qc: m.cone_resistance,
        fs: m.sleeve_friction,
        rf: m.friction_ratio,
        u2: m.pore_pressure_u2,
        inclination: m.inclination,
    }
}

pub open spec fn offset_of(c: CommonMetadata) -> Option<Number> {
    match c.vertical_position {
        Some(v) => Some(v.offset),
        None => None,
    }
}

/// The CPT made of a BRO CPT document read from `source`.
pub open spec fn cpt_of_document(r: Cpt, d: CptDocument, source: Seq<char>) -> bool {
    &&& r.id@ == d.common.bro_id@
    &&& r.metadata.project_name is None
    &&& r.metadata.project_number is None
    &&& r.metadata.equipment is None
    &&& r.metadata.date == d.common.research_start_date
    &&& r.metadata.ground_level_nap == offset_of(d.common)
    &&& r.metadata.source_file@ == source
    &&& (forall|k: Seq<char>| #[trigger] opt_string(r.metadata.extra.get_spec(k)) == bro_extra(
        d.common,
        d.cone_type,
        d.final_depth,
        k,
    ))
    &&& r.position == (match d.common.position {
        Some(p) => if rd_crs(p.crs@) {
            Some(Position { x_rd: p.x, y_rd: p.y, z_nap: offset_of(d.common) })
        } else {
            None
        },
        None => None,
    })
    &&& r.points@ == d.measurements@.map_values(|m: CptMeasurement| point_of_measurement(m, offset_of(d.common)))
}

/// Whether a CRS names RD New.
pub fn is_rd_crs(crs: &String) -> (r: bool)
    ensures
        r == rd_crs(crs@),
{
    let c = chars_of(crs.as_str());
    eq_chars(&c, &chars_of("EPSG:28992")) || eq_chars(&c, &chars_of("urn:ogc:def:crs:EPSG::28992"))
}

fn insert_str(m: &mut KeyedVec<String>, key: &str, value: String)
    ensures
        forall|k: Seq<char>| #[trigger] final(m).get_spec(k) == (if k == key@ {
            Some(value)
        } else {
            old(m).get_spec(k)
        }),
{
    let ghost m0 = *m;
    m.insert(key.to_owned(), value);
}

/// The extra metadata of a BRO CPT's common metadata.
fn common_extra(c: &CommonMetadata) -> (r: KeyedVec<String>)
    requires
        common_ok(*c),
    ensures
        forall|k: Seq<char>| #![trigger r.get_spec(k)] opt_string(r.get_spec(k)) == bro_extra(*c, None, None, k),
{
    let mut extra = c.extensions.clone();
    let ghost e0 = extra;
    proof {
        assert forall|i: int| 0 <= i < e0.entries().len() implies #[trigger] e0.entries()[i] == c.extensions.entries()[i] by {
            assert(e0.entries()[i].0 == c.extensions.entries()[i].0);
            assert(cloned::<String>(c.extensions.entries()[i].1, e0.entries()[i].1));
        }
        assert(e0.entries() =~= c.extensions.entries());
    }
    insert_str(&mut extra, "schema_version", crate::bro::version_string(c.schema_version));
    match &c.quality_regime {
        Some(v) => insert_str(&mut extra, "quality_regime", v.clone()),
        None => {},
    }
    match &c.accountable_party {
        Some(v) => insert_str(&mut extra, "accountable_party", v.clone()),
        None => {},
    }
    match c.registration_time {
        Some(d) => {
            let mut t: Vec<char> = Vec::new();
            push_ymd(&mut t, d, "-");
            proof {
                assert(t@ =~= ymd_text(d, "-"@));
            }
            insert_str(&mut extra, "registration_time", string_of(&t));
        },
        None => {},
    }
    match c.research_end_date {
        Some(d) => {
            let mut t: Vec<char> = Vec::new();
            push_ymd(&mut t, d, "-");
            proof {
                assert(t@ =~= ymd_text(d, "-"@));
            }
            insert_str(&mut extra, "research_end_date", string_of(&t));
        },
        None => {},
    }
    match &c.position {
        Some(p) => {
            insert_str(&mut extra, "position_crs", p.crs.clone());
            if !is_rd_crs(&p.crs) {
                let x = plain_chars(p.x);
                insert_str(&mut extra, "position_x", string_of(&x));
                let y = plain_chars(p.y);
                insert_str(&mut extra, "position_y", string_of(&y));
            }
        },
        None => {},
    }
    match &c.vertical_position {
        Some(v) => match &v.datum {
            Some(dt) => insert_str(&mut extra, "vertical_datum", dt.clone()),
            None => {},
        },
        None => {},
    }
    extra
}

fn nap_level(o: Number, d: Number) -> (r: Number)
    requires
        simple(o),
        simple(d),
    ensures
        r == level_below(o, d),
        crate::number::bounded(r),
{
    proof {
        lemma_pow_facts();
        assert(-100000000000000000000000000000000000 < o.num * d.den < 100000000000000000000000000000000000)
            by (nonlinear_arith)
            requires
                -100000000000000000 < o.num < 100000000000000000,
                0 < d.den <= 1000000000000000000,
        ;
        assert(-100000000000000000000000000000000000 < d.num * o.den < 100000000000000000000000000000000000)
            by (nonlinear_arith)
            requires
                -100000000000000000 < d.num < 100000000000000000,
                0 < o.den <= 1000000000000000000,
        ;
        assert(0 < o.den * d.den <= 1000000000000000000000000000000000000) by (nonlinear_arith)
            requires
                0 < o.den <= 1000000000000000000,
                0 < d.den <= 1000000000000000000,
        ;
    }
    Number { num: o.num * d.den - d.num * o.den, den: o.den * d.den }
}

/// The CPT of a BRO CPT document read from `source_file`: identifier,
/// research start date, vertical offset as ground level and NAP levels,
/// RD position, and the remaining metadata as extras.
pub fn from_bro(document: CptDocument, source_file: &str) -> (r: Cpt)
    requires
        cpt_doc_ok(document),
    ensures
        cpt_of_document(r, document, source_file@),
        cpt_ok(r),
{
    let offset = match &document.common.vertical_position {
        Some(v) => Some(v.offset),
        None => None,
    };
    let mut extra = common_extra(&document.common);
    let ghost e1 = extra;
    match &document.cone_type {
        Some(v) => insert_str(&mut extra, "cone_type", v.clone()),
        None => {},
    }
    match document.final_depth {
        Some(fd) => {
            let t = crate::bro::bhr_g::plain_chars(fd);
            insert_str(&mut extra, "final_depth", string_of(&t));
        },
        None => {},
    }
    let position = match &document.common.position {
        Some(p) => if is_rd_crs(&p.crs) {
            Some(Position { x_rd: p.x, y_rd: p.y, z_nap: offset })
        } else {
            None
        },
        None => None,
    };
    let ms = &document.measurements;
    let mut points: Vec<MeasurementPoint> = Vec::new();
    for i in 0..ms.len()
        invariant
            cpt_doc_ok(document),
            ms == &document.measurements,
            offset == offset_of(document.common),
            points@ == ms@.take(i as int).map_values(|m: CptMeasurement| point_of_measurement(m, offset)),
            forall|j: int| 0 <= j < points@.len() ==> point_ok(#[trigger] points@[j]),
    {
        let m = ms[i];
        proof {
            assert(measurement_simple(ms@[i as int]));
            lemma_pow_facts();
        }
        let nap = match offset {
            Some(o) => Some(nap_level(o, m.depth)),
            None => None,
        };
        let p = MeasurementPoint {
            depth: m.depth,
            depth_nap: nap,
            qc: m.cone_resistance,
            fs: m.sleeve_friction,
            rf: m.friction_ratio,
            u2: m.pore_pressure_u2,
            inclination: m.inclination,
        };
        let ghost before = points@;
        points.push(p);
        proof {
            assert(ms@.take(i + 1) =~= ms@.take(i as int).push(m));
            assert(points@ =~= before.push(point_of_measurement(m, offset)));
        }
    }
    proof {
        assert(ms@.take(ms@.len() as int) =~= ms@);
    }
    let metadata = Metadata {
        project_name: None,
        project_number: None,
        date: document.common.research_start_date,
        equipment: None,
        ground_level_nap: offset,
        source_file: source_file.to_owned(),
        extra,
    };
    Cpt { id: document.common.bro_id.clone(), metadata, position, points }
}

} // verus!
