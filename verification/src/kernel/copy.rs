//! Copies of stored objects that hold the same values.

use vstd::prelude::*;

use crate::bro::bhr_g::{BhrGDocument, GeologicalInterval};
use crate::bro::document::BhrGtDocument;
use crate::bro::bhr_gt::{GeotechnicalInterval, SecondaryAttribute, attrs_view};
use crate::bro::metadata::{CommonMetadata, Position as BroPosition, VerticalPosition, opt_string};
use crate::cpt::{Cpt, Metadata};
use crate::kernel::project::GeotechnicalObject;

verus! {

pub open spec fn metadata_same(a: Metadata, b: Metadata) -> bool {
    &&& opt_string(a.project_name) == opt_string(b.project_name)
    &&& opt_string(a.project_number) == opt_string(b.project_number)
    &&& a.date == b.date
    &&& opt_string(a.equipment) == opt_string(b.equipment)
    &&& a.ground_level_nap == b.ground_level_nap
    &&& a.source_file@ == b.source_file@
    &&& a.extra.entries() == b.extra.entries()
}

/// Two CPTs hold the same values.
pub open spec fn cpt_same(a: Cpt, b: Cpt) -> bool {
    &&& a.id@ == b.id@
    &&& metadata_same(a.metadata, b.metadata)
    &&& a.position == b.position
    &&& a.points@ == b.points@
}

pub open spec fn common_same(a: CommonMetadata, b: CommonMetadata) -> bool {
    &&& a.bro_id@ == b.bro_id@
    &&& a.schema_version == b.schema_version
    &&& opt_string(a.quality_regime) == opt_string(b.quality_regime)
    &&& opt_string(a.accountable_party) == opt_string(b.accountable_party)
    &&& a.registration_time == b.registration_time
    &&& a.research_start_date == b.research_start_date
    &&& a.research_end_date == b.research_end_date
    &&& match (a.position, b.position) {
        (Some(p), Some(q)) => p.x == q.x && p.y == q.y && p.crs@ == q.crs@,
        (None, None) => true,
        _ => false,
    }
    &&& match (a.vertical_position, b.vertical_position) {
        (Some(p), Some(q)) => p.offset == q.offset && opt_string(p.datum) == opt_string(q.datum),
        (None, None) => true,
        _ => false,
    }
    &&& a.extensions.entries() == b.extensions.entries()
}

pub open spec fn interval_same(a: GeologicalInterval, b: GeologicalInterval) -> bool {
    &&& a.upper_boundary == b.upper_boundary
    &&& a.lower_boundary == b.lower_boundary
    &&& opt_string(a.lithology) == opt_string(b.lithology)
    &&& opt_string(a.colour) == opt_string(b.colour)
    &&& opt_string(a.description) == opt_string(b.description)
    &&& a.extensions.entries() == b.extensions.entries()
}

/// Two objects hold the same values.
pub open spec fn gt_interval_same(a: GeotechnicalInterval, b: GeotechnicalInterval) -> bool {
    &&& a.upper_boundary == b.upper_boundary
    &&& a.lower_boundary == b.lower_boundary
    &&& opt_string(a.soil_name) == opt_string(b.soil_name)
    &&& attrs_view(a.secondary@) == attrs_view(b.secondary@)
}

pub open spec fn obj_same(a: GeotechnicalObject, b: GeotechnicalObject) -> bool {
    match (a, b) {
        (GeotechnicalObject::Cpt(x), GeotechnicalObject::Cpt(y)) => cpt_same(x, y),
        (GeotechnicalObject::BhrGt(x), GeotechnicalObject::BhrGt(y)) => {
            &&& common_same(x.common, y.common)
            &&& x.intervals@.len() == y.intervals@.len()
            &&& forall|i: int| 0 <= i < x.intervals@.len() ==> gt_interval_same(#[trigger] x.intervals@[i], y.intervals@[i])
            &&& opt_string(x.source_xml) == opt_string(y.source_xml)
        },
        (GeotechnicalObject::BhrG(x), GeotechnicalObject::BhrG(y)) => {
            &&& common_same(x.common, y.common)
            &&& x.final_depth == y.final_depth
            &&& x.intervals@.len() == y.intervals@.len()
            &&& forall|i: int| 0 <= i < x.intervals@.len() ==> interval_same(#[trigger] x.intervals@[i], y.intervals@[i])
            &&& opt_string(x.source_xml) == opt_string(y.source_xml)
        },
        _ => false,
    }
}

fn copy_text(o: &Option<String>) -> (r: Option<String>)
    ensures
        opt_string(r) == opt_string(*o),
{
    match o {
        Some(s) => Some(s.clone()),
        None => None,
    }
}

fn copy_metadata(m: &Metadata) -> (r: Metadata)
    ensures
        metadata_same(r, *m),
{
    Metadata {
        project_name: copy_text(&m.project_name),
        project_number: copy_text(&m.project_number),
        date: m.date,
        equipment: copy_text(&m.equipment),
        ground_level_nap: m.ground_level_nap,
        source_file: m.source_file.clone(),
        extra: m.extra.copy(),
    }
}

/// A CPT with the same values.
pub fn copy_cpt(c: &Cpt) -> (r: Cpt)
    ensures
        cpt_same(r, *c),
{
    let points = c.points.clone();
    proof {
        assert(points@ =~= c.points@);
    }
    Cpt { id: c.id.clone(), metadata: copy_metadata(&c.metadata), position: c.position, points }
}

fn copy_common(c: &CommonMetadata) -> (r: CommonMetadata)
    ensures
        common_same(r, *c),
{
    CommonMetadata {
        bro_id: c.bro_id.clone(),
        schema_version: c.schema_version,
        quality_regime: copy_text(&c.quality_regime),
        accountable_party: copy_text(&c.accountable_party),
        registration_time: c.registration_time,
        research_start_date: c.research_start_date,
        research_end_date: c.research_end_date,
        position: match &c.position {
            Some(p) => Some(BroPosition { x: p.x, y: p.y, crs: p.crs.clone() }),
            None => None,
        },
        vertical_position: match &c.vertical_position {
            Some(v) => Some(VerticalPosition { offset: v.offset, datum: copy_text(&v.datum) }),
            None => None,
        },
        extensions: c.extensions.copy(),
    }
}

fn copy_interval(g: &GeologicalInterval) -> (r: GeologicalInterval)
    ensures
        interval_same(r, *g),
{
    GeologicalInterval {
        upper_boundary: g.upper_boundary,
        lower_boundary: g.lower_boundary,
        lithology: copy_text(&g.lithology),
        colour: copy_text(&g.colour),
        description: copy_text(&g.description),
        extensions: g.extensions.copy(),
    }
}

fn copy_gt_interval(g: &GeotechnicalInterval) -> (r: GeotechnicalInterval)
    ensures
        gt_interval_same(r, *g),
{
    let mut secondary: Vec<SecondaryAttribute> = Vec::new();
    for i in 0..g.secondary.len()
        invariant
            attrs_view(secondary@) == attrs_view(g.secondary@.take(i as int)),
    {
        let a = &g.secondary[i];
        let ghost before = secondary@;
        let c = a.code.clone();
        let v = a.value.clone();
        proof {
            assert(c@ == a.code@);
            assert(v@ == a.value@);
        }
        secondary.push(SecondaryAttribute { code: c, value: v });
        proof {
            assert(attrs_view(secondary@) =~= attrs_view(before).push((a.code@, a.value@)));
            assert(attrs_view(g.secondary@.take(i + 1)) =~= attrs_view(g.secondary@.take(i as int)).push((a.code@, a.value@)));
            assert(g.secondary@.take(i + 1) =~= g.secondary@.take(i as int).push(g.secondary@[i as int]));
            assert(attrs_view(secondary@) =~= attrs_view(g.secondary@.take(i + 1)));
        }
    }
    proof {
        assert(g.secondary@.take(g.secondary@.len() as int) =~= g.secondary@);
    }
    GeotechnicalInterval {
        upper_boundary: g.upper_boundary,
        lower_boundary: g.lower_boundary,
        soil_name: copy_text(&g.soil_name),
        secondary,
    }
}

impl GeotechnicalObject {
    /// An object with the same values.
    pub fn copy(&self) -> (r: Self)
        ensures
            obj_same(r, *self),
    {
        match self {
            GeotechnicalObject::Cpt(c) => GeotechnicalObject::Cpt(copy_cpt(c)),
            GeotechnicalObject::BhrGt(d) => {
                let mut intervals: Vec<GeotechnicalInterval> = Vec::new();
                for i in 0..d.intervals.len()
                    invariant
                        intervals@.len() == i,
                        i <= d.intervals@.len(),
                        forall|j: int| 0 <= j < i ==> gt_interval_same(#[trigger] intervals@[j], d.intervals@[j]),
                {
                    intervals.push(copy_gt_interval(&d.intervals[i]));
                }
                GeotechnicalObject::BhrGt(
                    BhrGtDocument { common: copy_common(&d.common), intervals, source_xml: copy_text(&d.source_xml) },
                )
            },
            GeotechnicalObject::BhrG(d) => {
                let mut intervals: Vec<GeologicalInterval> = Vec::new();
                for i in 0..d.intervals.len()
                    invariant
                        intervals@.len() == i,
                        i <= d.intervals@.len(),
                        forall|j: int| 0 <= j < i ==> interval_same(#[trigger] intervals@[j], d.intervals@[j]),
                {
                    intervals.push(copy_interval(&d.intervals[i]));
                }
                GeotechnicalObject::BhrG(
                    BhrGDocument {
                        common: copy_common(&d.common),
                        final_depth: d.final_depth,
                        intervals,
                        source_xml: copy_text(&d.source_xml),
                    },
                )
            },
        }
    }
}

} // verus!
