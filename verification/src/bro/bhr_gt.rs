//! BRO BHR-GT (geotechnical borehole) intervals: the layers of the boring
//! with their boundaries, geotechnical soil name and secondary soil
//! attributes, sorted by upper boundary.

use vstd::prelude::*;

use crate::bro::bhr_g::{GeologicalInterval, IntervalModel, interval_view, interval_simple, intervals_as};
use crate::bro::collect::last_pair;
use crate::bro::metadata::{map_of_pairs, opt_string};
use crate::keyed::KeyedVec;
use crate::number::{Number, simple};
use crate::text::{chars_of, string_of};

verus! {

/// A secondary soil attribute of an interval: its category and value.
#[derive(Clone, Debug)]
pub struct SecondaryAttribute {
    pub code: String,
    pub value: String,
}

/// One geotechnical interval.
#[derive(Clone, Debug)]
pub struct GeotechnicalInterval {
    pub upper_boundary: Number,
    pub lower_boundary: Number,
    pub soil_name: Option<String>,
    pub secondary: Vec<SecondaryAttribute>,
}

/// A geotechnical interval as plain values.
pub struct GtIntervalModel {
    pub upper: Number,
    pub lower: Number,
    pub soil_name: Option<Seq<char>>,
    pub secondary: Seq<(Seq<char>, Seq<char>)>,
}

/// The attribute of category `code` among a layer's leaves, if it has one.
pub open spec fn opt_attr(l: Seq<(Seq<char>, Seq<char>)>, code: Seq<char>) -> Seq<(Seq<char>, Seq<char>)> {
    match last_pair(l, code) {
        Some(v) => seq![(code, v)],
        None => seq![],
    }
}

/// The secondary attributes of a layer, category by category.
pub open spec fn secondary_of(l: Seq<(Seq<char>, Seq<char>)>) -> Seq<(Seq<char>, Seq<char>)> {
    opt_attr(l, "anomalousLayer"@) + opt_attr(l, "chunks"@) + opt_attr(l, "peatFraction"@) + opt_attr(
        l,
        "pedologicalSoilName"@,
    ) + opt_attr(l, "organicMatterContent"@) + opt_attr(l, "carbonateContent"@) + opt_attr(l, "ripening"@)
        + opt_attr(l, "soilStructure"@) + opt_attr(l, "horizonValue"@)
}

/// The geotechnical reading of a layer's interval.
pub open spec fn gt_model(m: IntervalModel) -> GtIntervalModel {
    GtIntervalModel {
        upper: m.upper,
        lower: m.lower,
        soil_name: last_pair(m.extensions, "geotechnicalSoilName"@),
        secondary: secondary_of(m.extensions),
    }
}

pub open spec fn attrs_view(s: Seq<SecondaryAttribute>) -> Seq<(Seq<char>, Seq<char>)> {
    s.map_values(|a: SecondaryAttribute| (a.code@, a.value@))
}

pub open spec fn gt_view(g: GeotechnicalInterval, m: GtIntervalModel) -> bool {
    &&& g.upper_boundary == m.upper
    &&& g.lower_boundary == m.lower
    &&& opt_string(g.soil_name) == m.soil_name
    &&& attrs_view(g.secondary@) == m.secondary
}

/// `gs` are the intervals `ms`, read from text.
pub open spec fn gt_intervals_as(gs: Seq<GeotechnicalInterval>, ms: Seq<GtIntervalModel>) -> bool {
    &&& gs.len() == ms.len()
    &&& forall|i: int| 0 <= i < gs.len() ==> gt_view(#[trigger] gs[i], ms[i]) && simple(gs[i].upper_boundary)
        && simple(gs[i].lower_boundary)
}

fn push_attr(
    out: &mut Vec<SecondaryAttribute>,
    ext: &KeyedVec<String>,
    Ghost(l): Ghost<Seq<(Seq<char>, Seq<char>)>>,
    code: &str,
)
    requires
        map_of_pairs(*ext, l),
    ensures
        attrs_view(final(out)@) == attrs_view(old(out)@) + opt_attr(l, code@),
{
    let k = chars_of(code);
    proof {
        assert(opt_string(ext.get_spec(k@)) == last_pair(l, k@));
    }
    match ext.get(&k) {
        Some(v) => {
            let a = SecondaryAttribute { code: string_of(&k), value: string_of(&chars_of(v.as_str())) };
            out.push(a);
            proof {
                assert(attrs_view(out@) =~= attrs_view(old(out)@) + opt_attr(l, code@));
            }
        },
        None => {
            proof {
                assert(attrs_view(out@) =~= attrs_view(old(out)@) + opt_attr(l, code@));
            }
        },
    }
}

fn gt_interval(g: &GeologicalInterval, Ghost(m): Ghost<IntervalModel>) -> (r: GeotechnicalInterval)
    requires
        interval_view(*g, m),
    ensures
        gt_view(r, gt_model(m)),
{
    let l = Ghost(m.extensions);
    let mut s: Vec<SecondaryAttribute> = Vec::new();
    proof {
        assert(attrs_view(s@) =~= seq![]);
    }
    push_attr(&mut s, &g.extensions, l, "anomalousLayer");
    push_attr(&mut s, &g.extensions, l, "chunks");
    push_attr(&mut s, &g.extensions, l, "peatFraction");
    push_attr(&mut s, &g.extensions, l, "pedologicalSoilName");
    push_attr(&mut s, &g.extensions, l, "organicMatterContent");
    push_attr(&mut s, &g.extensions, l, "carbonateContent");
    push_attr(&mut s, &g.extensions, l, "ripening");
    push_attr(&mut s, &g.extensions, l, "soilStructure");
    push_attr(&mut s, &g.extensions, l, "horizonValue");
    let k = chars_of("geotechnicalSoilName");
    proof {
        assert(opt_string(g.extensions.get_spec(k@)) == last_pair(m.extensions, k@));
    }
    let soil_name = match g.extensions.get(&k) {
        Some(v) => Some(string_of(&chars_of(v.as_str()))),
        None => None,
    };
    proof {
        assert(attrs_view(s@) =~= secondary_of(m.extensions));
    }
    GeotechnicalInterval {
        upper_boundary: g.upper_boundary,
        lower_boundary: g.lower_boundary,
        soil_name,
        secondary: s,
    }
}

/// The geotechnical readings of geological intervals, in order.
pub(crate) fn gt_intervals(gs: &Vec<GeologicalInterval>, Ghost(ms): Ghost<Seq<IntervalModel>>) -> (r: Vec<GeotechnicalInterval>)
    requires
        intervals_as(gs@, ms),
    ensures
        gt_intervals_as(r@, ms.map_values(|m: IntervalModel| gt_model(m))),
{
    let mut out: Vec<GeotechnicalInterval> = Vec::new();
    for i in 0..gs.len()
        invariant
            intervals_as(gs@, ms),
            gt_intervals_as(out@, ms.take(i as int).map_values(|m: IntervalModel| gt_model(m))),
    {
        proof {
            assert(interval_view(gs@[i as int], ms[i as int]));
            assert(interval_simple(gs@[i as int]));
        }
        let g = gt_interval(&gs[i], Ghost(ms[i as int]));
        out.push(g);
        proof {
            let a = ms.take(i + 1).map_values(|m: IntervalModel| gt_model(m));
            let b = ms.take(i as int).map_values(|m: IntervalModel| gt_model(m));
            assert(a =~= b.push(gt_model(ms[i as int])));
        }
    }
    proof {
        assert(ms.take(gs@.len() as int) =~= ms);
    }
    out
}

} // verus!
