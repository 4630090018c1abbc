//! Layer detection: consecutive measurement points with the same Robertson
//! zone form a layer; layers thinner than 10 cm are absorbed into the layer
//! above them, and neighbours that end up in the same zone are joined.

use vstd::prelude::*;

use crate::cpt::MeasurementPoint;
use crate::cpt::robertson::{Zone, classify, classify_spec};
use crate::number::{Number, simple, bounded, lemma_pow_facts};

verus! {

/// A depth interval of one soil behaviour type.
#[derive(Clone, Copy, Debug, PartialEq, Eq)]
pub struct Layer {
    pub depth_top: Number,
    pub depth_bottom: Number,
    pub zone_number: u8,
    pub zone_name: &'static str,
    pub zone_color: &'static str,
}

pub open spec fn layer_of(top: Number, bottom: Number, z: Zone) -> Layer {
    Layer {
        depth_top: top,
        depth_bottom: bottom,
        zone_number: z.number,
        zone_name: z.name,
        zone_color: z.color,
    }
}

pub open spec fn with_bottom(l: Layer, bottom: Number) -> Layer {
    Layer {
        depth_top: l.depth_top,
        depth_bottom: bottom,
        zone_number: l.zone_number,
        zone_name: l.zone_name,
        zone_color: l.zone_color,
    }
}

/// `bottom - top` as a fraction over `top.den * bottom.den`.
pub open spec fn thickness_num(l: Layer) -> int {
    l.depth_bottom.num * l.depth_top.den - l.depth_top.num * l.depth_bottom.den
}

/// The layer is thinner than 0.10 m.
pub open spec fn thin(l: Layer) -> bool {
    thickness_num(l) * 10 < l.depth_bottom.den * l.depth_top.den
}

/// The zone of a point, when it has both `qc` and `rf` and they classify.
pub open spec fn point_zone(p: MeasurementPoint) -> Option<Zone> {
    match (p.qc, p.rf) {
        (Some(qc), Some(rf)) => classify_spec(qc, rf),
        _ => None,
    }
}

/// The classifiable points, as (depth, zone), in their order.
pub open spec fn classified(pts: Seq<MeasurementPoint>) -> Seq<(Number, Zone)>
    decreases pts.len(),
{
    if pts.len() == 0 {
        seq![]
    } else {
        let rest = classified(pts.drop_last());
        match point_zone(pts.last()) {
            Some(z) => rest.push((pts.last().depth, z)),
            None => rest,
        }
    }
}

/// Maximal runs of equal zone number: each runs from the depth of its first
/// point to the depth of its last point.
pub open spec fn runs(c: Seq<(Number, Zone)>) -> Seq<Layer>
    decreases c.len(),
{
    if c.len() == 0 {
        seq![]
    } else {
        let g = runs(c.drop_last());
        let d = c.last().0;
        let z = c.last().1;
        if g.len() > 0 && g.last().zone_number == z.number {
            g.update(g.len() - 1, with_bottom(g.last(), d))
        } else {
            g.push(layer_of(d, d, z))
        }
    }
}

/// Left to right: a thin layer, or one in the zone of the layer before,
/// extends that layer down to its own bottom.
pub open spec fn merged(r: Seq<Layer>) -> Seq<Layer>
    decreases r.len(),
{
    if r.len() == 0 {
        seq![]
    } else {
        let m = merged(r.drop_last());
        let l = r.last();
        if m.len() > 0 && (thin(l) || m.last().zone_number == l.zone_number) {
            m.update(m.len() - 1, with_bottom(m.last(), l.depth_bottom))
        } else {
            m.push(l)
        }
    }
}

/// The layers of a sequence of points.
pub open spec fn layers_spec(pts: Seq<MeasurementPoint>) -> Seq<Layer> {
    merged(runs(classified(pts)))
}

/// What layer detection needs of a point: an exact depth read from text and
/// `qc`, `rf` small enough to classify.
pub open spec fn layer_ready(p: MeasurementPoint) -> bool {
    &&& simple(p.depth)
    &&& (p.qc matches Some(q) ==> bounded(q))
    &&& (p.rf matches Some(f) ==> bounded(f))
}

pub open spec fn layer_simple(l: Layer) -> bool {
    simple(l.depth_top) && simple(l.depth_bottom)
}

impl Layer {
    /// `depth_bottom - depth_top`.
    pub fn thickness(&self) -> (r: Number)
        requires
            layer_simple(*self),
        ensures
            r.num == thickness_num(*self),
            r.den == self.depth_top.den * self.depth_bottom.den,
            -1000000000000000000000000000000000000 < r.num < 1000000000000000000000000000000000000,
            0 < r.den <= 1000000000000000000000000000000000000,
    {
        proof {
            lemma_pow_facts();
            assert(self.depth_bottom.num * self.depth_top.den < 100000000000000000000000000000000000)
                by (nonlinear_arith)
                requires
                    -100000000000000000 < self.depth_bottom.num < 100000000000000000,
                    0 < self.depth_top.den <= 1000000000000000000,
            ;
            assert(self.depth_bottom.num * self.depth_top.den > -100000000000000000000000000000000000)
                by (nonlinear_arith)
                requires
                    -100000000000000000 < self.depth_bottom.num < 100000000000000000,
                    0 < self.depth_top.den <= 1000000000000000000,
            ;
            assert(self.depth_top.num * self.depth_bottom.den < 100000000000000000000000000000000000)
                by (nonlinear_arith)
                requires
                    -100000000000000000 < self.depth_top.num < 100000000000000000,
                    0 < self.depth_bottom.den <= 1000000000000000000,
            ;
            assert(self.depth_top.num * self.depth_bottom.den > -100000000000000000000000000000000000)
                by (nonlinear_arith)
                requires
                    -100000000000000000 < self.depth_top.num < 100000000000000000,
                    0 < self.depth_bottom.den <= 1000000000000000000,
            ;
            assert(0 < self.depth_top.den * self.depth_bottom.den <= 1000000000000000000000000000000000000)
                by (nonlinear_arith)
                requires
                    0 < self.depth_top.den <= 1000000000000000000,
                    0 < self.depth_bottom.den <= 1000000000000000000,
            ;
        }
        Number {
            num: self.depth_bottom.num * self.depth_top.den - self.depth_top.num * self.depth_bottom.den,
            den: self.depth_top.den * self.depth_bottom.den,
        }
    }
}

fn is_thin(l: &Layer) -> (r: bool)
    requires
        layer_simple(*l),
    ensures
        r == thin(*l),
{
    let t = l.thickness();
    proof {
        lemma_pow_facts();
    }
    t.num * 10 < t.den
}

fn from_zone(top: Number, bottom: Number, z: Zone) -> (r: Layer)
    ensures
        r == layer_of(top, bottom, z),
{
    Layer {
        depth_top: top,
        depth_bottom: bottom,
        zone_number: z.number,
        zone_name: z.name,
        zone_color: z.color,
    }
}

fn set_bottom(l: Layer, bottom: Number) -> (r: Layer)
    ensures
        r == with_bottom(l, bottom),
{
    Layer {
        depth_top: l.depth_top,
        depth_bottom: bottom,
        zone_number: l.zone_number,
        zone_name: l.zone_name,
        zone_color: l.zone_color,
    }
}

fn classify_points(pts: &Vec<MeasurementPoint>) -> (c: Vec<(Number, Zone)>)
    requires
        forall|i: int| 0 <= i < pts@.len() ==> #[trigger] layer_ready(pts@[i]),
    ensures
        c@ == classified(pts@),
        forall|j: int| 0 <= j < c@.len() ==> simple(#[trigger] c@[j].0),
{
    let mut c: Vec<(Number, Zone)> = Vec::new();
    for i in 0..pts.len()
        invariant
            forall|i: int| 0 <= i < pts@.len() ==> #[trigger] layer_ready(pts@[i]),
            c@ == classified(pts@.subrange(0, i as int)),
            forall|j: int| 0 <= j < c@.len() ==> simple(#[trigger] c@[j].0),
    {
        let p = pts[i];
        proof {
            assert(pts@.subrange(0, i + 1).drop_last() =~= pts@.subrange(0, i as int));
            assert(pts@.subrange(0, i + 1).last() == p);
            assert(layer_ready(pts@[i as int]));
        }
        match (p.qc, p.rf) {
            (Some(qc), Some(rf)) => {
                match classify(qc, rf) {
                    Some(z) => {
                        c.push((p.depth, z));
                    },
                    None => {},
                }
            },
            _ => {},
        }
    }
    proof {
        assert(pts@.subrange(0, pts@.len() as int) =~= pts@);
    }
    c
}

fn group_runs(c: &Vec<(Number, Zone)>) -> (r: Vec<Layer>)
    requires
        forall|j: int| 0 <= j < c@.len() ==> simple(#[trigger] c@[j].0),
    ensures
        r@ == runs(c@),
        forall|j: int| 0 <= j < r@.len() ==> layer_simple(#[trigger] r@[j]),
{
    let mut r: Vec<Layer> = Vec::new();
    for i in 0..c.len()
        invariant
            forall|j: int| 0 <= j < c@.len() ==> simple(#[trigger] c@[j].0),
            r@ == runs(c@.subrange(0, i as int)),
            forall|j: int| 0 <= j < r@.len() ==> layer_simple(#[trigger] r@[j]),
    {
        let (d, z) = c[i];
        proof {
            assert(c@.subrange(0, i + 1).drop_last() =~= c@.subrange(0, i as int));
            assert(c@.subrange(0, i + 1).last() == c@[i as int]);
            assert(simple(c@[i as int].0));
        }
        let n = r.len();
        if n > 0 && r[n - 1].zone_number == z.number {
            let l = set_bottom(r[n - 1], d);
            r.set(n - 1, l);
        } else {
            r.push(from_zone(d, d, z));
        }
        proof {
            assert forall|j: int| 0 <= j < r@.len() implies layer_simple(#[trigger] r@[j]) by {}
        }
    }
    proof {
        assert(c@.subrange(0, c@.len() as int) =~= c@);
    }
    r
}

fn merge_thin(raw: &Vec<Layer>) -> (m: Vec<Layer>)
    requires
        forall|j: int| 0 <= j < raw@.len() ==> layer_simple(#[trigger] raw@[j]),
    ensures
        m@ == merged(raw@),
        forall|j: int| 0 <= j < m@.len() ==> layer_simple(#[trigger] m@[j]),
{
    let mut m: Vec<Layer> = Vec::new();
    for i in 0..raw.len()
        invariant
            forall|j: int| 0 <= j < raw@.len() ==> layer_simple(#[trigger] raw@[j]),
            m@ == merged(raw@.subrange(0, i as int)),
            forall|j: int| 0 <= j < m@.len() ==> layer_simple(#[trigger] m@[j]),
    {
        let l = raw[i];
        proof {
            assert(raw@.subrange(0, i + 1).drop_last() =~= raw@.subrange(0, i as int));
            assert(raw@.subrange(0, i + 1).last() == l);
            assert(layer_simple(raw@[i as int]));
        }
        let n = m.len();
        if n > 0 && (is_thin(&l) || m[n - 1].zone_number == l.zone_number) {
            let e = set_bottom(m[n - 1], l.depth_bottom);
            m.set(n - 1, e);
        } else {
            m.push(l);
        }
        proof {
            assert forall|j: int| 0 <= j < m@.len() implies layer_simple(#[trigger] m@[j]) by {}
        }
    }
    proof {
        assert(raw@.subrange(0, raw@.len() as int) =~= raw@);
    }
    m
}

/// The layers of a CPT, top to bottom.
pub fn detect_layers(cpt: &crate::cpt::Cpt) -> (r: Vec<Layer>)
    requires
        forall|i: int| 0 <= i < cpt.points@.len() ==> #[trigger] layer_ready(cpt.points@[i]),
    ensures
        r@ == layers_spec(cpt.points@),
        forall|j: int| 0 <= j < r@.len() ==> layer_simple(#[trigger] r@[j]),
{
    let c = classify_points(&cpt.points);
    let raw = group_runs(&c);
    merge_thin(&raw)
}

proof fn lemma_runs_ends(c: Seq<(Number, Zone)>)
    requires
        c.len() > 0,
    ensures
        runs(c).len() > 0,
        runs(c)[0].depth_top == c[0].0,
        runs(c).last().depth_bottom == c.last().0,
    decreases c.len(),
{
    let g = runs(c.drop_last());
    if c.len() == 1 {
        assert(g =~= Seq::<Layer>::empty());
    } else {
        lemma_runs_ends(c.drop_last());
        assert(c.drop_last()[0] == c[0]);
        if g.last().zone_number == c.last().1.number {
            assert(runs(c)[0].depth_top == g[0].depth_top);
        } else {
            assert(runs(c)[0] == g[0]);
        }
    }
}

proof fn lemma_merged_ends(r: Seq<Layer>)
    requires
        r.len() > 0,
    ensures
        merged(r).len() > 0,
        merged(r)[0].depth_top == r[0].depth_top,
        merged(r).last().depth_bottom == r.last().depth_bottom,
    decreases r.len(),
{
    let m = merged(r.drop_last());
    if r.len() == 1 {
        assert(m =~= Seq::<Layer>::empty());
    } else {
        lemma_merged_ends(r.drop_last());
        assert(r.drop_last()[0] == r[0]);
        let l = r.last();
        if thin(l) || m.last().zone_number == l.zone_number {
            assert(merged(r)[0].depth_top == m[0].depth_top);
        } else {
            assert(merged(r)[0] == m[0]);
        }
    }
}

proof fn lemma_merged_adjacent(r: Seq<Layer>)
    ensures
        forall|i: int|
            0 <= i < merged(r).len() - 1 ==> #[trigger] merged(r)[i].zone_number
                != merged(r)[i + 1].zone_number,
    decreases r.len(),
{
    if r.len() > 0 {
        let m = merged(r.drop_last());
        let l = r.last();
        lemma_merged_adjacent(r.drop_last());
        let out = merged(r);
        if m.len() > 0 && (thin(l) || m.last().zone_number == l.zone_number) {
            assert forall|i: int| 0 <= i < out.len() - 1 implies #[trigger] out[i].zone_number
                != out[i + 1].zone_number by {
                assert(out[i].zone_number == m[i].zone_number);
                assert(out[i + 1].zone_number == m[i + 1].zone_number);
            }
        } else {
            assert forall|i: int| 0 <= i < out.len() - 1 implies #[trigger] out[i].zone_number
                != out[i + 1].zone_number by {
                if i + 1 < m.len() {
                    assert(out[i] == m[i]);
                    assert(out[i + 1] == m[i + 1]);
                } else {
                    assert(out[i] == m.last());
                    assert(out[i + 1] == l);
                }
            }
        }
    }
}

/// A CPT has layers exactly when at least one of its points has `qc` and
/// `rf` and falls in a zone of the chart.
pub proof fn law_layers_exist_iff_classifiable(pts: Seq<MeasurementPoint>)
    ensures
        (layers_spec(pts).len() == 0) <==> (classified(pts).len() == 0),
{
    let c = classified(pts);
    if c.len() > 0 {
        lemma_runs_ends(c);
        lemma_merged_ends(runs(c));
    }
}

/// Two neighbouring layers never share a zone.
pub proof fn law_neighbouring_layers_differ(pts: Seq<MeasurementPoint>)
    ensures
        forall|i: int|
            0 <= i < layers_spec(pts).len() - 1 ==> #[trigger] layers_spec(pts)[i].zone_number
                != layers_spec(pts)[i + 1].zone_number,
{
    lemma_merged_adjacent(runs(classified(pts)));
}

/// The layers start at the depth of the first classifiable point and end at
/// the depth of the last one.
pub proof fn law_layers_span_classified_points(pts: Seq<MeasurementPoint>)
    requires
        classified(pts).len() > 0,
    ensures
        layers_spec(pts).len() > 0,
        layers_spec(pts)[0].depth_top == classified(pts)[0].0,
        layers_spec(pts).last().depth_bottom == classified(pts).last().0,
{
    let c = classified(pts);
    lemma_runs_ends(c);
    lemma_merged_ends(runs(c));
}

/// Merging the raw layers left to right, the 0.10 m rule: a raw layer at
/// least 0.10 m thick (bottom minus top, as exact fractions) in a zone
/// other than that of the layer before stays a layer of its own; one
/// thinner than 0.10 m is absorbed, extending the layer before down to its
/// bottom.
pub proof fn law_merge_keeps_layers_of_a_tenth_metre(r: Seq<Layer>)
    requires
        r.len() >= 2,
        r.last().depth_top.den > 0,
        r.last().depth_bottom.den > 0,
    ensures
        ({
            let l = r.last();
            let prev = merged(r.drop_last());
            let t = l.depth_bottom.num * l.depth_top.den - l.depth_top.num * l.depth_bottom.den;
            let unit = l.depth_bottom.den * l.depth_top.den;
            &&& (t * 10 >= unit && l.zone_number != prev.last().zone_number ==> merged(r) == prev.push(l))
            &&& (t * 10 < unit ==> merged(r).len() == prev.len() && merged(r).last().depth_bottom == l.depth_bottom
                && merged(r).last().depth_top == prev.last().depth_top && merged(r).last().zone_number
                == prev.last().zone_number)
        }),
{
    lemma_merged_ends(r.drop_last());
}

} // verus!
