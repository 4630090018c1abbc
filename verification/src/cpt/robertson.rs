//! Robertson (1990) soil behaviour type from cone resistance and friction
//! ratio, in the simplified nine-zone form used in Dutch practice.

use vstd::prelude::*;

use crate::number::{Number, bounded};

verus! {

/// One soil behaviour type zone.
#[derive(Clone, Copy, Debug, PartialEq, Eq)]
pub struct Zone {
    pub number: u8,
    pub name: &'static str,
    pub color: &'static str,
}

/// Zone `n` (1 to 9) of the chart.
pub open spec fn zone_spec(n: int) -> Zone {
    if n == 1 {
        Zone { number: 1, name: "Gevoelig fijnkorrelig", color: "#00BCD4" }
    } else if n == 2 {
        Zone { number: 2, name: "Organisch / veen", color: "#795548" }
    } else if n == 3 {
        Zone { number: 3, name: "Klei", color: "#4CAF50" }
    } else if n == 4 {
        Zone { number: 4, name: "Silt mengsels", color: "#8BC34A" }
    } else if n == 5 {
        Zone { number: 5, name: "Zand mengsels", color: "#FFC107" }
    } else if n == 6 {
        Zone { number: 6, name: "Zand", color: "#FF9800" }
    } else if n == 7 {
        Zone { number: 7, name: "Grof zand / grind", color: "#FF5722" }
    } else if n == 8 {
        Zone { number: 8, name: "Zeer vast zand/klei", color: "#F44336" }
    } else {
        Zone { number: 9, name: "Zeer vast fijnkorrelig", color: "#9C27B0" }
    }
}

pub fn zone(n: u8) -> (z: Zone)
    requires
        1 <= n <= 9,
    ensures
        z == zone_spec(n as int),
        z.number == n,
{
    if n == 1 {
        Zone { number: 1, name: "Gevoelig fijnkorrelig", color: "#00BCD4" }
    } else if n == 2 {
        Zone { number: 2, name: "Organisch / veen", color: "#795548" }
    } else if n == 3 {
        Zone { number: 3, name: "Klei", color: "#4CAF50" }
    } else if n == 4 {
        Zone { number: 4, name: "Silt mengsels", color: "#8BC34A" }
    } else if n == 5 {
        Zone { number: 5, name: "Zand mengsels", color: "#FFC107" }
    } else if n == 6 {
        Zone { number: 6, name: "Zand", color: "#FF9800" }
    } else if n == 7 {
        Zone { number: 7, name: "Grof zand / grind", color: "#FF5722" }
    } else if n == 8 {
        Zone { number: 8, name: "Zeer vast zand/klei", color: "#F44336" }
    } else {
        Zone { number: 9, name: "Zeer vast fijnkorrelig", color: "#9C27B0" }
    }
}

/// All nine zones, numbered 1 to 9 in order.
pub fn zones() -> (r: Vec<Zone>)
    ensures
        r@.len() == 9,
        forall|i: int| 0 <= i < 9 ==> #[trigger] r@[i] == zone_spec(i + 1),
{
    let mut r: Vec<Zone> = Vec::new();
    let mut n: u8 = 1;
    while n <= 9
        invariant
            1 <= n <= 10,
            r@.len() == n - 1,
            forall|i: int| 0 <= i < n - 1 ==> #[trigger] r@[i] == zone_spec(i + 1),
        decreases 10 - n,
    {
        r.push(zone(n));
        n = n + 1;
    }
    r
}

/// `a > p / q` for a value and a positive constant fraction.
pub open spec fn gt_frac(a: Number, p: int, q: int) -> bool {
    a.num * q > p * a.den
}

/// `a < p / q`.
pub open spec fn lt_frac(a: Number, p: int, q: int) -> bool {
    a.num * q < p * a.den
}

fn gt_frac_exec(a: Number, p: i128, q: i128) -> (r: bool)
    requires
        bounded(a),
        0 <= p <= 100,
        1 <= q <= 10,
    ensures
        r == gt_frac(a, p as int, q as int),
{
    proof {
        crate::number::lemma_pow_facts();
        assert(-100000000000000000000000000000000000000 <= a.num * q <= 100000000000000000000000000000000000000)
            by (nonlinear_arith)
            requires
                -10000000000000000000000000000000000000 <= a.num <= 10000000000000000000000000000000000000,
                1 <= q <= 10,
        ;
        assert(0 <= p * a.den <= 100000000000000000000000000000000000000) by (nonlinear_arith)
            requires
                0 < a.den <= 1000000000000000000000000000000000000,
                0 <= p <= 100,
        ;
    }
    a.num * q > p * a.den
}

fn lt_frac_exec(a: Number, p: i128, q: i128) -> (r: bool)
    requires
        bounded(a),
        0 <= p <= 100,
        1 <= q <= 10,
    ensures
        r == lt_frac(a, p as int, q as int),
{
    proof {
        crate::number::lemma_pow_facts();
        assert(-100000000000000000000000000000000000000 <= a.num * q <= 100000000000000000000000000000000000000)
            by (nonlinear_arith)
            requires
                -10000000000000000000000000000000000000 <= a.num <= 10000000000000000000000000000000000000,
                1 <= q <= 10,
        ;
        assert(0 <= p * a.den <= 100000000000000000000000000000000000000) by (nonlinear_arith)
            requires
                0 < a.den <= 1000000000000000000000000000000000000,
                0 <= p <= 100,
        ;
    }
    a.num * q < p * a.den
}

/// The zone number of the Robertson chart for `(qc, rf)`, or 0 when the
/// input is not classifiable (`qc <= 0` or `rf < 0`).
pub open spec fn classify_number(qc: Number, rf: Number) -> int {
    if !gt_frac(qc, 0, 1) || lt_frac(rf, 0, 1) {
        0
    } else if gt_frac(qc, 25, 1) {
        if lt_frac(rf, 1, 1) { 7 } else { 8 }
    } else if gt_frac(qc, 10, 1) {
        if lt_frac(rf, 1, 2) { 7 } else if lt_frac(rf, 3, 2) { 6 } else if lt_frac(rf, 3, 1) { 5 } else { 8 }
    } else if gt_frac(qc, 5, 1) {
        if lt_frac(rf, 1, 1) { 6 } else if lt_frac(rf, 2, 1) { 5 } else if lt_frac(rf, 4, 1) { 4 } else if lt_frac(rf, 6, 1) { 3 } else { 9 }
    } else if gt_frac(qc, 2, 1) {
        if lt_frac(rf, 1, 1) { 5 } else if lt_frac(rf, 5, 2) { 4 } else if lt_frac(rf, 5, 1) { 3 } else { 2 }
    } else if gt_frac(qc, 1, 2) {
        if lt_frac(rf, 1, 1) { 4 } else if lt_frac(rf, 3, 1) { 3 } else { 2 }
    } else {
        if lt_frac(rf, 2, 1) { 3 } else if lt_frac(rf, 5, 1) { 2 } else { 1 }
    }
}

pub open spec fn classify_spec(qc: Number, rf: Number) -> Option<Zone> {
    if classify_number(qc, rf) == 0 {
        None
    } else {
        Some(zone_spec(classify_number(qc, rf)))
    }
}

/// Classifies a point by cone resistance (MPa) and friction ratio (%).
/// `None` for invalid input (`qc <= 0` or `rf < 0`).
pub fn classify(qc: Number, rf: Number) -> (r: Option<Zone>)
    requires
        bounded(qc),
        bounded(rf),
    ensures
        r == classify_spec(qc, rf),
{
    let n: u8 = if !gt_frac_exec(qc, 0, 1) || lt_frac_exec(rf, 0, 1) {
        0
    } else if gt_frac_exec(qc, 25, 1) {
        if lt_frac_exec(rf, 1, 1) { 7 } else { 8 }
    } else if gt_frac_exec(qc, 10, 1) {
        if lt_frac_exec(rf, 1, 2) { 7 } else if lt_frac_exec(rf, 3, 2) { 6 } else if lt_frac_exec(rf, 3, 1) { 5 } else { 8 }
    } else if gt_frac_exec(qc, 5, 1) {
        if lt_frac_exec(rf, 1, 1) { 6 } else if lt_frac_exec(rf, 2, 1) { 5 } else if lt_frac_exec(rf, 4, 1) { 4 } else if lt_frac_exec(rf, 6, 1) { 3 } else { 9 }
    } else if gt_frac_exec(qc, 2, 1) {
        if lt_frac_exec(rf, 1, 1) { 5 } else if lt_frac_exec(rf, 5, 2) { 4 } else if lt_frac_exec(rf, 5, 1) { 3 } else { 2 }
    } else if gt_frac_exec(qc, 1, 2) {
        if lt_frac_exec(rf, 1, 1) { 4 } else if lt_frac_exec(rf, 3, 1) { 3 } else { 2 }
    } else {
        if lt_frac_exec(rf, 2, 1) { 3 } else if lt_frac_exec(rf, 5, 1) { 2 } else { 1 }
    };
    if n == 0 {
        None
    } else {
        Some(zone(n))
    }
}

/// The nine zones carry the numbers 1 to 9, each once.
pub proof fn law_zone_numbers_unique()
    ensures
        forall|i: int| 1 <= i <= 9 ==> #[trigger] zone_spec(i).number == i,
        forall|i: int, j: int| 1 <= i <= 9 && 1 <= j <= 9 && i != j ==> #[trigger] zone_spec(i).number
            != #[trigger] zone_spec(j).number,
{
}

/// Classification fails exactly for a cone resistance of at most zero or
/// a negative friction ratio.
pub proof fn law_classify_none_iff_invalid(qc: Number, rf: Number)
    requires
        qc.den > 0,
        rf.den > 0,
    ensures
        classify_spec(qc, rf) is None <==> (qc.num <= 0 || rf.num < 0),
{
}

/// The Robertson chart cell by cell, in MPa and %: each band of cone
/// resistance `lo < qc <= hi` and of friction ratio `lo <= rf < hi` gives
/// its zone.
pub proof fn law_robertson_chart(qc: Number, rf: Number)
    requires
        qc.den > 0,
        rf.den > 0,
    ensures
        qc.num > 25 * qc.den && rf.num >= 0 && rf.num < rf.den
            ==> classify_spec(qc, rf) == Some(Zone { number: 7, name: "Grof zand / grind", color: "#FF5722" }),
        qc.num > 25 * qc.den && rf.num >= rf.den
            ==> classify_spec(qc, rf) == Some(Zone { number: 8, name: "Zeer vast zand/klei", color: "#F44336" }),
        qc.num > 10 * qc.den && qc.num <= 25 * qc.den && rf.num >= 0 && rf.num * 2 < rf.den
            ==> classify_spec(qc, rf) == Some(Zone { number: 7, name: "Grof zand / grind", color: "#FF5722" }),
        qc.num > 10 * qc.den && qc.num <= 25 * qc.den && rf.num * 2 >= rf.den && rf.num * 2 < 3 * rf.den
            ==> classify_spec(qc, rf) == Some(Zone { number: 6, name: "Zand", color: "#FF9800" }),
        qc.num > 10 * qc.den && qc.num <= 25 * qc.den && rf.num * 2 >= 3 * rf.den && rf.num < 3 * rf.den
            ==> classify_spec(qc, rf) == Some(Zone { number: 5, name: "Zand mengsels", color: "#FFC107" }),
        qc.num > 10 * qc.den && qc.num <= 25 * qc.den && rf.num >= 3 * rf.den
            ==> classify_spec(qc, rf) == Some(Zone { number: 8, name: "Zeer vast zand/klei", color: "#F44336" }),
        qc.num > 5 * qc.den && qc.num <= 10 * qc.den && rf.num >= 0 && rf.num < rf.den
            ==> classify_spec(qc, rf) == Some(Zone { number: 6, name: "Zand", color: "#FF9800" }),
        qc.num > 5 * qc.den && qc.num <= 10 * qc.den && rf.num >= rf.den && rf.num < 2 * rf.den
            ==> classify_spec(qc, rf) == Some(Zone { number: 5, name: "Zand mengsels", color: "#FFC107" }),
        qc.num > 5 * qc.den && qc.num <= 10 * qc.den && rf.num >= 2 * rf.den && rf.num < 4 * rf.den
            ==> classify_spec(qc, rf) == Some(Zone { number: 4, name: "Silt mengsels", color: "#8BC34A" }),
        qc.num > 5 * qc.den && qc.num <= 10 * qc.den && rf.num >= 4 * rf.den && rf.num < 6 * rf.den
            ==> classify_spec(qc, rf) == Some(Zone { number: 3, name: "Klei", color: "#4CAF50" }),
        qc.num > 5 * qc.den && qc.num <= 10 * qc.den && rf.num >= 6 * rf.den
            ==> classify_spec(qc, rf) == Some(Zone { number: 9, name: "Zeer vast fijnkorrelig", color: "#9C27B0" }),
        qc.num > 2 * qc.den && qc.num <= 5 * qc.den && rf.num >= 0 && rf.num < rf.den
            ==> classify_spec(qc, rf) == Some(Zone { number: 5, name: "Zand mengsels", color: "#FFC107" }),
        qc.num > 2 * qc.den && qc.num <= 5 * qc.den && rf.num >= rf.den && rf.num * 2 < 5 * rf.den
            ==> classify_spec(qc, rf) == Some(Zone { number: 4, name: "Silt mengsels", color: "#8BC34A" }),
        qc.num > 2 * qc.den && qc.num <= 5 * qc.den && rf.num * 2 >= 5 * rf.den && rf.num < 5 * rf.den
            ==> classify_spec(qc, rf) == Some(Zone { number: 3, name: "Klei", color: "#4CAF50" }),
        qc.num > 2 * qc.den && qc.num <= 5 * qc.den && rf.num >= 5 * rf.den
            ==> classify_spec(qc, rf) == Some(Zone { number: 2, name: "Organisch / veen", color: "#795548" }),
        qc.num * 2 > qc.den && qc.num <= 2 * qc.den && rf.num >= 0 && rf.num < rf.den
            ==> classify_spec(qc, rf) == Some(Zone { number: 4, name: "Silt mengsels", color: "#8BC34A" }),
        qc.num * 2 > qc.den && qc.num <= 2 * qc.den && rf.num >= rf.den && rf.num < 3 * rf.den
            ==> classify_spec(qc, rf) == Some(Zone { number: 3, name: "Klei", color: "#4CAF50" }),
        qc.num * 2 > qc.den && qc.num <= 2 * qc.den && rf.num >= 3 * rf.den
            ==> classify_spec(qc, rf) == Some(Zone { number: 2, name: "Organisch / veen", color: "#795548" }),
        qc.num > 0 * qc.den && qc.num * 2 <= qc.den && rf.num >= 0 && rf.num < 2 * rf.den
            ==> classify_spec(qc, rf) == Some(Zone { number: 3, name: "Klei", color: "#4CAF50" }),
        qc.num > 0 * qc.den && qc.num * 2 <= qc.den && rf.num >= 2 * rf.den && rf.num < 5 * rf.den
            ==> classify_spec(qc, rf) == Some(Zone { number: 2, name: "Organisch / veen", color: "#795548" }),
        qc.num > 0 * qc.den && qc.num * 2 <= qc.den && rf.num >= 5 * rf.den
            ==> classify_spec(qc, rf) == Some(Zone { number: 1, name: "Gevoelig fijnkorrelig", color: "#00BCD4" }),
{
}

} // verus!
