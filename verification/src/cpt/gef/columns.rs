//! GEF column quantity numbers (CUR/NEN convention) and the fields they carry.

use vstd::prelude::*;

verus! {

/// The quantity measured in a GEF column.
#[derive(Clone, Copy, Debug, PartialEq, Eq)]
pub enum GefField {
    Length,
    Qc,
    Fs,
    Rf,
    U1,
    U2,
    U3,
    Inclination,
    InclNs,
    InclEw,
    Depth,
    Time,
    CorrectedQc,
    NetQc,
    PoreRatio,
    Speed,
    Temp,
    ElectricCond,
    FrictionTotal,
    Unknown(u32),
}

/// The field of quantity number `q`.
pub open spec fn field_of(q: u32) -> GefField {
    if q == 1 {
        GefField::Length
    } else if q == 2 {
        GefField::Qc
    } else if q == 3 {
        GefField::Fs
    } else if q == 4 {
        GefField::Rf
    } else if q == 5 {
        GefField::U1
    } else if q == 6 {
        GefField::U2
    } else if q == 7 {
        GefField::U3
    } else if q == 8 {
        GefField::Inclination
    } else if q == 9 {
        GefField::InclNs
    } else if q == 10 {
        GefField::InclEw
    } else if q == 11 {
        GefField::Depth
    } else if q == 12 {
        GefField::Time
    } else if q == 13 {
        GefField::CorrectedQc
    } else if q == 14 {
        GefField::NetQc
    } else if q == 15 {
        GefField::PoreRatio
    } else if q == 20 {
        GefField::Speed
    } else if q == 21 {
        GefField::Temp
    } else if q == 23 {
        GefField::ElectricCond
    } else if q == 39 {
        GefField::FrictionTotal
    } else {
        GefField::Unknown(q)
    }
}

/// Maps a GEF quantity number to its field; numbers without a known
/// meaning become `Unknown(q)`.
pub fn from_quantity(q: u32) -> (r: GefField)
    ensures
        r == field_of(q),
{
    match q {
        1 => GefField::Length,
        2 => GefField::Qc,
        3 => GefField::Fs,
        4 => GefField::Rf,
        5 => GefField::U1,
        6 => GefField::U2,
        7 => GefField::U3,
        8 => GefField::Inclination,
        9 => GefField::InclNs,
        10 => GefField::InclEw,
        11 => GefField::Depth,
        12 => GefField::Time,
        13 => GefField::CorrectedQc,
        14 => GefField::NetQc,
        15 => GefField::PoreRatio,
        20 => GefField::Speed,
        21 => GefField::Temp,
        23 => GefField::ElectricCond,
        39 => GefField::FrictionTotal,
        n => GefField::Unknown(n),
    }
}

/// The CUR/NEN quantity numbers: 1 length, 2 cone resistance, 3 sleeve
/// friction, 4 friction ratio, 5/6/7 pore pressures u1/u2/u3, 8
/// inclination, 9/10 its north-south and east-west parts, 11 corrected
/// depth, 12 time, 13 corrected and 14 net cone resistance, 15 pore
/// pressure ratio, 20 speed, 21 temperature, 23 electrical conductivity,
/// 39 total friction; every other number is unknown.
pub proof fn law_quantity_numbers(q: u32)
    ensures
        field_of(1) == GefField::Length,
        field_of(2) == GefField::Qc,
        field_of(3) == GefField::Fs,
        field_of(4) == GefField::Rf,
        field_of(5) == GefField::U1,
        field_of(6) == GefField::U2,
        field_of(7) == GefField::U3,
        field_of(8) == GefField::Inclination,
        field_of(9) == GefField::InclNs,
        field_of(10) == GefField::InclEw,
        field_of(11) == GefField::Depth,
        field_of(12) == GefField::Time,
        field_of(13) == GefField::CorrectedQc,
        field_of(14) == GefField::NetQc,
        field_of(15) == GefField::PoreRatio,
        field_of(20) == GefField::Speed,
        field_of(21) == GefField::Temp,
        field_of(23) == GefField::ElectricCond,
        field_of(39) == GefField::FrictionTotal,
        !(1 <= q <= 15 || q == 20 || q == 21 || q == 23 || q == 39) ==> field_of(q) == GefField::Unknown(q),
{
}

} // verus!
