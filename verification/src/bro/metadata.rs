//! Metadata shared by all BRO documents: identifier, quality regime,
//! parties, dates, position and every other short leaf as an extension.

use vstd::prelude::*;

use crate::bro::{BroError, BroFailure, SchemaVersion, last_segment};
use crate::bro::collect::{
    CollectedXml,
    ancestor_attr,
    field_path_spec,
    find_leaf,
    leaf_value,
    last_pair,
    opt_chars,
    pair_views,
};
use crate::calendar::{Date, date_parsed, parse_date_with, valid_date};
use crate::keyed::KeyedVec;
use crate::number::{Number, Parsed, parse_number, parse_spec, simple, lemma_parse_simple};
use crate::text::{chars_of, eq_chars, push_str, split_on, split_chars, split_ws, split_ws_chars, string_of, trim, trim_chars, views};

verus! {

/// A horizontal position and its coordinate reference system.
#[derive(Clone, Debug)]
pub struct Position {
    pub x: Number,
    pub y: Number,
    pub crs: String,
}

/// A vertical reference level.
#[derive(Clone, Debug)]
pub struct VerticalPosition {
    pub offset: Number,
    pub datum: Option<String>,
}

/// Metadata shared by all BRO documents.
#[derive(Clone, Debug)]
pub struct CommonMetadata {
    pub bro_id: String,
    pub schema_version: SchemaVersion,
    pub quality_regime: Option<String>,
    pub accountable_party: Option<String>,
    pub registration_time: Option<Date>,
    pub research_start_date: Option<Date>,
    pub research_end_date: Option<Date>,
    pub position: Option<Position>,
    pub vertical_position: Option<VerticalPosition>,
    /// Other leaves by path.
    pub extensions: KeyedVec<String>,
}

pub open spec fn opt_string(o: Option<String>) -> Option<Seq<char>> {
    match o {
        Some(s) => Some(s@),
        None => None,
    }
}

/// `Some` non-blank value, else a missing field at `path`.
pub open spec fn required_spec(value: Option<Seq<char>>, path: Seq<char>) -> Result<Seq<char>, BroFailure> {
    match value {
        Some(v) => if trim(v).len() > 0 {
            Ok(v)
        } else {
            Err(BroFailure::MissingField(path))
        },
        None => Err(BroFailure::MissingField(path)),
    }
}

/// A number field: values that are not numbers are invalid; a number the
/// library does not hold exactly (not finite, or too large or too precise)
/// is `None`.
pub open spec fn number_field(path: Seq<char>, value: Seq<char>) -> Result<Option<Number>, BroFailure> {
    match parse_spec(value) {
        Parsed::Finite(n) => Ok(Some(n)),
        Parsed::Invalid => Err(BroFailure::InvalidValue(path, value)),
        _ => Ok(None),
    }
}

/// Bytes of a character in UTF-8.
pub open spec fn utf8_len(c: char) -> int {
    if (c as u32) < 0x80 {
        1
    } else if (c as u32) < 0x800 {
        2
    } else if (c as u32) < 0x10000 {
        3
    } else {
        4
    }
}

/// The characters making up the first `n` bytes, when `n` bytes end at a
/// character boundary inside `s` (like `str::get(..n)`).
pub open spec fn byte_prefix(s: Seq<char>, n: int) -> Option<Seq<char>>
    decreases s.len(),
{
    if n == 0 {
        Some(seq![])
    } else if s.len() == 0 || n < 0 {
        None
    } else {
        match byte_prefix(s.drop_first(), n - utf8_len(s[0])) {
            Some(t) => Some(seq![s[0]] + t),
            None => None,
        }
    }
}

/// A `YYYY-MM-DD` date at the start of the value (the first ten bytes).
pub open spec fn date_field(path: Seq<char>, value: Seq<char>) -> Result<Date, BroFailure> {
    let d = match byte_prefix(value, 10) {
        Some(t) => t,
        None => value,
    };
    match date_parsed(d, "%Y-%m-%d"@) {
        Some(dt) => Ok(dt),
        None => Err(BroFailure::InvalidValue(path, value)),
    }
}

pub open spec fn optional_date_spec(
    leaves: Seq<(Seq<char>, Seq<char>)>,
    root: Option<Seq<char>>,
    local: Seq<char>,
) -> Result<Option<Date>, BroFailure> {
    match leaf_value(leaves, local) {
        None => Ok(None),
        Some(v) => match date_field(field_path_spec(leaves, root, local), v) {
            Ok(d) => Ok(Some(d)),
            Err(f) => Err(f),
        },
    }
}

pub struct PositionModel {
    pub x: Number,
    pub y: Number,
    pub crs: Seq<char>,
}

/// The first `pos` leaf: two whitespace separated ordinates and the
/// `srsName` of the element or an ancestor.
pub open spec fn position_spec(
    leaves: Seq<(Seq<char>, Seq<char>)>,
    attrs: Seq<(Seq<char>, Seq<(Seq<char>, Seq<char>)>)>,
) -> Result<Option<PositionModel>, BroFailure> {
    let j = find_leaf(leaves, "pos"@, 0);
    if !(0 <= j < leaves.len()) {
        Ok(None)
    } else {
        let path = leaves[j].0;
        let ords = split_ws(leaves[j].1);
        match required_spec(if ords.len() > 0 { Some(ords[0]) } else { None }, path) {
            Err(f) => Err(f),
            Ok(xs) => match number_field(path, xs) {
                Err(f) => Err(f),
                Ok(x) => match required_spec(if ords.len() > 1 { Some(ords[1]) } else { None }, path) {
                    Err(f) => Err(f),
                    Ok(ys) => match number_field(path, ys) {
                        Err(f) => Err(f),
                        Ok(y) => match required_spec(
                            ancestor_attr(attrs, path, "srsName"@),
                            path + "/@srsName"@,
                        ) {
                            Err(f) => Err(f),
                            Ok(crs) => match (x, y) {
                                (Some(a), Some(b)) => Ok(Some(PositionModel { x: a, y: b, crs: crs })),
                                _ => Ok(None),
                            },
                        },
                    },
                },
            },
        }
    }
}

pub struct VerticalModel {
    pub offset: Number,
    pub datum: Option<Seq<char>>,
}

pub open spec fn or_else(a: Option<Seq<char>>, b: Option<Seq<char>>) -> Option<Seq<char>> {
    match a {
        Some(v) => Some(v),
        None => b,
    }
}

/// The `offset` leaf and the `verticalDatum` (or `datum`) leaf.
pub open spec fn vertical_spec(leaves: Seq<(Seq<char>, Seq<char>)>, root: Option<Seq<char>>) -> Result<
    Option<VerticalModel>,
    BroFailure,
> {
    match leaf_value(leaves, "offset"@) {
        None => Ok(None),
        Some(v) => match number_field(field_path_spec(leaves, root, "offset"@), v) {
            Err(f) => Err(f),
            Ok(None) => Ok(None),
            Ok(Some(o)) => Ok(
                Some(
                    VerticalModel {
                        offset: o,
                        datum: or_else(leaf_value(leaves, "verticalDatum"@), leaf_value(leaves, "datum"@)),
                    },
                ),
            ),
        },
    }
}

/// Local names read into typed metadata fields.
pub open spec fn recognized(l: Seq<char>) -> bool {
    ||| l == "broId"@
    ||| l == "qualityRegime"@
    ||| l == "deliveryAccountableParty"@
    ||| l == "accountableParty"@
    ||| l == "objectRegistrationTime"@
    ||| l == "researchStartDate"@
    ||| l == "researchEndDate"@
    ||| l == "pos"@
    ||| l == "offset"@
    ||| l == "verticalDatum"@
    ||| l == "datum"@
}

pub open spec fn excluded_segment(s: Seq<char>) -> bool {
    ||| s == "Point"@
    ||| s == "pos"@
    ||| s == "coordinates"@
    ||| s == "values"@
    ||| s == "elementValue"@
    ||| s == "DataArray"@
    ||| s == "result"@
}

/// Paths through geometry or data-array elements are not extensions.
pub open spec fn excluded_path(p: Seq<char>) -> bool {
    exists|i: int| 0 <= i < split_on(p, '/').len() && #[trigger] excluded_segment(split_on(p, '/')[i])
}

pub open spec fn is_extension(leaf: (Seq<char>, Seq<char>)) -> bool {
    !recognized(last_segment(leaf.0)) && leaf.1.len() < 200 && !excluded_path(leaf.0)
}

/// The leaves kept as extensions, in order.
pub open spec fn extension_leaves(leaves: Seq<(Seq<char>, Seq<char>)>) -> Seq<(Seq<char>, Seq<char>)>
    decreases leaves.len(),
{
    if leaves.len() == 0 {
        seq![]
    } else {
        let r = extension_leaves(leaves.drop_last());
        if is_extension(leaves.last()) {
            r.push(leaves.last())
        } else {
            r
        }
    }
}

/// A string map holding, for each key, the last value `l` gives it.
pub open spec fn map_of_pairs(m: KeyedVec<String>, l: Seq<(Seq<char>, Seq<char>)>) -> bool {
    forall|k: Seq<char>| #[trigger] opt_string(m.get_spec(k)) == last_pair(l, k)
}

pub struct CommonModel {
    pub bro_id: Seq<char>,
    pub quality_regime: Option<Seq<char>>,
    pub accountable_party: Option<Seq<char>>,
    pub registration_time: Option<Date>,
    pub research_start_date: Option<Date>,
    pub research_end_date: Option<Date>,
    pub position: Option<PositionModel>,
    pub vertical_position: Option<VerticalModel>,
}

/// The common metadata of collected leaves and attributes.
pub open spec fn common_spec(
    leaves: Seq<(Seq<char>, Seq<char>)>,
    attrs: Seq<(Seq<char>, Seq<(Seq<char>, Seq<char>)>)>,
    root: Option<Seq<char>>,
) -> Result<CommonModel, BroFailure> {
    match required_spec(leaf_value(leaves, "broId"@), field_path_spec(leaves, root, "broId"@)) {
        Err(f) => Err(f),
        Ok(id) => match position_spec(leaves, attrs) {
            Err(f) => Err(f),
            Ok(pos) => match vertical_spec(leaves, root) {
                Err(f) => Err(f),
                Ok(vp) => match optional_date_spec(leaves, root, "objectRegistrationTime"@) {
                    Err(f) => Err(f),
                    Ok(rt) => match optional_date_spec(leaves, root, "researchStartDate"@) {
                        Err(f) => Err(f),
                        Ok(sd) => match optional_date_spec(leaves, root, "researchEndDate"@) {
                            Err(f) => Err(f),
                            Ok(ed) => Ok(
                                CommonModel {
                                    bro_id: id,
                                    quality_regime: leaf_value(leaves, "qualityRegime"@),
                                    accountable_party: or_else(
                                        leaf_value(leaves, "deliveryAccountableParty"@),
                                        leaf_value(leaves, "accountableParty"@),
                                    ),
                                    registration_time: rt,
                                    research_start_date: sd,
                                    research_end_date: ed,
                                    position: pos,
                                    vertical_position: vp,
                                },
                            ),
                        },
                    },
                },
            },
        },
    }
}

pub open spec fn position_as(p: Option<Position>, m: Option<PositionModel>) -> bool {
    match (p, m) {
        (Some(a), Some(b)) => a.x == b.x && a.y == b.y && a.crs@ == b.crs,
        (None, None) => true,
        _ => false,
    }
}

pub open spec fn vertical_as(p: Option<VerticalPosition>, m: Option<VerticalModel>) -> bool {
    match (p, m) {
        (Some(a), Some(b)) => a.offset == b.offset && opt_string(a.datum) == b.datum,
        (None, None) => true,
        _ => false,
    }
}

/// `c` holds the model's values, the schema version and the extensions of
/// `leaves`.
pub open spec fn common_as(
    c: CommonMetadata,
    m: CommonModel,
    v: SchemaVersion,
    leaves: Seq<(Seq<char>, Seq<char>)>,
) -> bool {
    &&& c.bro_id@ == m.bro_id
    &&& c.schema_version == v
    &&& opt_string(c.quality_regime) == m.quality_regime
    &&& opt_string(c.accountable_party) == m.accountable_party
    &&& c.registration_time == m.registration_time
    &&& c.research_start_date == m.research_start_date
    &&& c.research_end_date == m.research_end_date
    &&& position_as(c.position, m.position)
    &&& vertical_as(c.vertical_position, m.vertical_position)
    &&& map_of_pairs(c.extensions, extension_leaves(leaves))
}

/// Dates that exist and numbers read from text.
pub open spec fn common_ok(c: CommonMetadata) -> bool {
    &&& (c.registration_time matches Some(d) ==> valid_date(d.year as int, d.month as int, d.day as int))
    &&& (c.research_start_date matches Some(d) ==> valid_date(d.year as int, d.month as int, d.day as int))
    &&& (c.research_end_date matches Some(d) ==> valid_date(d.year as int, d.month as int, d.day as int))
    &&& (c.position matches Some(p) ==> simple(p.x) && simple(p.y))
    &&& (c.vertical_position matches Some(v) ==> simple(v.offset))
}

pub fn required(value: Option<Vec<char>>, path: &[char]) -> (r: Result<Vec<char>, BroError>)
    ensures
        match r {
            Ok(v) => required_spec(opt_chars(value), path@) == Ok::<Seq<char>, BroFailure>(v@),
            Err(e) => required_spec(opt_chars(value), path@) == Err::<Seq<char>, BroFailure>(e@),
        },
{
    match value {
        Some(v) => {
            let t = trim_chars(&v);
            if t.len() > 0 {
                Ok(v)
            } else {
                Err(BroError::MissingField { path: string_of(path) })
            }
        },
        None => Err(BroError::MissingField { path: string_of(path) }),
    }
}

/// Reads a number field.
pub fn parse_number_field(path: &[char], value: &[char]) -> (r: Result<Option<Number>, BroError>)
    ensures
        match r {
            Ok(n) => number_field(path@, value@) == Ok::<Option<Number>, BroFailure>(n) && (n matches Some(
                v,
            ) ==> simple(v)),
            Err(e) => number_field(path@, value@) == Err::<Option<Number>, BroFailure>(e@),
        },
{
    proof {
        lemma_parse_simple(value@);
    }
    match parse_number(value) {
        Parsed::Finite(n) => Ok(Some(n)),
        Parsed::Invalid => Err(BroError::InvalidValue { path: string_of(path), value: string_of(value) }),
        _ => Ok(None),
    }
}

fn byte_prefix_exec(s: &[char], n: usize) -> (r: Option<Vec<char>>)
    requires
        n <= 10,
    ensures
        opt_chars(r) == byte_prefix(s@, n as int),
{
    let mut out: Vec<char> = Vec::new();
    let mut i: usize = 0;
    let mut left: usize = n;
    proof {
        assert(s@.subrange(0, s@.len() as int) =~= s@);
        if let Some(t) = byte_prefix(s@, n as int) {
            assert(out@ + t =~= t);
        }
    }
    while left > 0
        invariant
            i <= s@.len(),
            left <= n <= 10,
            byte_prefix(s@, n as int) == (match byte_prefix(s@.subrange(i as int, s@.len() as int), left as int) {
                Some(t) => Some(out@ + t),
                None => None::<Seq<char>>,
            }),
        decreases left,
    {
        let ghost rest = s@.subrange(i as int, s@.len() as int);
        if i >= s.len() {
            proof {
                assert(rest.len() == 0);
            }
            return None;
        }
        let c = s[i];
        let l: usize = if (c as u32) < 0x80 {
            1
        } else if (c as u32) < 0x800 {
            2
        } else if (c as u32) < 0x10000 {
            3
        } else {
            4
        };
        proof {
            assert(rest[0] == c);
            assert(rest.drop_first() =~= s@.subrange(i + 1, s@.len() as int));
            assert(utf8_len(c) == l as int);
        }
        if l > left {
            proof {
                lemma_byte_prefix_neg(rest.drop_first(), left - l);
            }
            return None;
        }
        proof {
            let ghost t = byte_prefix(rest.drop_first(), left - l);
            if let Some(tt) = t {
                assert(out@ + (seq![c] + tt) =~= out@.push(c) + tt);
            }
        }
        out.push(c);
        i = i + 1;
        left = left - l;
    }
    proof {
        assert(out@ + Seq::<char>::empty() =~= out@);
    }
    Some(out)
}

proof fn lemma_byte_prefix_neg(s: Seq<char>, n: int)
    requires
        n < 0,
    ensures
        byte_prefix(s, n) is None,
{
}

/// Reads a `YYYY-MM-DD` date from the first ten bytes of the value.
pub fn parse_date_field(path: &[char], value: &[char]) -> (r: Result<Date, BroError>)
    ensures
        match r {
            Ok(d) => date_field(path@, value@) == Ok::<Date, BroFailure>(d) && valid_date(
                d.year as int,
                d.month as int,
                d.day as int,
            ),
            Err(e) => date_field(path@, value@) == Err::<Date, BroFailure>(e@),
        },
{
    let d = match byte_prefix_exec(value, 10) {
        Some(t) => t,
        None => {
            let mut v: Vec<char> = Vec::new();
            crate::text::push_all(&mut v, value);
            proof {
                assert(v@ =~= value@);
            }
            v
        },
    };
    let ds = string_of(&d);
    let fmt = "%Y-%m-%d".to_owned();
    match parse_date_with(ds.as_str(), fmt.as_str()) {
        Some(dt) => Ok(dt),
        None => Err(BroError::InvalidValue { path: string_of(path), value: string_of(value) }),
    }
}

fn optional_date(xml: &CollectedXml, local: &str) -> (r: Result<Option<Date>, BroError>)
    ensures
        match r {
            Ok(d) => optional_date_spec(xml.leaves_view(), opt_chars(xml.root), local@) == Ok::<
                Option<Date>,
                BroFailure,
            >(d) && (d matches Some(x) ==> valid_date(x.year as int, x.month as int, x.day as int)),
            Err(e) => optional_date_spec(xml.leaves_view(), opt_chars(xml.root), local@) == Err::<
                Option<Date>,
                BroFailure,
            >(e@),
        },
{
    let l = chars_of(local);
    match xml.value(&l) {
        None => Ok(None),
        Some(v) => {
            let p = xml.field_path(&l);
            match parse_date_field(&p, &v) {
                Ok(d) => Ok(Some(d)),
                Err(e) => Err(e),
            }
        },
    }
}

fn nth_token(toks: &Vec<Vec<char>>, i: usize) -> (r: Option<Vec<char>>)
    ensures
        opt_chars(r) == (if i < toks@.len() {
            Some(toks@[i as int]@)
        } else {
            None::<Seq<char>>
        }),
{
    if i < toks.len() {
        Some(toks[i].clone())
    } else {
        None
    }
}

fn parse_position(xml: &CollectedXml) -> (r: Result<Option<Position>, BroError>)
    ensures
        match r {
            Ok(p) => position_spec(xml.leaves_view(), crate::bro::collect::attr_views(xml.attributes@))
                matches Ok(m) && position_as(p, m) && (p matches Some(q) ==> simple(q.x) && simple(q.y)),
            Err(e) => position_spec(xml.leaves_view(), crate::bro::collect::attr_views(xml.attributes@))
                == Err::<Option<PositionModel>, BroFailure>(e@),
        },
{
    let pos = chars_of("pos");
    let j = xml.leaf_index_of(&pos);
    if j >= xml.leaves.len() {
        return Ok(None);
    }
    let path = &xml.leaves[j].0;
    let ords = split_ws_chars(&xml.leaves[j].1);
    let xs = match required(nth_token(&ords, 0), path) {
        Ok(v) => v,
        Err(e) => {
            return Err(e);
        },
    };
    let x = match parse_number_field(path, &xs) {
        Ok(v) => v,
        Err(e) => {
            return Err(e);
        },
    };
    let ys = match required(nth_token(&ords, 1), path) {
        Ok(v) => v,
        Err(e) => {
            return Err(e);
        },
    };
    let y = match parse_number_field(path, &ys) {
        Ok(v) => v,
        Err(e) => {
            return Err(e);
        },
    };
    let srs = chars_of("srsName");
    let mut crs_path = path.clone();
    push_str(&mut crs_path, "/@srsName");
    let crs = match required(xml.ancestor_attribute(path, &srs), &crs_path) {
        Ok(v) => v,
        Err(e) => {
            return Err(e);
        },
    };
    match (x, y) {
        (Some(x), Some(y)) => Ok(Some(Position { x, y, crs: string_of(&crs) })),
        _ => Ok(None),
    }
}

fn opt_to_string(o: Option<Vec<char>>) -> (r: Option<String>)
    ensures
        opt_string(r) == opt_chars(o),
{
    match o {
        Some(v) => Some(string_of(&v)),
        None => None,
    }
}

fn parse_vertical_position(xml: &CollectedXml) -> (r: Result<Option<VerticalPosition>, BroError>)
    ensures
        match r {
            Ok(p) => vertical_spec(xml.leaves_view(), opt_chars(xml.root)) matches Ok(m) && vertical_as(
                p,
                m,
            ) && (p matches Some(q) ==> simple(q.offset)),
            Err(e) => vertical_spec(xml.leaves_view(), opt_chars(xml.root)) == Err::<
                Option<VerticalModel>,
                BroFailure,
            >(e@),
        },
{
    let off = chars_of("offset");
    match xml.value(&off) {
        None => Ok(None),
        Some(v) => {
            let p = xml.field_path(&off);
            let o = match parse_number_field(&p, &v) {
                Ok(Some(o)) => o,
                Ok(None) => {
                    return Ok(None);
                },
                Err(e) => {
                    return Err(e);
                },
            };
            let datum = match xml.value(&chars_of("verticalDatum")) {
                Some(d) => Some(d),
                None => xml.value(&chars_of("datum")),
            };
            Ok(Some(VerticalPosition { offset: o, datum: opt_to_string(datum) }))
        },
    }
}

fn is_recognized(l: &[char]) -> (r: bool)
    ensures
        r == recognized(l@),
{
    eq_chars(l, &chars_of("broId")) || eq_chars(l, &chars_of("qualityRegime")) || eq_chars(
        l,
        &chars_of("deliveryAccountableParty"),
    ) || eq_chars(l, &chars_of("accountableParty")) || eq_chars(l, &chars_of("objectRegistrationTime"))
        || eq_chars(l, &chars_of("researchStartDate")) || eq_chars(l, &chars_of("researchEndDate"))
        || eq_chars(l, &chars_of("pos")) || eq_chars(l, &chars_of("offset")) || eq_chars(
        l,
        &chars_of("verticalDatum"),
    ) || eq_chars(l, &chars_of("datum"))
}

fn is_excluded_segment(s: &[char]) -> (r: bool)
    ensures
        r == excluded_segment(s@),
{
    eq_chars(s, &chars_of("Point")) || eq_chars(s, &chars_of("pos")) || eq_chars(s, &chars_of("coordinates"))
        || eq_chars(s, &chars_of("values")) || eq_chars(s, &chars_of("elementValue")) || eq_chars(
        s,
        &chars_of("DataArray"),
    ) || eq_chars(s, &chars_of("result"))
}

pub fn excluded_extension_path(p: &[char]) -> (r: bool)
    ensures
        r == excluded_path(p@),
{
    let segs = split_chars(p, '/');
    for i in 0..segs.len()
        invariant
            views(segs@) == split_on(p@, '/'),
            forall|j: int| 0 <= j < i ==> !#[trigger] excluded_segment(split_on(p@, '/')[j]),
    {
        if is_excluded_segment(&segs[i]) {
            proof {
                assert(excluded_segment(split_on(p@, '/')[i as int]));
            }
            return true;
        }
    }
    false
}

fn extensions_of(leaves: &Vec<(Vec<char>, Vec<char>)>) -> (r: KeyedVec<String>)
    ensures
        map_of_pairs(r, extension_leaves(pair_views(leaves@))),
{
    let mut m: KeyedVec<String> = KeyedVec::new();
    proof {
        assert(pair_views(leaves@).take(0) =~= Seq::<(Seq<char>, Seq<char>)>::empty());
        assert forall|k: Seq<char>| #[trigger] opt_string(m.get_spec(k)) == last_pair(
            extension_leaves(pair_views(leaves@).take(0)),
            k,
        ) by {
            crate::keyed::lemma_lookup_absent(m.entries(), k);
        }
    }
    for i in 0..leaves.len()
        invariant
            map_of_pairs(m, extension_leaves(pair_views(leaves@).take(i as int))),
    {
        let ghost pre = pair_views(leaves@).take(i as int);
        let ghost next = pair_views(leaves@).take(i + 1);
        proof {
            assert(next.drop_last() =~= pre);
            assert(next.last() == (leaves@[i as int].0@, leaves@[i as int].1@));
        }
        let path = &leaves[i].0;
        let value = &leaves[i].1;
        let seg = crate::bro::last_segment_chars(path);
        if !is_recognized(&seg) && value.len() < 200 && !excluded_extension_path(path) {
            proof {
                assert(extension_leaves(next) == extension_leaves(pre).push((path@, value@)));
                assert(extension_leaves(next).drop_last() =~= extension_leaves(pre));
            }
            let ghost m0 = m;
            let ks = string_of(path);
            let vs = string_of(value);
            let ghost vsv = vs;
            m.insert(ks, vs);
            proof {
                assert forall|k: Seq<char>| #[trigger] opt_string(m.get_spec(k)) == last_pair(
                    extension_leaves(next),
                    k,
                ) by {
                    if k != path@ {
                        assert(opt_string(m0.get_spec(k)) == last_pair(extension_leaves(pre), k));
                    } else {
                        assert(m.get_spec(k) == Some(vsv));
                        assert(vsv@ == value@);
                    }
                }
            }
        } else {
            proof {
                assert(extension_leaves(next) == extension_leaves(pre));
            }
        }
    }
    proof {
        assert(pair_views(leaves@).take(leaves@.len() as int) =~= pair_views(leaves@));
    }
    m
}

/// The metadata shared by all BRO documents, read from the collected
/// leaves; `MissingField` and `InvalidValue` name the collected path.
pub fn common_metadata(xml: &CollectedXml, schema_version: SchemaVersion) -> (r: Result<
    CommonMetadata,
    BroError,
>)
    ensures
        match r {
            Ok(c) => common_spec(
                xml.leaves_view(),
                crate::bro::collect::attr_views(xml.attributes@),
                opt_chars(xml.root),
            ) matches Ok(m) && common_as(c, m, schema_version, xml.leaves_view()) && common_ok(c),
            Err(e) => common_spec(
                xml.leaves_view(),
                crate::bro::collect::attr_views(xml.attributes@),
                opt_chars(xml.root),
            ) == Err::<CommonModel, BroFailure>(e@),
        },
{
    let bid = chars_of("broId");
    let bro_id = match required(xml.value(&bid), &xml.field_path(&bid)) {
        Ok(v) => v,
        Err(e) => {
            return Err(e);
        },
    };
    let position = match parse_position(xml) {
        Ok(p) => p,
        Err(e) => {
            return Err(e);
        },
    };
    let vertical_position = match parse_vertical_position(xml) {
        Ok(p) => p,
        Err(e) => {
            return Err(e);
        },
    };
    let registration_time = match optional_date(xml, "objectRegistrationTime") {
        Ok(d) => d,
        Err(e) => {
            return Err(e);
        },
    };
    let research_start_date = match optional_date(xml, "researchStartDate") {
        Ok(d) => d,
        Err(e) => {
            return Err(e);
        },
    };
    let research_end_date = match optional_date(xml, "researchEndDate") {
        Ok(d) => d,
        Err(e) => {
            return Err(e);
        },
    };
    let quality_regime = opt_to_string(xml.value(&chars_of("qualityRegime")));
    let accountable_party = opt_to_string(
        match xml.value(&chars_of("deliveryAccountableParty")) {
            Some(v) => Some(v),
            None => xml.value(&chars_of("accountableParty")),
        },
    );
    let extensions = extensions_of(&xml.leaves);
    Ok(
        CommonMetadata {
            bro_id: string_of(&bro_id),
            schema_version,
            quality_regime,
            accountable_party,
            registration_time,
            research_start_date,
            research_end_date,
            position,
            vertical_position,
            extensions,
        },
    )
}

} // verus!
