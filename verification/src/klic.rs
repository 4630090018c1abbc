//! KLIC delivery information (IMKL 2.0 GML) read into features of the
//! shared GeoJSON profile: network elements with their geometry, theme,
//! network operator and source attributes, and the excavation polygon.

use vstd::prelude::*;

use crate::bro::{last_segment, last_segment_chars};
use crate::number::{Number, Parsed, is_digit, parse_number, parse_spec, simple, lemma_parse_simple, lemma_pow_facts};
use crate::text::{chars_of, eq_chars, slice_vec, starts_with, string_of, split_ws, split_ws_chars, trim, trim_chars, views};
use crate::number::{int_parse, nat_text, nat_chars, parse_usize};
use crate::keyed::KeyedVec;
use crate::bro::collect::{local_name, local_name_spec};
use crate::xml::{AttrItem, Element, Token, Tokens, XmlEvent, events_read, lossy_text, text_len, tokens_of, utf8_lossy};

verus! {

/// `s` without leading `#`.
pub open spec fn trim_hashes(s: Seq<char>) -> Seq<char>
    decreases s.len(),
{
    if s.len() > 0 && s[0] == '#' {
        trim_hashes(s.drop_first())
    } else {
        s
    }
}

pub fn trim_hashes_chars(s: &[char]) -> (r: Vec<char>)
    ensures
        r@ == trim_hashes(s@),
{
    let mut k: usize = 0;
    proof {
        assert(s@.subrange(0, s@.len() as int) =~= s@);
    }
    while k < s.len() && s[k] == '#'
        invariant
            k <= s@.len(),
            trim_hashes(s@) == trim_hashes(s@.subrange(k as int, s@.len() as int)),
        decreases s@.len() - k,
    {
        proof {
            assert(s@.subrange(k as int, s@.len() as int).drop_first() =~= s@.subrange(k + 1, s@.len() as int));
        }
        k = k + 1;
    }
    slice_vec(s, k, s.len())
}

/// The last segment of a reference, after its leading `#`.
pub open spec fn href_segment(h: Seq<char>) -> Seq<char> {
    last_segment(trim_hashes(h))
}

pub fn href_segment_chars(h: &[char]) -> (r: Vec<char>)
    ensures
        r@ == href_segment(h@),
{
    let t = trim_hashes_chars(h);
    last_segment_chars(&t)
}

/// What follows the last `:` or `/` of a unit reference.
pub open spec fn unit_segment(s: Seq<char>) -> Seq<char>
    decreases s.len(),
{
    if s.len() == 0 {
        s
    } else if s.last() == ':' || s.last() == '/' {
        seq![]
    } else {
        unit_segment(s.drop_last()).push(s.last())
    }
}

pub fn unit_segment_chars(s: &[char]) -> (r: Vec<char>)
    ensures
        r@ == unit_segment(s@),
{
    let mut k = s.len();
    proof {
        assert(s@.take(k as int) =~= s@);
        assert(unit_segment(s@) + s@.subrange(k as int, s@.len() as int) =~= unit_segment(s@));
    }
    while k > 0 && s[k - 1] != ':' && s[k - 1] != '/'
        invariant
            k <= s@.len(),
            unit_segment(s@) == unit_segment(s@.take(k as int)) + s@.subrange(k as int, s@.len() as int),
        decreases k,
    {
        proof {
            let t = s@.take(k as int);
            assert(t.drop_last() =~= s@.take(k - 1));
            assert(t.last() == s@[k - 1]);
            assert(unit_segment(s@.take(k - 1)).push(s@[k - 1]) + s@.subrange(k as int, s@.len() as int)
                =~= unit_segment(s@.take(k - 1)) + s@.subrange(k - 1, s@.len() as int));
        }
        k = k - 1;
    }
    proof {
        let t = s@.take(k as int);
        if k > 0 {
            assert(t.last() == s@[k - 1]);
        }
        assert(unit_segment(t) == Seq::<char>::empty());
        assert(Seq::<char>::empty() + s@.subrange(k as int, s@.len() as int) =~= s@.subrange(k as int, s@.len() as int));
    }
    slice_vec(s, k, s.len())
}

/// The ASCII digits of `s` from `k` on, up to the first other character.
pub open spec fn digits_from(s: Seq<char>, k: int) -> Seq<char>
    decreases s.len() - k,
{
    if k < 0 || k >= s.len() || !is_digit(s[k]) {
        seq![]
    } else {
        seq![s[k]] + digits_from(s, k + 1)
    }
}

/// The operator code in an identifier: the first `KL` followed by at least
/// four digits, with those digits, looked for at each position but the
/// last two.
pub open spec fn kl_from(s: Seq<char>, i: int) -> Option<Seq<char>>
    decreases s.len() - i,
{
    if i < 0 || i >= s.len() - 2 {
        None
    } else if s[i] == 'K' && s[i + 1] == 'L' && digits_from(s, i + 2).len() >= 4 {
        Some("KL"@ + digits_from(s, i + 2))
    } else {
        kl_from(s, i + 1)
    }
}

pub open spec fn kl_code(id: Seq<char>) -> Option<Seq<char>> {
    kl_from(id, 0)
}

fn digits_chars(s: &[char], k: usize) -> (r: Vec<char>)
    requires
        k <= s@.len(),
    ensures
        r@ == digits_from(s@, k as int),
{
    let mut j = k;
    while j < s.len() && '0' <= s[j] && s[j] <= '9'
        invariant
            k <= j <= s@.len(),
            digits_from(s@, k as int) == s@.subrange(k as int, j as int) + digits_from(s@, j as int),
        decreases s@.len() - j,
    {
        proof {
            assert(s@.subrange(k as int, j as int) + (seq![s@[j as int]] + digits_from(s@, j + 1))
                =~= s@.subrange(k as int, j + 1) + digits_from(s@, j + 1));
        }
        j = j + 1;
    }
    proof {
        assert(s@.subrange(k as int, j as int) + Seq::<char>::empty() =~= s@.subrange(k as int, j as int));
    }
    slice_vec(s, k, j)
}

pub fn kl_code_chars(id: &[char]) -> (r: Option<Vec<char>>)
    ensures
        match r {
            Some(v) => kl_code(id@) == Some(v@),
            None => kl_code(id@) is None,
        },
{
    let n = id.len();
    if n < 2 {
        return None;
    }
    let mut i: usize = 0;
    while i < n - 2
        invariant
            n == id@.len(),
            n >= 2,
            i <= n - 2,
            kl_code(id@) == kl_from(id@, i as int),
        decreases n - 2 - i,
    {
        if id[i] == 'K' && id[i + 1] == 'L' {
            let d = digits_chars(id, i + 2);
            if d.len() >= 4 {
                let mut r = chars_of("KL");
                let mut j: usize = 0;
                let ghost r0 = r@;
                while j < d.len()
                    invariant
                        j <= d@.len(),
                        r@ == r0 + d@.take(j as int),
                    decreases d@.len() - j,
                {
                    r.push(d[j]);
                    proof {
                        assert(d@.take(j + 1) =~= d@.take(j as int).push(d@[j as int]));
                    }
                    j = j + 1;
                }
                proof {
                    assert(d@.take(d@.len() as int) =~= d@);
                }
                return Some(r);
            }
        }
        i = i + 1;
    }
    None
}

/// A value rounded to two decimals, halves away from zero. Rounding the
/// exact decimal, this can differ on halfway values from rounding the
/// nearest `f64` (`1.005` gives `1.01` here; as an `f64`, which lies just
/// below `1.005`, it rounds to `1.00`).
pub open spec fn round2(n: Number) -> Number {
    let a: int = if n.num < 0 { -n.num } else { n.num as int };
    let q: int = (200 * a + n.den) / (2 * n.den);
    Number { num: (if n.num < 0 { -q } else { q }) as i128, den: 100 }
}

pub fn round2_exec(n: Number) -> (r: Number)
    requires
        simple(n),
    ensures
        r == round2(n),
{
    proof {
        lemma_pow_facts();
    }
    let a: i128 = if n.num < 0 { -n.num } else { n.num };
    let q: i128 = (200 * a + n.den) / (2 * n.den);
    proof {
        assert(q <= 200 * a + n.den) by (nonlinear_arith)
            requires
                q == (200 * a + n.den) / (2 * n.den),
                n.den > 0,
                a >= 0,
        ;
        assert(q >= 0) by (nonlinear_arith)
            requires
                q == (200 * a + n.den) / (2 * n.den),
                n.den > 0,
                a >= 0,
        ;
    }
    Number { num: if n.num < 0 { -q } else { q }, den: 100 }
}

/// A coordinate pair as written to the profile: each ordinate rounded to
/// two decimals, or `None` for a non-finite one (written as null).
#[derive(Clone, Copy, Debug, PartialEq, Eq)]
pub struct Coord {
    pub x: Option<Number>,
    pub y: Option<Number>,
}

/// The numbers among whitespace separated tokens, each rounded: tokens that
/// are not numbers are skipped; a number that is not finite, or too large
/// or too precise to hold exactly, is an absent ordinate.
pub open spec fn ordinate_values(toks: Seq<Seq<char>>) -> Option<Seq<Option<Number>>>
    decreases toks.len(),
{
    if toks.len() == 0 {
        Some(seq![])
    } else {
        match ordinate_values(toks.drop_last()) {
            None => None,
            Some(vs) => match parse_spec(toks.last()) {
                Parsed::Finite(n) => Some(vs.push(Some(round2(n)))),
                Parsed::Invalid => Some(vs),
                _ => Some(vs.push(None)),
            },
        }
    }
}

/// Pairs of the first two values of each group of `d` values from `k` on;
/// a last group of fewer than two values is dropped.
pub open spec fn coords_at(vals: Seq<Option<Number>>, d: nat, k: int) -> Seq<Coord>
    decreases vals.len() - k,
{
    if d < 1 || k < 0 || k + 1 >= vals.len() {
        seq![]
    } else if k + d >= vals.len() {
        seq![Coord { x: vals[k], y: vals[k + 1] }]
    } else {
        seq![Coord { x: vals[k], y: vals[k + 1] }] + coords_at(vals, d, k + d)
    }
}

/// The coordinates of a `pos` or `posList` text with `dim` ordinates per
/// position (at least two are read as one group).
pub open spec fn parse_coords(text: Seq<char>, dim: nat) -> Option<Seq<Coord>> {
    match ordinate_values(split_ws(text)) {
        None => None,
        Some(vs) => Some(coords_at(vs, if dim < 2 { 2 } else { dim }, 0)),
    }
}

fn ordinate_values_exec(toks: &Vec<Vec<char>>) -> (r: Option<Vec<Option<Number>>>)
    ensures
        match r {
            Some(v) => ordinate_values(views(toks@)) == Some(v@),
            None => ordinate_values(views(toks@)) is None,
        },
{
    let mut out: Vec<Option<Number>> = Vec::new();
    let mut i: usize = 0;
    proof {
        assert(views(toks@).take(0) =~= Seq::<Seq<char>>::empty());
    }
    while i < toks.len()
        invariant
            i <= toks@.len(),
            ordinate_values(views(toks@).take(i as int)) == Some(out@),
        decreases toks@.len() - i,
    {
        proof {
            assert(views(toks@).take(i + 1).drop_last() =~= views(toks@).take(i as int));
            assert(views(toks@).take(i + 1).last() == toks@[i as int]@);
            lemma_parse_simple(toks@[i as int]@);
        }
        match parse_number(toks[i].as_slice()) {
            Parsed::Finite(n) => {
                out.push(Some(round2_exec(n)));
            },
            Parsed::Invalid => {},
            _ => {
                out.push(None);
            },
        }
        i = i + 1;
    }
    proof {
        assert(views(toks@).take(toks@.len() as int) =~= views(toks@));
    }
    Some(out)
}

pub fn parse_coords_exec(text: &[char], dim: usize) -> (r: Option<Vec<Coord>>)
    ensures
        match r {
            Some(v) => parse_coords(text@, dim as nat) == Some(v@),
            None => parse_coords(text@, dim as nat) is None,
        },
{
    let toks = split_ws_chars(text);
    let vals = match ordinate_values_exec(&toks) {
        Some(v) => v,
        None => {
            return None;
        },
    };
    let d: usize = if dim < 2 { 2 } else { dim };
    let mut out: Vec<Coord> = Vec::new();
    let mut k: usize = 0;
    proof {
        assert(out@ + coords_at(vals@, d as nat, 0) =~= coords_at(vals@, d as nat, 0));
    }
    proof {
        assert(parse_coords(text@, dim as nat) == Some(coords_at(vals@, d as nat, 0)));
    }
    while k < vals.len() && vals.len() - k >= 2
        invariant
            d >= 2,
            parse_coords(text@, dim as nat) == Some(coords_at(vals@, d as nat, 0)),
            out@ + coords_at(vals@, d as nat, k as int) == coords_at(vals@, d as nat, 0),
        decreases vals@.len() - k,
    {
        let c = Coord { x: vals[k], y: vals[k + 1] };
        if vals.len() - k <= d {
            proof {
                assert(coords_at(vals@, d as nat, k as int) == seq![c]);
            }
            out.push(c);
            return Some(out);
        }
        proof {
            assert(coords_at(vals@, d as nat, k as int) == seq![c] + coords_at(vals@, d as nat, k + d));
            assert(out@.push(c) + coords_at(vals@, d as nat, k + d) =~= out@ + (seq![c] + coords_at(vals@, d as nat, k + d)));
        }
        out.push(c);
        k = k + d;
    }
    proof {
        assert(coords_at(vals@, d as nat, k as int) == Seq::<Coord>::empty());
        assert(out@ + Seq::<Coord>::empty() =~= out@);
    }
    Some(out)
}

/// Which text the reader keeps next.
#[derive(Clone, Copy, Debug, PartialEq, Eq, Structural)]
pub enum Capture {
    Diameter,
    Vertical,
    Bronhoudercode,
    Organisatie,
    Pos,
    PosList,
}

/// An element being read, as plain values.
pub struct ElementModel {
    pub kind: Seq<char>,
    pub gml_id: Seq<char>,
    pub thema: Option<Seq<char>>,
    pub in_network: Seq<Seq<char>>,
    pub links: Seq<Seq<char>>,
    pub lines: Seq<Seq<Coord>>,
    pub point: Option<Coord>,
    pub ring: Option<Seq<Coord>>,
    pub diameter: Option<Seq<char>>,
    pub materiaal: Option<Seq<char>>,
    pub app_type: Option<Seq<char>>,
    pub vertical: Option<Seq<char>>,
    pub bronhoudercode: Option<Seq<char>>,
    pub organisatie: Option<Seq<char>>,
}

/// The reader's state as plain values.
pub struct GiModel {
    pub cur: Option<ElementModel>,
    pub geo_depth: nat,
    pub label_depth: nat,
    pub in_organisatie: bool,
    pub capture: Option<Capture>,
    pub cur_dim: nat,
    pub uom: Seq<char>,
    /// Utility link geometry by identifier.
    pub links: Map<Seq<char>, Seq<Coord>>,
    /// Operator name by operator code.
    pub beheerders: Map<Seq<char>, Seq<char>>,
    /// Theme by utility network identifier.
    pub netten: Map<Seq<char>, Seq<char>>,
    pub pending: Seq<ElementModel>,
    pub polygons: Seq<Seq<Coord>>,
    /// Names of the open elements, innermost last.
    pub stack: Seq<Seq<u8>>,
}

pub open spec fn gi_init() -> GiModel {
    GiModel {
        cur: None,
        geo_depth: 0,
        label_depth: 0,
        in_organisatie: false,
        capture: None,
        cur_dim: 2,
        uom: "mm"@,
        links: Map::empty(),
        beheerders: Map::empty(),
        netten: Map::empty(),
        pending: seq![],
        polygons: seq![],
        stack: seq![],
    }
}

/// Line elements of the information model.
pub open spec fn line_element(n: Seq<char>) -> bool {
    ||| n == "Elektriciteitskabel"@
    ||| n == "Waterleiding"@
    ||| n == "Telecommunicatiekabel"@
    ||| n == "OlieGasChemicalienPijpleiding"@
    ||| n == "ThermischePijpleiding"@
    ||| n == "Rioolleiding"@
    ||| n == "Kabelbed"@
    ||| n == "Mantelbuis"@
}

/// Elements whose reading starts a record.
pub open spec fn start_kind(n: Seq<char>) -> bool {
    ||| line_element(n)
    ||| n == "Appurtenance"@
    ||| n == "Graafpolygoon"@
    ||| n == "UtilityLink"@
    ||| n == "Beheerder"@
    ||| n == "Utiliteitsnet"@
}

/// Elements that hold geometry.
pub open spec fn geo_container(n: Seq<char>) -> bool {
    n == "centrelineGeometry"@ || n == "geometry"@ || n == "ligging"@ || n == "geometrie2D"@
}

/// The key of an attribute is `suffix`, or ends in `:` and `suffix`.
pub open spec fn key_matches(key: Seq<char>, suffix: Seq<char>) -> bool {
    let t = ":"@ + suffix;
    key == suffix || (key.len() >= t.len() && key.subrange(key.len() - t.len(), key.len() as int) == t)
}

/// The value, as written, of the first attribute whose key matches.
pub open spec fn attr_value(attrs: Seq<AttrItem>, suffix: Seq<char>) -> Option<Seq<char>>
    decreases attrs.len(),
{
    if attrs.len() == 0 {
        None
    } else {
        match attrs[0] {
            AttrItem::Attr { key, raw, .. } => if key_matches(lossy_text(key@), suffix) {
                Some(lossy_text(raw@))
            } else {
                attr_value(attrs.drop_first(), suffix)
            },
            AttrItem::Bad(_) => attr_value(attrs.drop_first(), suffix),
        }
    }
}

pub open spec fn new_element(kind: Seq<char>, gml_id: Seq<char>) -> ElementModel {
    ElementModel {
        kind,
        gml_id,
        thema: None,
        in_network: seq![],
        links: seq![],
        lines: seq![],
        point: None,
        ring: None,
        diameter: None,
        materiaal: None,
        app_type: None,
        vertical: None,
        bronhoudercode: None,
        organisatie: None,
    }
}

/// The dimension a `srsDimension` attribute gives: its value read as an
/// unsigned integer, else 2.
pub open spec fn dim_of(a: Option<Seq<char>>) -> nat {
    match a {
        Some(d) => match int_parse(d, false, 0, usize::MAX as int) {
            Some(v) => v as nat,
            None => 2,
        },
        None => 2,
    }
}

/// A start tag seen while an element is being read.
pub open spec fn element_start(m: GiModel, el: ElementModel, name: Seq<char>, attrs: Seq<AttrItem>, empty: bool) -> GiModel {
    if name == "thema"@ {
        match attr_value(attrs, "href"@) {
            Some(h) => GiModel { cur: Some(ElementModel { thema: Some(href_segment(h)), ..el }), ..m },
            None => m,
        }
    } else if name == "link"@ {
        match attr_value(attrs, "href"@) {
            Some(h) => GiModel { cur: Some(ElementModel { links: el.links.push(trim_hashes(h)), ..el }), ..m },
            None => m,
        }
    } else if name == "inNetwork"@ {
        match attr_value(attrs, "href"@) {
            Some(h) => GiModel { cur: Some(ElementModel { in_network: el.in_network.push(trim_hashes(h)), ..el }), ..m },
            None => m,
        }
    } else if name == "appurtenanceType"@ {
        match attr_value(attrs, "href"@) {
            Some(h) => GiModel { cur: Some(ElementModel { app_type: Some(href_segment(h)), ..el }), ..m },
            None => m,
        }
    } else if name == "buismateriaalType"@ || name == "pipeMaterialType"@ {
        match attr_value(attrs, "href"@) {
            Some(h) => GiModel { cur: Some(ElementModel { materiaal: Some(href_segment(h)), ..el }), ..m },
            None => m,
        }
    } else if name == "pipeDiameter"@ {
        GiModel {
            uom: match attr_value(attrs, "uom"@) {
                Some(u) => unit_segment(u),
                None => "mm"@,
            },
            capture: if empty { m.capture } else { Some(Capture::Diameter) },
            ..m
        }
    } else if name == "verticalPosition"@ && !empty {
        GiModel { capture: Some(Capture::Vertical), ..m }
    } else if name == "bronhoudercode"@ && !empty {
        GiModel { capture: Some(Capture::Bronhoudercode), ..m }
    } else if name == "Organisatie"@ {
        GiModel { in_organisatie: true, ..m }
    } else if name == "naam"@ && m.in_organisatie && !empty {
        GiModel { capture: Some(Capture::Organisatie), ..m }
    } else if name == "labelpositie"@ && !empty {
        GiModel { label_depth: m.label_depth + 1, ..m }
    } else if geo_container(name) && !empty {
        GiModel { geo_depth: m.geo_depth + 1, ..m }
    } else if name == "posList"@ || name == "pos"@ {
        GiModel {
            cur_dim: dim_of(attr_value(attrs, "srsDimension"@)),
            capture: if m.geo_depth > 0 && m.label_depth == 0 && !empty {
                Some(if name == "pos"@ { Capture::Pos } else { Capture::PosList })
            } else {
                m.capture
            },
            ..m
        }
    } else {
        m
    }
}

/// A start (`empty` false) or empty-element tag.
pub open spec fn start_step(m: GiModel, e: Element, empty: bool) -> GiModel {
    let name = local_name_spec(e.name@);
    let m1 = if empty { m } else { GiModel { stack: m.stack.push(e.name@), ..m } };
    if m.cur is None && start_kind(name) {
        let id = match attr_value(e.attrs@, "id"@) {
            Some(v) => v,
            None => seq![],
        };
        GiModel {
            cur: if empty { None } else { Some(new_element(name, id)) },
            geo_depth: 0,
            label_depth: 0,
            in_organisatie: false,
            ..m1
        }
    } else {
        match m.cur {
            Some(el) => element_start(m1, el, name, e.attrs@, empty),
            None => m1,
        }
    }
}

/// Captured text put into the element; `None` when a coordinate cannot be
/// held.
pub open spec fn capture_into(el: ElementModel, cap: Capture, txt: Seq<char>, dim: nat, uom: Seq<char>) -> Option<ElementModel> {
    match cap {
        Capture::PosList => match parse_coords(txt, dim) {
            None => None,
            Some(cs) => Some(
                if cs.len() >= 2 {
                    if el.kind == "Graafpolygoon"@ {
                        if el.ring is None {
                            ElementModel { ring: Some(cs), ..el }
                        } else {
                            el
                        }
                    } else {
                        ElementModel { lines: el.lines.push(cs), ..el }
                    }
                } else {
                    el
                },
            ),
        },
        Capture::Pos => match parse_coords(txt, dim) {
            None => None,
            Some(cs) => Some(if cs.len() > 0 { ElementModel { point: Some(cs[0]), ..el } } else { el }),
        },
        Capture::Diameter => Some(ElementModel { diameter: Some(txt + " "@ + uom), ..el }),
        Capture::Vertical => Some(ElementModel { vertical: Some(txt), ..el }),
        Capture::Bronhoudercode => Some(ElementModel { bronhoudercode: Some(txt), ..el }),
        Capture::Organisatie => Some(
            if el.organisatie is None {
                ElementModel { organisatie: Some(txt), ..el }
            } else {
                el
            },
        ),
    }
}

/// Text: while an element is read and a capture is pending, its trimmed
/// text (when not empty) is put into the element and the capture ends.
pub open spec fn text_step(m: GiModel, t: Result<Vec<char>, Vec<char>>) -> Option<GiModel> {
    match (m.cur, m.capture) {
        (Some(el), Some(cap)) => {
            let txt = trim(
                match t {
                    Ok(v) => v@,
                    Err(_) => seq![],
                },
            );
            if txt.len() == 0 {
                Some(GiModel { capture: None, ..m })
            } else {
                match capture_into(el, cap, txt, m.cur_dim, m.uom) {
                    None => None,
                    Some(el2) => Some(GiModel { cur: Some(el2), capture: None, ..m }),
                }
            }
        },
        _ => Some(m),
    }
}

/// A finished element: links, operators and networks are recorded, the
/// excavation polygon kept, other elements wait for assembly.
pub open spec fn finish(m: GiModel, el: ElementModel) -> GiModel {
    if el.kind == "UtilityLink"@ {
        if el.lines.len() > 0 {
            GiModel { links: m.links.insert(el.gml_id, el.lines[0]), ..m }
        } else {
            m
        }
    } else if el.kind == "Beheerder"@ {
        match (el.bronhoudercode, el.organisatie) {
            (Some(c), Some(n)) => GiModel { beheerders: m.beheerders.insert(c, n), ..m },
            _ => m,
        }
    } else if el.kind == "Utiliteitsnet"@ {
        match el.thema {
            Some(t) => GiModel { netten: m.netten.insert(el.gml_id, t), ..m },
            None => m,
        }
    } else if el.kind == "Graafpolygoon"@ {
        match el.ring {
            Some(r) => GiModel { polygons: m.polygons.push(r), ..m },
            None => m,
        }
    } else {
        GiModel { pending: m.pending.push(el), ..m }
    }
}

/// An end tag closes the innermost open element.
pub open spec fn end_step(m: GiModel) -> GiModel {
    let name = if m.stack.len() > 0 { local_name_spec(m.stack.last()) } else { seq![] };
    let m1 = GiModel {
        stack: if m.stack.len() > 0 { m.stack.drop_last() } else { m.stack },
        capture: None,
        ..m
    };
    match m.cur {
        None => m1,
        Some(el) => if name == "labelpositie"@ && m.label_depth > 0 {
            GiModel { label_depth: (m.label_depth - 1) as nat, ..m1 }
        } else if geo_container(name) && m.geo_depth > 0 {
            GiModel { geo_depth: (m.geo_depth - 1) as nat, ..m1 }
        } else if name == "Organisatie"@ {
            GiModel { in_organisatie: false, ..m1 }
        } else if name == el.kind {
            finish(GiModel { cur: None, ..m1 }, el)
        } else {
            m1
        },
    }
}

/// The reader run over the events from `i` on, to the end of the
/// document; `None` when a coordinate cannot be held.
pub open spec fn gi_run(events: Seq<Token>, i: int, m: GiModel) -> Option<GiModel>
    decreases events.len() - i,
{
    if i < 0 || i >= events.len() {
        Some(m)
    } else {
        match events[i].event {
            XmlEvent::Eof => Some(m),
            XmlEvent::Start(e) => gi_run(events, i + 1, start_step(m, e, false)),
            XmlEvent::Empty(e) => gi_run(events, i + 1, start_step(m, e, true)),
            XmlEvent::End => gi_run(events, i + 1, end_step(m)),
            XmlEvent::Text(t) => match text_step(m, t) {
                None => None,
                Some(m2) => gi_run(events, i + 1, m2),
            },
            XmlEvent::Other => gi_run(events, i + 1, m),
        }
    }
}

/// The geometry of a feature.
pub enum GeometryModel {
    Point(Coord),
    LineString(Seq<Coord>),
    MultiLineString(Seq<Seq<Coord>>),
    Polygon(Seq<Coord>),
}

/// A feature of the profile as plain values: the normalised core
/// properties and the source attributes.
pub struct FeatureModel {
    pub thema: Seq<char>,
    pub kind: Seq<char>,
    pub netbeheerder: Option<Seq<char>>,
    pub diameter: Option<Seq<char>>,
    pub materiaal: Option<Seq<char>>,
    pub melding: Seq<char>,
    pub gml_id: Option<Seq<char>>,
    pub bronhoudercode: Option<Seq<char>>,
    pub vertical: Option<Seq<char>>,
    pub app_type: Option<Seq<char>>,
    pub geometry: GeometryModel,
}

/// A ring closed by repeating its first position when the last differs.
pub open spec fn closed_ring(r: Seq<Coord>) -> Seq<Coord> {
    if r.len() > 0 && r[0] != r.last() {
        r.push(r[0])
    } else {
        r
    }
}

pub open spec fn polygon_feature(r: Seq<Coord>, meld: Seq<char>) -> FeatureModel {
    FeatureModel {
        thema: "graafpolygoon"@,
        kind: "Graafpolygoon"@,
        netbeheerder: None,
        diameter: None,
        materiaal: None,
        melding: meld,
        gml_id: None,
        bronhoudercode: None,
        vertical: None,
        app_type: None,
        geometry: GeometryModel::Polygon(closed_ring(r)),
    }
}

/// The geometry of the utility links referred to, in order, skipping
/// unknown ones.
pub open spec fn linked(refs: Seq<Seq<char>>, links: Map<Seq<char>, Seq<Coord>>) -> Seq<Seq<Coord>>
    decreases refs.len(),
{
    if refs.len() == 0 {
        seq![]
    } else if links.contains_key(refs.last()) {
        linked(refs.drop_last(), links).push(links[refs.last()])
    } else {
        linked(refs.drop_last(), links)
    }
}

/// The theme of the first network referred to that has one.
pub open spec fn first_net(refs: Seq<Seq<char>>, netten: Map<Seq<char>, Seq<char>>) -> Option<Seq<char>>
    decreases refs.len(),
{
    if refs.len() == 0 {
        None
    } else if netten.contains_key(refs[0]) {
        Some(netten[refs[0]])
    } else {
        first_net(refs.drop_first(), netten)
    }
}

/// The feature of a finished element: its own lines, else the lines of the
/// utility links it refers to; none without geometry. The operator is the
/// name recorded for the operator code in its identifier, else the code;
/// the theme its own, else that of its network, else `overig`.
pub open spec fn element_feature(el: ElementModel, m: GiModel, meld: Seq<char>) -> Option<FeatureModel> {
    let lines = if el.lines.len() == 0 { linked(el.links, m.links) } else { el.lines };
    let geometry = match el.point {
        Some(p) => Some(GeometryModel::Point(p)),
        None => if lines.len() == 1 {
            Some(GeometryModel::LineString(lines[0]))
        } else if lines.len() > 1 {
            Some(GeometryModel::MultiLineString(lines))
        } else {
            None
        },
    };
    let code = kl_code(el.gml_id);
    match geometry {
        None => None,
        Some(g) => Some(
            FeatureModel {
                thema: match el.thema {
                    Some(t) => t,
                    None => match first_net(el.in_network, m.netten) {
                        Some(t) => t,
                        None => "overig"@,
                    },
                },
                kind: el.kind,
                netbeheerder: match code {
                    Some(c) => if m.beheerders.contains_key(c) { Some(m.beheerders[c]) } else { Some(c) },
                    None => None,
                },
                diameter: el.diameter,
                materiaal: el.materiaal,
                melding: meld,
                gml_id: if el.gml_id.len() > 0 { Some(el.gml_id) } else { None },
                bronhoudercode: code,
                vertical: el.vertical,
                app_type: el.app_type,
                geometry: g,
            },
        ),
    }
}

pub open spec fn pending_features(els: Seq<ElementModel>, m: GiModel, meld: Seq<char>) -> Seq<FeatureModel>
    decreases els.len(),
{
    if els.len() == 0 {
        seq![]
    } else {
        match element_feature(els.last(), m, meld) {
            Some(f) => pending_features(els.drop_last(), m, meld).push(f),
            None => pending_features(els.drop_last(), m, meld),
        }
    }
}

/// The features of a read document: excavation polygons first, then the
/// network elements in document order.
pub open spec fn features_spec(m: GiModel, meld: Seq<char>) -> Seq<FeatureModel> {
    m.polygons.map_values(|r: Seq<Coord>| polygon_feature(r, meld)) + pending_features(m.pending, m, meld)
}

pub open spec fn coordinate_message() -> Seq<char> {
    "coordinate too large or too precise to hold"@
}

/// The features of a delivery, or the reader's error at its position.
pub open spec fn gi_spec(toks: Tokens, meld: Seq<char>) -> Result<Seq<FeatureModel>, Seq<char>> {
    match toks.error {
        Some((p, msg)) => Err("XML-fout op positie "@ + nat_text(p as nat) + ": "@ + msg@),
        None => match gi_run(toks.events@, 0, gi_init()) {
            None => Err(coordinate_message()),
            Some(m) => Ok(features_spec(m, meld)),
        },
    }
}

/// An element being read.
pub struct GiElement {
    pub kind: Vec<char>,
    pub gml_id: Vec<char>,
    pub thema: Option<Vec<char>>,
    pub in_network: Vec<Vec<char>>,
    pub links: Vec<Vec<char>>,
    pub lines: Vec<Vec<Coord>>,
    pub point: Option<Coord>,
    pub ring: Option<Vec<Coord>>,
    pub diameter: Option<Vec<char>>,
    pub materiaal: Option<Vec<char>>,
    pub app_type: Option<Vec<char>>,
    pub vertical: Option<Vec<char>>,
    pub bronhoudercode: Option<Vec<char>>,
    pub organisatie: Option<Vec<char>>,
}

pub open spec fn ov(o: Option<Vec<char>>) -> Option<Seq<char>> {
    match o {
        Some(v) => Some(v@),
        None => None,
    }
}

pub open spec fn coord_lines(ls: Seq<Vec<Coord>>) -> Seq<Seq<Coord>> {
    ls.map_values(|l: Vec<Coord>| l@)
}

pub open spec fn element_view(e: GiElement) -> ElementModel {
    ElementModel {
        kind: e.kind@,
        gml_id: e.gml_id@,
        thema: ov(e.thema),
        in_network: views(e.in_network@),
        links: views(e.links@),
        lines: coord_lines(e.lines@),
        point: e.point,
        ring: match e.ring {
            Some(r) => Some(r@),
            None => None,
        },
        diameter: ov(e.diameter),
        materiaal: ov(e.materiaal),
        app_type: ov(e.app_type),
        vertical: ov(e.vertical),
        bronhoudercode: ov(e.bronhoudercode),
        organisatie: ov(e.organisatie),
    }
}

/// The reader's state.
pub struct GiState {
    pub cur: Option<GiElement>,
    pub geo_depth: usize,
    pub label_depth: usize,
    pub in_organisatie: bool,
    pub capture: Option<Capture>,
    pub cur_dim: usize,
    pub uom: Vec<char>,
    pub links: KeyedVec<Vec<Coord>>,
    pub beheerders: KeyedVec<String>,
    pub netten: KeyedVec<String>,
    pub pending: Vec<GiElement>,
    pub polygons: Vec<Vec<Coord>>,
    pub stack: Vec<Vec<u8>>,
}

pub open spec fn coords_map(kv: KeyedVec<Vec<Coord>>) -> Map<Seq<char>, Seq<Coord>> {
    Map::new(|k: Seq<char>| kv.get_spec(k) is Some, |k: Seq<char>| kv.get_spec(k)->0@)
}

pub open spec fn text_map(kv: KeyedVec<String>) -> Map<Seq<char>, Seq<char>> {
    Map::new(|k: Seq<char>| kv.get_spec(k) is Some, |k: Seq<char>| kv.get_spec(k)->0@)
}

pub open spec fn state_view(s: GiState) -> GiModel {
    GiModel {
        cur: match s.cur {
            Some(e) => Some(element_view(e)),
            None => None,
        },
        geo_depth: s.geo_depth as nat,
        label_depth: s.label_depth as nat,
        in_organisatie: s.in_organisatie,
        capture: s.capture,
        cur_dim: s.cur_dim as nat,
        uom: s.uom@,
        links: coords_map(s.links),
        beheerders: text_map(s.beheerders),
        netten: text_map(s.netten),
        pending: s.pending@.map_values(|e: GiElement| element_view(e)),
        polygons: coord_lines(s.polygons@),
        stack: s.stack@.map_values(|b: Vec<u8>| b@),
    }
}

fn ends_with_chars(s: &[char], t: &[char]) -> (r: bool)
    ensures
        r == (s@.len() >= t@.len() && s@.subrange(s@.len() - t@.len(), s@.len() as int) == t@),
{
    if s.len() < t.len() {
        return false;
    }
    let tail = slice_vec(s, s.len() - t.len(), s.len());
    eq_chars(&tail, t)
}

fn key_matches_exec(key: &[char], suffix: &[char]) -> (r: bool)
    ensures
        r == key_matches(key@, suffix@),
{
    let mut t = chars_of(":");
    let mut j: usize = 0;
    let ghost t0 = t@;
    while j < suffix.len()
        invariant
            j <= suffix@.len(),
            t@ == t0 + suffix@.take(j as int),
        decreases suffix@.len() - j,
    {
        t.push(suffix[j]);
        proof {
            assert(suffix@.take(j + 1) =~= suffix@.take(j as int).push(suffix@[j as int]));
        }
        j = j + 1;
    }
    proof {
        reveal_strlit(":");
        assert(suffix@.take(suffix@.len() as int) =~= suffix@);
    }
    eq_chars(key, suffix) || ends_with_chars(key, &t)
}

pub fn attr_value_exec(attrs: &Vec<AttrItem>, suffix: &[char]) -> (r: Option<Vec<char>>)
    ensures
        ov(r) == attr_value(attrs@, suffix@),
{
    let mut i: usize = 0;
    proof {
        assert(attrs@.subrange(0, attrs@.len() as int) =~= attrs@);
    }
    while i < attrs.len()
        invariant
            i <= attrs@.len(),
            attr_value(attrs@, suffix@) == attr_value(attrs@.subrange(i as int, attrs@.len() as int), suffix@),
        decreases attrs@.len() - i,
    {
        proof {
            assert(attrs@.subrange(i as int, attrs@.len() as int).drop_first() =~= attrs@.subrange(i + 1, attrs@.len() as int));
        }
        match &attrs[i] {
            AttrItem::Attr { key, raw, .. } => {
                let k = utf8_lossy(key.as_slice());
                if key_matches_exec(&k, suffix) {
                    return Some(utf8_lossy(raw.as_slice()));
                }
            },
            AttrItem::Bad(_) => {},
        }
        i = i + 1;
    }
    None
}

fn is_start_kind(n: &[char]) -> (r: bool)
    ensures
        r == start_kind(n@),
{
    eq_chars(n, &chars_of("Elektriciteitskabel")) || eq_chars(n, &chars_of("Waterleiding")) || eq_chars(
        n,
        &chars_of("Telecommunicatiekabel"),
    ) || eq_chars(n, &chars_of("OlieGasChemicalienPijpleiding")) || eq_chars(n, &chars_of("ThermischePijpleiding"))
        || eq_chars(n, &chars_of("Rioolleiding")) || eq_chars(n, &chars_of("Kabelbed")) || eq_chars(
        n,
        &chars_of("Mantelbuis"),
    ) || eq_chars(n, &chars_of("Appurtenance")) || eq_chars(n, &chars_of("Graafpolygoon")) || eq_chars(
        n,
        &chars_of("UtilityLink"),
    ) || eq_chars(n, &chars_of("Beheerder")) || eq_chars(n, &chars_of("Utiliteitsnet"))
}

fn is_geo_container(n: &[char]) -> (r: bool)
    ensures
        r == geo_container(n@),
{
    eq_chars(n, &chars_of("centrelineGeometry")) || eq_chars(n, &chars_of("geometry")) || eq_chars(
        n,
        &chars_of("ligging"),
    ) || eq_chars(n, &chars_of("geometrie2D"))
}

fn is_name(n: &[char], lit: &str) -> (r: bool)
    ensures
        r == (n@ == lit@),
{
    eq_chars(n, &chars_of(lit))
}

fn new_element_exec(kind: Vec<char>, gml_id: Vec<char>) -> (r: GiElement)
    ensures
        element_view(r) == new_element(kind@, gml_id@),
{
    let r = GiElement {
        kind,
        gml_id,
        thema: None,
        in_network: Vec::new(),
        links: Vec::new(),
        lines: Vec::new(),
        point: None,
        ring: None,
        diameter: None,
        materiaal: None,
        app_type: None,
        vertical: None,
        bronhoudercode: None,
        organisatie: None,
    };
    proof {
        assert(views(r.in_network@) =~= Seq::<Seq<char>>::empty());
        assert(views(r.links@) =~= Seq::<Seq<char>>::empty());
        assert(coord_lines(r.lines@) =~= Seq::<Seq<Coord>>::empty());
    }
    r
}

fn take_element(st: &mut GiState) -> (r: GiElement)
    requires
        old(st).cur is Some,
    ensures
        r == old(st).cur->0,
        *final(st) == (GiState { cur: None, ..*old(st) }),
{
    let mut c: Option<GiElement> = None;
    std::mem::swap(&mut c, &mut st.cur);
    c.unwrap()
}

fn element_start_exec(st: &mut GiState, name: &[char], attrs: &Vec<AttrItem>, empty: bool)
    requires
        old(st).cur is Some,
        old(st).geo_depth < usize::MAX,
        old(st).label_depth < usize::MAX,
    ensures
        state_view(*final(st)) == element_start(
            state_view(*old(st)),
            element_view(old(st).cur->0),
            name@,
            attrs@,
            empty,
        ),
        final(st).cur is Some,
        final(st).geo_depth <= old(st).geo_depth + 1,
        final(st).label_depth <= old(st).label_depth + 1,
{
    let ghost m = state_view(*st);
    let mut el = take_element(st);
    let ghost e0 = el;
    if is_name(name, "thema") {
        match attr_value_exec(attrs, &chars_of("href")) {
            Some(h) => {
                el.thema = Some(href_segment_chars(&h));
            },
            None => {},
        }
    } else if is_name(name, "link") {
        match attr_value_exec(attrs, &chars_of("href")) {
            Some(h) => {
                let t = trim_hashes_chars(&h);
                el.links.push(t);
                proof {
                    assert(views(el.links@) =~= views(e0.links@).push(t@));
                }
            },
            None => {},
        }
    } else if is_name(name, "inNetwork") {
        match attr_value_exec(attrs, &chars_of("href")) {
            Some(h) => {
                let t = trim_hashes_chars(&h);
                el.in_network.push(t);
                proof {
                    assert(views(el.in_network@) =~= views(e0.in_network@).push(t@));
                }
            },
            None => {},
        }
    } else if is_name(name, "appurtenanceType") {
        match attr_value_exec(attrs, &chars_of("href")) {
            Some(h) => {
                el.app_type = Some(href_segment_chars(&h));
            },
            None => {},
        }
    } else if is_name(name, "buismateriaalType") || is_name(name, "pipeMaterialType") {
        match attr_value_exec(attrs, &chars_of("href")) {
            Some(h) => {
                el.materiaal = Some(href_segment_chars(&h));
            },
            None => {},
        }
    } else if is_name(name, "pipeDiameter") {
        st.uom = match attr_value_exec(attrs, &chars_of("uom")) {
            Some(u) => unit_segment_chars(&u),
            None => chars_of("mm"),
        };
        if !empty {
            st.capture = Some(Capture::Diameter);
        }
    } else if is_name(name, "verticalPosition") && !empty {
        st.capture = Some(Capture::Vertical);
    } else if is_name(name, "bronhoudercode") && !empty {
        st.capture = Some(Capture::Bronhoudercode);
    } else if is_name(name, "Organisatie") {
        st.in_organisatie = true;
    } else if is_name(name, "naam") && st.in_organisatie && !empty {
        st.capture = Some(Capture::Organisatie);
    } else if is_name(name, "labelpositie") && !empty {
        st.label_depth = st.label_depth + 1;
    } else if is_geo_container(name) && !empty {
        st.geo_depth = st.geo_depth + 1;
    } else if is_name(name, "posList") || is_name(name, "pos") {
        st.cur_dim = match attr_value_exec(attrs, &chars_of("srsDimension")) {
            Some(d) => match parse_usize(&d) {
                Some(x) => x,
                None => 2,
            },
            None => 2,
        };
        if st.geo_depth > 0 && st.label_depth == 0 && !empty {
            st.capture = Some(if is_name(name, "pos") { Capture::Pos } else { Capture::PosList });
        }
    }
    st.cur = Some(el);
}

fn start_step_exec(st: &mut GiState, e: &Element, empty: bool)
    requires
        old(st).geo_depth < usize::MAX,
        old(st).label_depth < usize::MAX,
    ensures
        state_view(*final(st)) == start_step(state_view(*old(st)), *e, empty),
        final(st).geo_depth <= old(st).geo_depth + 1,
        final(st).label_depth <= old(st).label_depth + 1,
{
    let ghost m = state_view(*st);
    let name = local_name(e.name.as_slice());
    if !empty {
        let b = e.name.clone();
        proof {
            assert(b@ =~= e.name@);
        }
        st.stack.push(b);
        proof {
            assert(state_view(*st).stack =~= m.stack.push(e.name@));
        }
    }
    if st.cur.is_none() && is_start_kind(&name) {
        let id = match attr_value_exec(&e.attrs, &chars_of("id")) {
            Some(v) => v,
            None => Vec::new(),
        };
        st.cur = if empty { None } else { Some(new_element_exec(name, id)) };
        st.geo_depth = 0;
        st.label_depth = 0;
        st.in_organisatie = false;
    } else if st.cur.is_some() {
        element_start_exec(st, &name, &e.attrs, empty);
    }
}

fn text_step_exec(st: &mut GiState, t: &Result<Vec<char>, Vec<char>>) -> (ok: bool)
    ensures
        ok ==> text_step(state_view(*old(st)), *t) == Some(state_view(*final(st))),
        !ok ==> text_step(state_view(*old(st)), *t) is None,
        final(st).geo_depth == old(st).geo_depth,
        final(st).label_depth == old(st).label_depth,
{
    let ghost m = state_view(*st);
    if st.cur.is_none() || st.capture.is_none() {
        return true;
    }
    let cap = st.capture.unwrap();
    let none: Vec<char> = Vec::new();
    let txt = match t {
        Ok(v) => trim_chars(v.as_slice()),
        Err(_) => trim_chars(none.as_slice()),
    };
    if txt.len() == 0 {
        st.capture = None;
        return true;
    }
    let mut el = take_element(st);
    let ghost e0 = el;
    match cap {
        Capture::PosList => match parse_coords_exec(&txt, st.cur_dim) {
            None => {
                return false;
            },
            Some(cs) => {
                if cs.len() >= 2 {
                    if is_name(&el.kind, "Graafpolygoon") {
                        if el.ring.is_none() {
                            el.ring = Some(cs);
                        }
                    } else {
                        let ghost c = cs@;
                        el.lines.push(cs);
                        proof {
                            assert(coord_lines(el.lines@) =~= coord_lines(e0.lines@).push(c));
                        }
                    }
                }
            },
        },
        Capture::Pos => match parse_coords_exec(&txt, st.cur_dim) {
            None => {
                return false;
            },
            Some(cs) => {
                if cs.len() > 0 {
                    el.point = Some(cs[0]);
                }
            },
        },
        Capture::Diameter => {
            let mut d = txt.clone();
            d.push(' ');
            let mut j: usize = 0;
            let ghost d0 = d@;
            while j < st.uom.len()
                invariant
                    j <= st.uom@.len(),
                    d@ == d0 + st.uom@.take(j as int),
                decreases st.uom@.len() - j,
            {
                d.push(st.uom[j]);
                proof {
                    assert(st.uom@.take(j + 1) =~= st.uom@.take(j as int).push(st.uom@[j as int]));
                }
                j = j + 1;
            }
            proof {
                assert(st.uom@.take(st.uom@.len() as int) =~= st.uom@);
                assert(d0 =~= txt@ + " "@) by {
                    reveal_strlit(" ");
                }
            }
            el.diameter = Some(d);
        },
        Capture::Vertical => {
            el.vertical = Some(txt);
        },
        Capture::Bronhoudercode => {
            el.bronhoudercode = Some(txt);
        },
        Capture::Organisatie => {
            if el.organisatie.is_none() {
                el.organisatie = Some(txt);
            }
        },
    }
    st.cur = Some(el);
    st.capture = None;
    true
}

fn finish_exec(st: &mut GiState, el: GiElement)
    ensures
        state_view(*final(st)) == finish(state_view(*old(st)), element_view(el)),
        final(st).geo_depth == old(st).geo_depth,
        final(st).label_depth == old(st).label_depth,
        final(st).cur == old(st).cur,
{
    let ghost m = state_view(*st);
    let ghost ev = element_view(el);
    if is_name(&el.kind, "UtilityLink") {
        if el.lines.len() > 0 {
            let GiElement { mut lines, gml_id, .. } = el;
            let first = lines.remove(0);
            let ghost f = first@;
            let ghost k = gml_id@;
            proof {
                assert(f == ev.lines[0]);
            }
            st.links.insert(string_of(&gml_id), first);
            proof {
                assert(coords_map(st.links) =~= m.links.insert(k, f));
            }
        }
    } else if is_name(&el.kind, "Beheerder") {
        match (el.bronhoudercode, el.organisatie) {
            (Some(c), Some(n)) => {
                st.beheerders.insert(string_of(&c), string_of(&n));
                proof {
                    assert(text_map(st.beheerders) =~= m.beheerders.insert(c@, n@));
                }
            },
            _ => {},
        }
    } else if is_name(&el.kind, "Utiliteitsnet") {
        match el.thema {
            Some(t) => {
                st.netten.insert(string_of(&el.gml_id), string_of(&t));
                proof {
                    assert(text_map(st.netten) =~= m.netten.insert(el.gml_id@, t@));
                }
            },
            None => {},
        }
    } else if is_name(&el.kind, "Graafpolygoon") {
        match el.ring {
            Some(r) => {
                let ghost rv = r@;
                st.polygons.push(r);
                proof {
                    assert(coord_lines(st.polygons@) =~= m.polygons.push(rv));
                }
            },
            None => {},
        }
    } else {
        st.pending.push(el);
        proof {
            assert(state_view(*st).pending =~= m.pending.push(ev));
        }
    }
}

fn end_step_exec(st: &mut GiState)
    ensures
        state_view(*final(st)) == end_step(state_view(*old(st))),
        final(st).geo_depth <= old(st).geo_depth,
        final(st).label_depth <= old(st).label_depth,
{
    let ghost m = state_view(*st);
    let had = st.stack.len() > 0;
    let name: Vec<char> = match st.stack.pop() {
        Some(b) => local_name(b.as_slice()),
        None => Vec::new(),
    };
    proof {
        if had {
            assert(state_view(*st).stack =~= m.stack.drop_last());
        }
    }
    st.capture = None;
    if st.cur.is_none() {
        return;
    }
    if is_name(&name, "labelpositie") && st.label_depth > 0 {
        st.label_depth = st.label_depth - 1;
    } else if is_geo_container(&name) && st.geo_depth > 0 {
        st.geo_depth = st.geo_depth - 1;
    } else if is_name(&name, "Organisatie") {
        st.in_organisatie = false;
    } else {
        let same = match &st.cur {
            Some(el) => eq_chars(&el.kind, &name),
            None => false,
        };
        if same {
            let el = take_element(st);
            finish_exec(st, el);
        }
    }
}

fn init_state() -> (r: GiState)
    ensures
        state_view(r) == gi_init(),
        r.geo_depth == 0,
        r.label_depth == 0,
{
    let r = GiState {
        cur: None,
        geo_depth: 0,
        label_depth: 0,
        in_organisatie: false,
        capture: None,
        cur_dim: 2,
        uom: chars_of("mm"),
        links: KeyedVec::new(),
        beheerders: KeyedVec::new(),
        netten: KeyedVec::new(),
        pending: Vec::new(),
        polygons: Vec::new(),
        stack: Vec::new(),
    };
    proof {
        let v = state_view(r);
        assert(v.links =~= Map::<Seq<char>, Seq<Coord>>::empty());
        assert(v.beheerders =~= Map::<Seq<char>, Seq<char>>::empty());
        assert(v.netten =~= Map::<Seq<char>, Seq<char>>::empty());
        assert(v.pending =~= Seq::<ElementModel>::empty());
        assert(v.polygons =~= Seq::<Seq<Coord>>::empty());
        assert(v.stack =~= Seq::<Seq<u8>>::empty());
    }
    r
}

/// Runs the reader over the events of a document; `None` when a
/// coordinate cannot be held.
fn run_exec(toks: &Tokens) -> (r: Option<GiState>)
    ensures
        match r {
            Some(st) => gi_run(toks.events@, 0, gi_init()) == Some(state_view(st)),
            None => gi_run(toks.events@, 0, gi_init()) is None,
        },
{
    let mut st = init_state();
    let n = toks.events.len();
    let mut i: usize = 0;
    while i < n
        invariant
            n == toks.events@.len(),
            i <= n,
            st.geo_depth <= i,
            st.label_depth <= i,
            gi_run(toks.events@, 0, gi_init()) == gi_run(toks.events@, i as int, state_view(st)),
        decreases n - i,
    {
        match &toks.events[i].event {
            XmlEvent::Eof => {
                return Some(st);
            },
            XmlEvent::Start(e) => {
                start_step_exec(&mut st, e, false);
            },
            XmlEvent::Empty(e) => {
                start_step_exec(&mut st, e, true);
            },
            XmlEvent::End => {
                end_step_exec(&mut st);
            },
            XmlEvent::Text(t) => {
                if !text_step_exec(&mut st, t) {
                    return None;
                }
            },
            XmlEvent::Other => {},
        }
        i = i + 1;
    }
    Some(st)
}

/// The geometry of a feature.
#[derive(Clone, Debug, PartialEq)]
pub enum Geometry {
    Point(Coord),
    LineString(Vec<Coord>),
    MultiLineString(Vec<Vec<Coord>>),
    Polygon(Vec<Coord>),
}

/// A feature of the profile: normalised core properties, source
/// attributes and geometry.
#[derive(Clone, Debug)]
pub struct GiFeature {
    pub thema: String,
    pub kind: String,
    pub netbeheerder: Option<String>,
    pub diameter: Option<String>,
    pub materiaal: Option<String>,
    pub melding: String,
    pub gml_id: Option<String>,
    pub bronhoudercode: Option<String>,
    pub vertical: Option<String>,
    pub app_type: Option<String>,
    pub geometry: Geometry,
}

/// The features of one delivery.
#[derive(Clone, Debug)]
pub struct Levering {
    pub meldnummer: String,
    pub features: Vec<GiFeature>,
}

pub open spec fn os(o: Option<String>) -> Option<Seq<char>> {
    match o {
        Some(v) => Some(v@),
        None => None,
    }
}

pub open spec fn geometry_view(g: Geometry) -> GeometryModel {
    match g {
        Geometry::Point(p) => GeometryModel::Point(p),
        Geometry::LineString(l) => GeometryModel::LineString(l@),
        Geometry::MultiLineString(ls) => GeometryModel::MultiLineString(coord_lines(ls@)),
        Geometry::Polygon(r) => GeometryModel::Polygon(r@),
    }
}

pub open spec fn feature_view(f: GiFeature) -> FeatureModel {
    FeatureModel {
        thema: f.thema@,
        kind: f.kind@,
        netbeheerder: os(f.netbeheerder),
        diameter: os(f.diameter),
        materiaal: os(f.materiaal),
        melding: f.melding@,
        gml_id: os(f.gml_id),
        bronhoudercode: os(f.bronhoudercode),
        vertical: os(f.vertical),
        app_type: os(f.app_type),
        geometry: geometry_view(f.geometry),
    }
}

pub open spec fn features_view(fs: Seq<GiFeature>) -> Seq<FeatureModel> {
    fs.map_values(|f: GiFeature| feature_view(f))
}

fn copy_coords(v: &Vec<Coord>) -> (r: Vec<Coord>)
    ensures
        r@ == v@,
{
    let mut r: Vec<Coord> = Vec::new();
    for i in 0..v.len()
        invariant
            r@ == v@.take(i as int),
    {
        r.push(v[i]);
        proof {
            assert(v@.take(i + 1) =~= v@.take(i as int).push(v@[i as int]));
        }
    }
    proof {
        assert(v@.take(v@.len() as int) =~= v@);
    }
    r
}

fn copy_lines(v: &Vec<Vec<Coord>>) -> (r: Vec<Vec<Coord>>)
    ensures
        coord_lines(r@) == coord_lines(v@),
{
    let mut r: Vec<Vec<Coord>> = Vec::new();
    for i in 0..v.len()
        invariant
            coord_lines(r@) == coord_lines(v@.take(i as int)),
    {
        let c = copy_coords(&v[i]);
        let ghost before = r@;
        r.push(c);
        proof {
            assert(coord_lines(r@) =~= coord_lines(before).push(v@[i as int]@));
            assert(coord_lines(v@.take(i + 1)) =~= coord_lines(v@.take(i as int)).push(v@[i as int]@));
        }
    }
    proof {
        assert(v@.take(v@.len() as int) =~= v@);
    }
    r
}

fn opt_string(o: &Option<Vec<char>>) -> (r: Option<String>)
    ensures
        os(r) == ov(*o),
{
    match o {
        Some(v) => Some(string_of(v)),
        None => None,
    }
}

fn linked_exec(refs: &Vec<Vec<char>>, links: &KeyedVec<Vec<Coord>>) -> (r: Vec<Vec<Coord>>)
    ensures
        coord_lines(r@) == linked(views(refs@), coords_map(*links)),
{
    let mut r: Vec<Vec<Coord>> = Vec::new();
    for i in 0..refs.len()
        invariant
            coord_lines(r@) == linked(views(refs@.take(i as int)), coords_map(*links)),
    {
        proof {
            assert(views(refs@.take(i + 1)).drop_last() =~= views(refs@.take(i as int)));
            assert(views(refs@.take(i + 1)).last() == refs@[i as int]@);
        }
        match links.get(refs[i].as_slice()) {
            Some(l) => {
                let c = copy_coords(l);
                let ghost before = r@;
                r.push(c);
                proof {
                    assert(coord_lines(r@) =~= coord_lines(before).push(l@));
                }
            },
            None => {},
        }
    }
    proof {
        assert(refs@.take(refs@.len() as int) =~= refs@);
    }
    r
}

fn first_net_exec(refs: &Vec<Vec<char>>, netten: &KeyedVec<String>) -> (r: Option<Vec<char>>)
    ensures
        ov(r) == first_net(views(refs@), text_map(*netten)),
{
    let mut i: usize = 0;
    proof {
        assert(views(refs@).subrange(0, refs@.len() as int) =~= views(refs@));
    }
    while i < refs.len()
        invariant
            i <= refs@.len(),
            first_net(views(refs@), text_map(*netten)) == first_net(
                views(refs@).subrange(i as int, refs@.len() as int),
                text_map(*netten),
            ),
        decreases refs@.len() - i,
    {
        proof {
            let rest = views(refs@).subrange(i as int, refs@.len() as int);
            assert(rest.drop_first() =~= views(refs@).subrange(i + 1, refs@.len() as int));
            assert(rest[0] == refs@[i as int]@);
        }
        match netten.get(refs[i].as_slice()) {
            Some(t) => {
                return Some(crate::text::chars_of(t.as_str()));
            },
            None => {},
        }
        i = i + 1;
    }
    None
}

fn element_feature_exec(el: &GiElement, st: &GiState, meld: &str) -> (r: Option<GiFeature>)
    ensures
        match r {
            Some(f) => element_feature(element_view(*el), state_view(*st), meld@) == Some(feature_view(f)),
            None => element_feature(element_view(*el), state_view(*st), meld@) is None,
        },
{
    let lines = if el.lines.len() == 0 { linked_exec(&el.links, &st.links) } else { copy_lines(&el.lines) };
    let geometry = match el.point {
        Some(p) => Geometry::Point(p),
        None => if lines.len() == 1 {
            let l = copy_coords(&lines[0]);
            Geometry::LineString(l)
        } else if lines.len() > 1 {
            Geometry::MultiLineString(lines)
        } else {
            return None;
        },
    };
    let code = kl_code_chars(&el.gml_id);
    let thema = match &el.thema {
        Some(t) => string_of(t),
        None => match first_net_exec(&el.in_network, &st.netten) {
            Some(t) => string_of(&t),
            None => "overig".to_string(),
        },
    };
    let netbeheerder = match &code {
        Some(c) => match st.beheerders.get(c.as_slice()) {
            Some(n) => Some(n.clone()),
            None => Some(string_of(c)),
        },
        None => None,
    };
    Some(
        GiFeature {
            thema,
            kind: string_of(&el.kind),
            netbeheerder,
            diameter: opt_string(&el.diameter),
            materiaal: opt_string(&el.materiaal),
            melding: meld.to_string(),
            gml_id: if el.gml_id.len() > 0 { Some(string_of(&el.gml_id)) } else { None },
            bronhoudercode: opt_string(&code),
            vertical: opt_string(&el.vertical),
            app_type: opt_string(&el.app_type),
            geometry,
        },
    )
}

fn ordinate_eq(a: Option<Number>, b: Option<Number>) -> (r: bool)
    ensures
        r == (a == b),
{
    match (a, b) {
        (Some(x), Some(y)) => x.num == y.num && x.den == y.den,
        (None, None) => true,
        _ => false,
    }
}

fn coord_eq(a: Coord, b: Coord) -> (r: bool)
    ensures
        r == (a == b),
{
    ordinate_eq(a.x, b.x) && ordinate_eq(a.y, b.y)
}

fn polygon_feature_exec(r: &Vec<Coord>, meld: &str) -> (f: GiFeature)
    ensures
        feature_view(f) == polygon_feature(r@, meld@),
{
    let mut ring = copy_coords(r);
    if ring.len() > 0 && !coord_eq(ring[0], ring[ring.len() - 1]) {
        let first = ring[0];
        ring.push(first);
    }
    GiFeature {
        thema: "graafpolygoon".to_string(),
        kind: "Graafpolygoon".to_string(),
        netbeheerder: None,
        diameter: None,
        materiaal: None,
        melding: meld.to_string(),
        gml_id: None,
        bronhoudercode: None,
        vertical: None,
        app_type: None,
        geometry: Geometry::Polygon(ring),
    }
}

fn features_exec(st: &GiState, meld: &str) -> (r: Vec<GiFeature>)
    ensures
        features_view(r@) == features_spec(state_view(*st), meld@),
{
    let ghost m = state_view(*st);
    let mut out: Vec<GiFeature> = Vec::new();
    for i in 0..st.polygons.len()
        invariant
            m == state_view(*st),
            features_view(out@) == m.polygons.take(i as int).map_values(|r: Seq<Coord>| polygon_feature(r, meld@)),
    {
        let f = polygon_feature_exec(&st.polygons[i], meld);
        let ghost before = out@;
        out.push(f);
        proof {
            assert(features_view(out@) =~= features_view(before).push(feature_view(f)));
            assert(m.polygons.take(i + 1) =~= m.polygons.take(i as int).push(m.polygons[i as int]));
            assert(m.polygons.take(i + 1).map_values(|r: Seq<Coord>| polygon_feature(r, meld@)) =~= m.polygons.take(
                i as int,
            ).map_values(|r: Seq<Coord>| polygon_feature(r, meld@)).push(polygon_feature(m.polygons[i as int], meld@)));
        }
    }
    proof {
        assert(m.polygons.take(m.polygons.len() as int) =~= m.polygons);
    }
    let ghost head = features_view(out@);
    let np = st.pending.len();
    for j in 0..np
        invariant
            m == state_view(*st),
            np == st.pending@.len(),
            features_view(out@) == head + pending_features(m.pending.take(j as int), m, meld@),
    {
        proof {
            assert(m.pending.take(j + 1).drop_last() =~= m.pending.take(j as int));
            assert(m.pending.take(j + 1).last() == element_view(st.pending@[j as int]));
        }
        match element_feature_exec(&st.pending[j], st, meld) {
            Some(f) => {
                let ghost before = out@;
                out.push(f);
                proof {
                    assert(features_view(out@) =~= features_view(before).push(feature_view(f)));
                    assert(head + pending_features(m.pending.take(j as int), m, meld@).push(feature_view(f)) =~= (head
                        + pending_features(m.pending.take(j as int), m, meld@)).push(feature_view(f)));
                }
            },
            None => {},
        }
    }
    proof {
        assert(m.pending.take(np as int) =~= m.pending);
    }
    out
}

/// The features of a delivery read from its events, or the reader's
/// error at its position.
pub fn levering_from_events(toks: &Tokens, meldnummer: &str) -> (r: Result<Levering, String>)
    ensures
        match r {
            Ok(l) => l.meldnummer@ == meldnummer@ && gi_spec(*toks, meldnummer@) == Ok::<
                Seq<FeatureModel>,
                Seq<char>,
            >(features_view(l.features@)),
            Err(e) => gi_spec(*toks, meldnummer@) == Err::<Seq<FeatureModel>, Seq<char>>(e@),
        },
{
    match &toks.error {
        Some((p, msg)) => {
            let mut m = chars_of("XML-fout op positie ");
            let digits = nat_chars(*p as u128);
            crate::text::push_all(&mut m, &digits);
            crate::text::push_str(&mut m, ": ");
            crate::text::push_all(&mut m, msg);
            return Err(string_of(&m));
        },
        None => {},
    }
    match run_exec(toks) {
        None => Err("coordinate too large or too precise to hold".to_string()),
        Some(st) => {
            let features = features_exec(&st, meldnummer);
            Ok(Levering { meldnummer: meldnummer.to_string(), features })
        },
    }
}

/// `r` is what reading a delivery gives for its events `toks`, under the
/// notification number `meld`.
pub open spec fn gi_read(r: Result<Levering, String>, toks: Tokens, meld: Seq<char>) -> bool {
    match r {
        Ok(l) => l.meldnummer@ == meld && gi_spec(toks, meld) == Ok::<Seq<FeatureModel>, Seq<char>>(
            features_view(l.features@),
        ),
        Err(e) => gi_spec(toks, meld) == Err::<Seq<FeatureModel>, Seq<char>>(e@),
    }
}

/// Reads the delivery information XML of one KLIC delivery.
///
/// The result is what `gi_spec` gives for the events the XML reader hands
/// out for `xml`, each event being what the reader's named results give at
/// its place in `xml` (see `tokens_of`).
pub fn parse_gi_xml(xml: &str, meldnummer: &str) -> (r: Result<Levering, String>)
    ensures
        exists|toks: Tokens| tokens_of(toks, xml@, false, text_len(xml)) && #[trigger] gi_read(r, toks, meldnummer@),
        r matches Ok(l) ==> l.meldnummer@ == meldnummer@,
{
    let toks = crate::xml::tokenize(xml, false);
    let r = levering_from_events(&toks, meldnummer);
    proof {
        assert(gi_read(r, toks, meldnummer@));
    }
    r
}

#[verifier::external_type_specification]
#[verifier::external_body]
#[verifier::reject_recursive_types(R)]
pub struct ExZipArchive<R>(zip::ZipArchive<R>);

#[verifier::external_type_specification]
#[verifier::external_body]
#[verifier::reject_recursive_types(T)]
pub struct ExCursor<T>(std::io::Cursor<T>);

/// An archive opened by `zip`, with the bytes it was read from.
pub struct ZipFile<'a> {
    archive: zip::ZipArchive<std::io::Cursor<&'a [u8]>>,
    src: Ghost<Seq<u8>>,
}

/// The message of the error `zip::ZipArchive::new` gives for the bytes,
/// if it gives one.
pub uninterp spec fn zip_open_error(bytes: Seq<u8>) -> Option<Seq<char>>;

/// The number of entries `ZipArchive::len` reports for the bytes.
pub uninterp spec fn zip_entry_count(bytes: Seq<u8>) -> nat;

/// The name of entry `i` (`ZipArchive::by_index`, then `name`), or the
/// message of the error.
pub uninterp spec fn zip_entry_name(bytes: Seq<u8>, i: nat) -> Result<Seq<char>, Seq<char>>;

/// The UTF-8 text of the entry called `name` (`ZipArchive::by_name`, then
/// `read_to_string`), or the message of the error.
pub uninterp spec fn zip_entry_text(bytes: Seq<u8>, name: Seq<char>) -> Result<Seq<char>, Seq<char>>;

/// Calls `zip::ZipArchive::new` on the bytes; an error becomes its
/// message, named by `zip_open_error`.
#[verifier::external_body]
fn open_zip<'a>(bytes: &'a [u8]) -> (r: Result<zip::ZipArchive<std::io::Cursor<&'a [u8]>>, String>)
    ensures
        match r {
            Ok(_) => zip_open_error(bytes@) is None,
            Err(m) => zip_open_error(bytes@) == Some(m@),
        },
{
    match zip::ZipArchive::new(std::io::Cursor::new(bytes)) {
        Ok(a) => Ok(a),
        Err(e) => Err(e.to_string()),
    }
}

impl<'a> ZipFile<'a> {
    /// Opens the archive held in `bytes`.
    fn open(bytes: &'a [u8]) -> (r: Result<Self, String>)
        ensures
            match r {
                Ok(z) => zip_open_error(bytes@) is None && z.src@ == bytes@,
                Err(m) => zip_open_error(bytes@) == Some(m@),
            },
    {
        match open_zip(bytes) {
            Ok(a) => Ok(ZipFile { archive: a, src: Ghost(bytes@) }),
            Err(m) => Err(m),
        }
    }
}

/// Calls `ZipArchive::len`: the number of entries, named by
/// `zip_entry_count`.
#[verifier::external_body]
fn zip_len(z: &ZipFile<'_>) -> (r: usize)
    ensures
        r as nat == zip_entry_count(z.src@),
{
    z.archive.len()
}

/// Calls `ZipArchive::by_index` and the entry's `name`; an error becomes
/// its message. The result is named by `zip_entry_name`.
#[verifier::external_body]
fn zip_name_at(z: &mut ZipFile<'_>, i: usize) -> (r: Result<String, String>)
    ensures
        final(z).src == old(z).src,
        text_res(r) == zip_entry_name(old(z).src@, i as nat),
{
    match z.archive.by_index(i) {
        Ok(f) => Ok(f.name().to_string()),
        Err(e) => Err(e.to_string()),
    }
}

/// A text result as plain values.
pub open spec fn text_res(r: Result<String, String>) -> Result<Seq<char>, Seq<char>> {
    match r {
        Ok(t) => Ok(t@),
        Err(m) => Err(m@),
    }
}

/// Calls `ZipArchive::by_name` and reads the entry as UTF-8 text with
/// `std::io::Read::read_to_string`; an error becomes its message. The
/// result is named by `zip_entry_text`.
#[verifier::external_body]
fn zip_text(z: &mut ZipFile<'_>, name: &str) -> (r: Result<String, String>)
    ensures
        final(z).src == old(z).src,
        text_res(r) == zip_entry_text(old(z).src@, name@),
{
    let mut f = match z.archive.by_name(name) {
        Ok(f) => f,
        Err(e) => return Err(e.to_string()),
    };
    let mut text = String::new();
    match std::io::Read::read_to_string(&mut f, &mut text) {
        Ok(_) => Ok(text),
        Err(e) => Err(e.to_string()),
    }
}

/// The first entry from index `i` on whose name marks the delivery
/// information, scanning entry names as `zip` reports them; the message of
/// the first name that cannot be read.
pub open spec fn first_gi(bytes: Seq<u8>, n: nat, i: nat) -> Result<Option<Seq<char>>, Seq<char>>
    decreases n - i,
{
    if i >= n {
        Ok(None)
    } else {
        match zip_entry_name(bytes, i) {
            Err(m) => Err(m),
            Ok(s) => if gi_entry(s) {
                Ok(Some(s))
            } else {
                first_gi(bytes, n, i + 1)
            },
        }
    }
}

proof fn lemma_first_gi_entry(bytes: Seq<u8>, n: nat, i: nat)
    ensures
        first_gi(bytes, n, i) matches Ok(Some(s)) ==> gi_entry(s),
    decreases n - i,
{
    if i < n {
        lemma_first_gi_entry(bytes, n, i + 1);
    }
}

/// The message when no entry holds the delivery information.
pub open spec fn no_gi_message(bron: Seq<char>) -> Seq<char> {
    bron + ": geen GI_gebiedsinformatielevering-XML gevonden (geen KLIC-levering?)"@
}

/// What reading the archive `bytes` gives (see `convert_zip_bytes`).
pub open spec fn zip_read(r: Result<Levering, String>, bytes: Seq<u8>, bron: Seq<char>) -> bool {
    match zip_open_error(bytes) {
        Some(m) => r matches Err(e) && e@ == bron + ": zip: "@ + m,
        None => match first_gi(bytes, zip_entry_count(bytes), 0) {
            Err(m) => r matches Err(e) && e@ == m,
            Ok(None) => r matches Err(e) && e@ == no_gi_message(bron),
            Ok(Some(name)) => match zip_entry_text(bytes, name) {
                Err(m) => r matches Err(e) && e@ == m,
                Ok(t) => exists|toks: Tokens, s: &str|
                    #![trigger tokens_of(toks, t, false, text_len(s)), gi_read(r, toks, meldnummer_of(name))]
                    s@ == t && tokens_of(toks, t, false, text_len(s)) && gi_read(r, toks, meldnummer_of(name)),
            },
        },
    }
}

/// The prefix of the delivery information file.
pub open spec fn gi_prefix() -> Seq<char> {
    "GI_gebiedsinformatielevering"@
}

/// An archive entry is the delivery information: its base name starts
/// with the prefix and ends in `.xml`.
pub open spec fn gi_entry(name: Seq<char>) -> bool {
    let base = last_segment(name);
    starts_with(base, gi_prefix()) && base.len() >= ".xml"@.len() && base.subrange(
        base.len() - ".xml"@.len(),
        base.len() as int,
    ) == ".xml"@
}

/// `s` without leading copies of `p`.
pub open spec fn trim_prefixes(s: Seq<char>, p: Seq<char>) -> Seq<char>
    decreases s.len(),
{
    if p.len() > 0 && s.len() >= p.len() && s.take(p.len() as int) == p {
        trim_prefixes(s.skip(p.len() as int), p)
    } else {
        s
    }
}

/// The notification number in the name of the delivery information file:
/// `GI_gebiedsinformatielevering_<number>_<sequence>_V2.xml`.
pub open spec fn meldnummer_of(name: Seq<char>) -> Seq<char> {
    let rest = trim_prefixes(last_segment(name), "GI_gebiedsinformatielevering_"@);
    rest.take(crate::text::find_char(rest, '_', 0))
}

pub fn is_gi_entry(name: &str) -> (r: bool)
    ensures
        r == gi_entry(name@),
{
    let c = chars_of(name);
    let base = last_segment_chars(&c);
    let p = chars_of("GI_gebiedsinformatielevering");
    crate::text::starts_with_chars(&base, &p) && ends_with_chars(&base, &chars_of(".xml"))
}

fn trim_prefixes_chars(s: &[char], p: &[char]) -> (r: Vec<char>)
    ensures
        r@ == trim_prefixes(s@, p@),
{
    if p.len() == 0 {
        return slice_vec(s, 0, s.len());
    }
    let mut k: usize = 0;
    proof {
        assert(s@.skip(0) =~= s@);
    }
    while k <= s.len() && s.len() - k >= p.len() && crate::text::starts_with_chars(
        &slice_vec(s, k, s.len()),
        p,
    )
        invariant
            k <= s@.len(),
            p@.len() > 0,
            trim_prefixes(s@, p@) == trim_prefixes(s@.skip(k as int), p@),
        decreases s@.len() - k,
    {
        proof {
            let t = s@.skip(k as int);
            assert(slice_vec_spec_eq(s@, k as int) == t);
            assert(t.skip(p@.len() as int) =~= s@.skip(k + p@.len()));
        }
        k = k + p.len();
    }
    proof {
        assert(s@.subrange(k as int, s@.len() as int) =~= s@.skip(k as int));
    }
    slice_vec(s, k, s.len())
}

pub open spec fn slice_vec_spec_eq(s: Seq<char>, k: int) -> Seq<char> {
    s.subrange(k, s.len() as int)
}

/// The notification number in an entry name.
pub fn meldnummer_chars(name: &str) -> (r: Vec<char>)
    ensures
        r@ == meldnummer_of(name@),
{
    let c = chars_of(name);
    let base = last_segment_chars(&c);
    let rest = trim_prefixes_chars(&base, &chars_of("GI_gebiedsinformatielevering_"));
    let k = crate::text::find_char_exec(&rest, '_', 0);
    slice_vec(&rest, 0, k)
}

/// Reads one KLIC delivery archive: finds the first entry holding the
/// delivery information, takes the notification number from its name and
/// reads its features. What the archive holds is read by `zip`.
pub fn convert_zip_bytes(bytes: &[u8], bron_naam: &str) -> (r: Result<Levering, String>)
    ensures
        zip_read(r, bytes@, bron_naam@),
        r matches Ok(l) ==> exists|name: Seq<char>| #[trigger] gi_entry(name) && l.meldnummer@ == meldnummer_of(name),
{
    let mut archive = match ZipFile::open(bytes) {
        Ok(a) => a,
        Err(e) => {
            let mut m = chars_of(bron_naam);
            crate::text::push_str(&mut m, ": zip: ");
            crate::text::push_str(&mut m, e.as_str());
            return Err(string_of(&m));
        },
    };
    let ghost src = bytes@;
    let n = zip_len(&archive);
    let mut found: Option<String> = None;
    let mut i: usize = 0;
    while i < n
        invariant_except_break
            found is None,
        invariant
            archive.src@ == src,
            src == bytes@,
            zip_open_error(src) is None,
            n as nat == zip_entry_count(src),
            i <= n,
            first_gi(src, n as nat, 0) == first_gi(src, n as nat, i as nat),
        ensures
            match found {
                Some(f) => first_gi(src, n as nat, 0) == Ok::<Option<Seq<char>>, Seq<char>>(Some(f@)),
                None => first_gi(src, n as nat, 0) == Ok::<Option<Seq<char>>, Seq<char>>(None),
            },
        decreases n - i,
    {
        let name = match zip_name_at(&mut archive, i) {
            Ok(s) => s,
            Err(e) => {
                proof {
                    assert(first_gi(src, n as nat, i as nat) == Err::<Option<Seq<char>>, Seq<char>>(e@));
                }
                return Err(e);
            },
        };
        proof {
            assert(zip_entry_name(src, i as nat) == Ok::<Seq<char>, Seq<char>>(name@));
        }
        if is_gi_entry(name.as_str()) {
            found = Some(name);
            break;
        }
        i = i + 1;
    }
    let gi_name = match found {
        Some(f) => f,
        None => {
            let mut m = chars_of(bron_naam);
            crate::text::push_str(&mut m, ": geen GI_gebiedsinformatielevering-XML gevonden (geen KLIC-levering?)");
            return Err(string_of(&m));
        },
    };
    proof {
        assert(first_gi(src, n as nat, 0) == Ok::<Option<Seq<char>>, Seq<char>>(Some(gi_name@)));
    }
    let meld = meldnummer_chars(gi_name.as_str());
    let meld_s = string_of(&meld);
    let xml = match zip_text(&mut archive, gi_name.as_str()) {
        Ok(t) => t,
        Err(e) => {
            return Err(e);
        },
    };
    let xs = xml.as_str();
    let r = parse_gi_xml(xs, meld_s.as_str());
    proof {
        let t = choose|t: Tokens| tokens_of(t, xs@, false, text_len(xs)) && #[trigger] gi_read(r, t, meld_s@);
        lemma_first_gi_entry(src, n as nat, 0);
        let lim = text_len(xs);
        let x = xml@;
        assert(tokens_of(t, x, false, lim) && gi_read(r, t, meldnummer_of(gi_name@)));
        assert(match zip_entry_text(bytes@, gi_name@) {
            Err(m) => r matches Err(e) && e@ == m,
            Ok(u) => exists|toks: Tokens, s: &str|
                #![trigger tokens_of(toks, u, false, text_len(s)), gi_read(r, toks, meldnummer_of(gi_name@))]
                s@ == u && tokens_of(toks, u, false, text_len(s)) && gi_read(r, toks, meldnummer_of(gi_name@)),
        }) by {
            assert(zip_entry_text(bytes@, gi_name@)->Ok_0 == x);
        }
        assert(zip_read(r, bytes@, bron_naam@));
    }
    r
}

/// An excavation polygon's ring ends where it starts.
pub proof fn law_polygon_rings_closed(r: Seq<Coord>)
    requires
        r.len() > 0,
    ensures
        closed_ring(r).len() > 0,
        closed_ring(r)[0] == closed_ring(r).last(),
{
}

proof fn lemma_digits_from(s: Seq<char>, k: int)
    ensures
        forall|i: int| 0 <= i < digits_from(s, k).len() ==> is_digit(#[trigger] digits_from(s, k)[i]),
    decreases s.len() - k,
{
    if !(k < 0 || k >= s.len() || !is_digit(s[k])) {
        lemma_digits_from(s, k + 1);
        let d = digits_from(s, k);
        assert forall|i: int| 0 <= i < d.len() implies is_digit(#[trigger] d[i]) by {
            if i > 0 {
                assert(d[i] == digits_from(s, k + 1)[i - 1]);
            }
        }
    }
}

proof fn lemma_kl_from(s: Seq<char>, i: int)
    ensures
        kl_from(s, i) matches Some(c) ==> c.len() >= 6 && c.take(2) == "KL"@ && forall|j: int|
            2 <= j < c.len() ==> is_digit(#[trigger] c[j]),
    decreases s.len() - i,
{
    if i < 0 || i >= s.len() - 2 {
    } else if s[i] == 'K' && s[i + 1] == 'L' && digits_from(s, i + 2).len() >= 4 {
        let d = digits_from(s, i + 2);
        lemma_digits_from(s, i + 2);
        let c = "KL"@ + d;
        reveal_strlit("KL");
        assert(c.take(2) =~= "KL"@);
        assert forall|j: int| 2 <= j < c.len() implies is_digit(#[trigger] c[j]) by {
            assert(c[j] == d[j - 2]);
        }
    } else {
        lemma_kl_from(s, i + 1);
    }
}

/// An operator code read from an identifier is `KL` followed by at least
/// four digits.
pub proof fn law_kl_code_shape(id: Seq<char>)
    ensures
        kl_code(id) matches Some(c) ==> c.len() >= 6 && c.take(2) == "KL"@ && forall|j: int|
            2 <= j < c.len() ==> is_digit(#[trigger] c[j]),
{
    lemma_kl_from(id, 0);
}

proof fn lemma_ordinates_read(toks: Seq<Seq<char>>)
    ensures
        ordinate_values(toks) is Some,
    decreases toks.len(),
{
    if toks.len() > 0 {
        lemma_ordinates_read(toks.drop_last());
    }
}

/// Every `pos` and `posList` text reads: an ordinate the library does not
/// hold exactly is absent rather than a failure.
pub proof fn law_coordinates_always_read(text: Seq<char>, dim: nat)
    ensures
        parse_coords(text, dim) is Some,
{
    lemma_ordinates_read(split_ws(text));
}

/// The lines a geometry holds.
pub open spec fn geometry_lines(g: GeometryModel) -> Seq<Seq<Coord>> {
    match g {
        GeometryModel::LineString(l) => seq![l],
        GeometryModel::MultiLineString(ls) => ls,
        _ => seq![],
    }
}

proof fn lemma_linked_all_known(refs: Seq<Seq<char>>, links: Map<Seq<char>, Seq<Coord>>)
    requires
        forall|i: int| 0 <= i < refs.len() ==> links.contains_key(#[trigger] refs[i]),
    ensures
        linked(refs, links) == Seq::new(refs.len(), |i: int| links[refs[i]]),
    decreases refs.len(),
{
    if refs.len() > 0 {
        let d = refs.drop_last();
        assert forall|i: int| 0 <= i < d.len() implies links.contains_key(#[trigger] d[i]) by {
            assert(d[i] == refs[i]);
        }
        lemma_linked_all_known(d, links);
        assert(refs[refs.len() - 1] == refs.last());
        assert(linked(refs, links) =~= Seq::new(refs.len(), |i: int| links[refs[i]]));
    }
}

/// The feature of a finished element holds every line of the element: a
/// point element is a point; otherwise the element's own lines, or, when
/// it has none and every utility link it refers to is known, the lines of
/// those links in the order referred to. One line makes a line string, two
/// or more a multi-line string with exactly those lines.
pub proof fn law_element_keeps_every_line(el: ElementModel, m: GiModel, meld: Seq<char>)
    ensures
        el.point matches Some(p) ==> (element_feature(el, m, meld) matches Some(f) && f.geometry
            == GeometryModel::Point(p)),
        el.point is None && el.lines.len() > 0 ==> (element_feature(el, m, meld) matches Some(f)
            && geometry_lines(f.geometry) == el.lines && (el.lines.len() >= 2 ==> f.geometry
            == GeometryModel::MultiLineString(el.lines))),
        el.point is None && el.lines.len() == 0 && el.links.len() > 0 && (forall|i: int|
            0 <= i < el.links.len() ==> m.links.contains_key(#[trigger] el.links[i])) ==> (element_feature(
            el,
            m,
            meld,
        ) matches Some(f) && geometry_lines(f.geometry) == Seq::new(el.links.len(), |i: int| m.links[el.links[i]])
            && (el.links.len() >= 2 ==> f.geometry is MultiLineString)),
{
    if el.point is None && el.lines.len() == 0 && el.links.len() > 0 && (forall|i: int|
        0 <= i < el.links.len() ==> m.links.contains_key(#[trigger] el.links[i])) {
        lemma_linked_all_known(el.links, m.links);
        let ls = linked(el.links, m.links);
        if ls.len() == 1 {
            assert(seq![ls[0]] =~= ls);
        }
    }
    if el.point is None && el.lines.len() == 1 {
        assert(seq![el.lines[0]] =~= el.lines);
    }
}

/// The properties of an element's feature: its kind, the notification
/// number, the attributes read from it; its theme is its own, else that of
/// the first network it belongs to when that one has a theme, else
/// `overig`; its operator is the name recorded for the operator code in
/// its identifier, else that code; no code, no operator.
pub proof fn law_element_feature_properties(el: ElementModel, m: GiModel, meld: Seq<char>)
    requires
        element_feature(el, m, meld) is Some,
    ensures
        ({
            let f = element_feature(el, m, meld)->Some_0;
            &&& f.kind == el.kind
            &&& f.melding == meld
            &&& f.diameter == el.diameter
            &&& f.materiaal == el.materiaal
            &&& f.app_type == el.app_type
            &&& f.vertical == el.vertical
            &&& f.gml_id == (if el.gml_id.len() > 0 { Some(el.gml_id) } else { None })
            &&& (el.thema matches Some(t) ==> f.thema == t)
            &&& (el.thema is None && el.in_network.len() == 0 ==> f.thema == "overig"@)
            &&& (el.thema is None && el.in_network.len() > 0 && m.netten.contains_key(el.in_network[0]) ==> f.thema
                == m.netten[el.in_network[0]])
            &&& f.bronhoudercode == kl_code(el.gml_id)
            &&& (kl_code(el.gml_id) is None ==> f.netbeheerder is None)
            &&& (kl_code(el.gml_id) matches Some(c) ==> f.netbeheerder == Some(
                if m.beheerders.contains_key(c) {
                    m.beheerders[c]
                } else {
                    c
                },
            ))
        }),
{
}

} // verus!
