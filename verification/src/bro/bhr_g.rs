//! BRO BHR-G (geological borehole) documents: the layers of the boring as
//! intervals with boundaries, lithology, colour, description and other
//! leaves, sorted by upper boundary with duplicate wrappers merged.

use vstd::prelude::*;

use crate::bro::{BroError, BroFailure};
use crate::bro::collect::{local_name, local_name_spec, opt_chars};
use crate::bro::cpt::{num_le, num_le_exec};
use crate::bro::metadata::{map_of_pairs, opt_string};
use crate::bro::collect::last_pair;
use crate::keyed::KeyedVec;
use crate::number::{lower_ascii, lower_ascii_exec, Number, Parsed, parse_number, parse_spec, simple, lemma_parse_simple, nat_text, nat_chars, padded, padded_chars, pow10};
use crate::text::{chars_of, eq_chars, join, join_from, push_all, push_str, split_chars, split_on, string_of, trim, trim_chars, views};
use crate::xml::{NsToken, Tokens, XmlEvent, events_read, ns_tokens_of, text_len, tokens_of};

verus! {

/// One geological interval.
#[derive(Clone, Debug)]
pub struct GeologicalInterval {
    pub upper_boundary: Number,
    pub lower_boundary: Number,
    pub lithology: Option<String>,
    pub colour: Option<String>,
    pub description: Option<String>,
    /// Other leaves of the layer, by path relative to it.
    pub extensions: KeyedVec<String>,
}

pub open spec fn is_ascii_alnum(c: char) -> bool {
    ('0' <= c && c <= '9') || ('a' <= c && c <= 'z') || ('A' <= c && c <= 'Z')
}

/// The ASCII letters and digits of `s`, lower-cased.
pub open spec fn normalize(s: Seq<char>) -> Seq<char>
    decreases s.len(),
{
    if s.len() == 0 {
        seq![]
    } else if is_ascii_alnum(s.last()) {
        normalize(s.drop_last()).push(lower_ascii(s.last()))
    } else {
        normalize(s.drop_last())
    }
}

pub fn normalize_chars(s: &[char]) -> (r: Vec<char>)
    ensures
        r@ == normalize(s@),
{
    let mut r: Vec<char> = Vec::new();
    for i in 0..s.len()
        invariant
            r@ == normalize(s@.take(i as int)),
    {
        proof {
            assert(s@.take(i + 1).drop_last() =~= s@.take(i as int));
            assert(s@.take(i + 1).last() == s@[i as int]);
        }
        let c = s[i];
        if ('0' <= c && c <= '9') || ('a' <= c && c <= 'z') || ('A' <= c && c <= 'Z') {
            r.push(lower_ascii_exec(c));
        }
    }
    proof {
        assert(s@.take(s@.len() as int) =~= s@);
    }
    r
}

/// Element names that delimit an interval.
pub open spec fn layer_name(local: Seq<char>) -> bool {
    let n = normalize(local);
    n == "layer"@ || n == "geologicalinterval"@ || n == "interval"@
}

pub fn is_layer_name(local: &[char]) -> (r: bool)
    ensures
        r == layer_name(local@),
{
    let n = normalize_chars(local);
    eq_chars(&n, &chars_of("layer")) || eq_chars(&n, &chars_of("geologicalinterval")) || eq_chars(
        &n,
        &chars_of("interval"),
    )
}

/// A leaf inside a layer: its path below the layer, its full path and its
/// trimmed text.
pub struct LeafModel {
    pub rel: Seq<char>,
    pub abs: Seq<char>,
    pub value: Seq<char>,
}

pub struct BuilderModel {
    pub depth: nat,
    pub path: Seq<char>,
    pub leaves: Seq<LeafModel>,
}

pub struct IntervalModel {
    pub upper: Number,
    pub lower: Number,
    pub lithology: Option<Seq<char>>,
    pub colour: Option<Seq<char>>,
    pub description: Option<Seq<char>>,
    /// (key, value) pairs; the last value of a key holds.
    pub extensions: Seq<(Seq<char>, Seq<char>)>,
}

/// The path has a segment whose normalized form is one of `names`.
pub open spec fn has_segment(path: Seq<char>, names: Seq<Seq<char>>) -> bool {
    exists|i: int| 0 <= i < split_on(path, '/').len() && names.contains(#[trigger] normalize(split_on(path, '/')[i]))
}

/// Index of the first leaf whose path below the layer has such a segment.
pub open spec fn find_field(leaves: Seq<LeafModel>, names: Seq<Seq<char>>, i: int) -> int
    decreases leaves.len() - i,
{
    if i < 0 || i >= leaves.len() {
        leaves.len() as int
    } else if has_segment(leaves[i].rel, names) {
        i
    } else {
        find_field(leaves, names, i + 1)
    }
}

pub open spec fn field_value(leaves: Seq<LeafModel>, names: Seq<Seq<char>>) -> Option<Seq<char>> {
    let j = find_field(leaves, names, 0);
    if 0 <= j < leaves.len() {
        Some(leaves[j].value)
    } else {
        None
    }
}

/// The path below the layer without its `layer` segments.
pub open spec fn extension_key(path: Seq<char>) -> Seq<char> {
    join(split_on(path, '/').filter(|s: Seq<char>| normalize(s) != "layer"@), '/')
}

pub open spec fn known_names() -> Seq<Seq<char>> {
    seq!["upperboundary"@, "lowerboundary"@, "lithology"@, "colour"@, "color"@, "description"@]
}

/// Leaves not read into a typed field become extensions.
pub open spec fn interval_extensions(leaves: Seq<LeafModel>) -> Seq<(Seq<char>, Seq<char>)>
    decreases leaves.len(),
{
    if leaves.len() == 0 {
        seq![]
    } else {
        let r = interval_extensions(leaves.drop_last());
        if has_segment(leaves.last().rel, known_names()) {
            r
        } else {
            r.push((extension_key(leaves.last().rel), leaves.last().value))
        }
    }
}

/// Decimal digits of a power of ten.
pub open spec fn dec_digits(d: int) -> nat
    decreases d,
{
    if d <= 1 {
        0
    } else {
        1 + dec_digits(d / 10)
    }
}

/// `s` without trailing `'0'`.
pub open spec fn strip_zeros(s: Seq<char>) -> Seq<char>
    decreases s.len(),
{
    if s.len() > 0 && s.last() == '0' {
        strip_zeros(s.drop_last())
    } else {
        s
    }
}

/// A decimal number as Rust displays an `f64` of up to 15 significant
/// digits: no trailing zeros, no exponent.
pub open spec fn plain_text(n: Number) -> Seq<char> {
    let a: int = if n.num < 0 {
        -n.num
    } else {
        n.num as int
    };
    let k = dec_digits(n.den as int);
    let f = a % (n.den as int);
    (if n.num < 0 {
        seq!['-']
    } else {
        seq![]
    }) + nat_text((a / (n.den as int)) as nat) + (if f == 0 {
        seq![]
    } else {
        seq!['.'] + strip_zeros(padded(f as nat, k))
    })
}

/// A boundary: present, a number, and finite; `Ok(None)` for a finite
/// number the library does not hold exactly (too large or too precise).
pub open spec fn boundary_spec(leaf: Option<LeafModel>, fallback: Seq<char>) -> Result<
    Option<(Number, Seq<char>)>,
    BroFailure,
> {
    match leaf {
        None => Err(BroFailure::MissingField(fallback)),
        Some(l) => match parse_spec(trim(l.value)) {
            Parsed::Finite(n) => Ok(Some((n, l.abs))),
            Parsed::NonFinite => Err(BroFailure::InvalidValue(l.abs, l.value)),
            Parsed::OutOfRange => Ok(None),
            Parsed::Invalid => Err(BroFailure::InvalidValue(l.abs, trim(l.value))),
        },
    }
}

pub open spec fn field_leaf(leaves: Seq<LeafModel>, names: Seq<Seq<char>>) -> Option<LeafModel> {
    let j = find_field(leaves, names, 0);
    if 0 <= j < leaves.len() {
        Some(leaves[j])
    } else {
        None
    }
}

/// The interval a finished layer makes: none without boundaries; both
/// boundaries are required, finite, and the lower one below the upper. A
/// layer with a boundary the library does not hold exactly makes none.
pub open spec fn interval_spec(b: BuilderModel) -> Result<Option<IntervalModel>, BroFailure> {
    let up = field_leaf(b.leaves, seq!["upperboundary"@]);
    let lo = field_leaf(b.leaves, seq!["lowerboundary"@]);
    if up is None && lo is None {
        Ok(None)
    } else {
        match boundary_spec(up, b.path + "/upperBoundary"@) {
            Err(f) => Err(f),
            Ok(None) => match boundary_spec(lo, b.path + "/lowerBoundary"@) {
                Err(f) => Err(f),
                Ok(_) => Ok(None),
            },
            Ok(Some((u, _))) => match boundary_spec(lo, b.path + "/lowerBoundary"@) {
                Err(f) => Err(f),
                Ok(None) => Ok(None),
                Ok(Some((l, lp))) => if num_le(l, u) {
                    Err(BroFailure::InvalidValue(lp, plain_text(l)))
                } else {
                    Ok(
                        Some(
                            IntervalModel {
                                upper: u,
                                lower: l,
                                lithology: field_value(b.leaves, seq!["lithology"@]),
                                colour: field_value(b.leaves, seq!["colour"@, "color"@]),
                                description: field_value(b.leaves, seq!["description"@]),
                                extensions: interval_extensions(b.leaves),
                            },
                        ),
                    )
                },
            },
        }
    }
}

/// A layer being read: its depth in the element stack, its path, and its
/// leaves so far.
pub struct Builder {
    pub depth: usize,
    pub path: Vec<char>,
    pub leaves: Vec<(Vec<char>, Vec<char>, Vec<char>)>,
}

pub open spec fn leaf_view(l: (Vec<char>, Vec<char>, Vec<char>)) -> LeafModel {
    LeafModel { rel: l.0@, abs: l.1@, value: l.2@ }
}

pub open spec fn builder_view(b: Builder) -> BuilderModel {
    BuilderModel { depth: b.depth as nat, path: b.path@, leaves: b.leaves@.map_values(|l: (Vec<char>, Vec<char>, Vec<char>)| leaf_view(l)) }
}

pub open spec fn builders_view(bs: Seq<Builder>) -> Seq<BuilderModel> {
    bs.map_values(|b: Builder| builder_view(b))
}

pub open spec fn interval_view(g: GeologicalInterval, m: IntervalModel) -> bool {
    &&& g.upper_boundary == m.upper
    &&& g.lower_boundary == m.lower
    &&& opt_string(g.lithology) == m.lithology
    &&& opt_string(g.colour) == m.colour
    &&& opt_string(g.description) == m.description
    &&& map_of_pairs(g.extensions, m.extensions)
}

pub open spec fn interval_simple(g: GeologicalInterval) -> bool {
    simple(g.upper_boundary) && simple(g.lower_boundary)
}

fn find_field_exec(leaves: &Vec<(Vec<char>, Vec<char>, Vec<char>)>, names: &Vec<Vec<char>>) -> (r: usize)
    ensures
        r == find_field(leaves@.map_values(|l: (Vec<char>, Vec<char>, Vec<char>)| leaf_view(l)), views(names@), 0),
        r <= leaves@.len(),
{
    let ghost lv = leaves@.map_values(|l: (Vec<char>, Vec<char>, Vec<char>)| leaf_view(l));
    for i in 0..leaves.len()
        invariant
            lv == leaves@.map_values(|l: (Vec<char>, Vec<char>, Vec<char>)| leaf_view(l)),
            find_field(lv, views(names@), 0) == find_field(lv, views(names@), i as int),
    {
        if has_segment_exec(&leaves[i].0, names) {
            return i;
        }
    }
    leaves.len()
}

fn contains_word(names: &Vec<Vec<char>>, w: &[char]) -> (r: bool)
    ensures
        r == views(names@).contains(w@),
{
    for i in 0..names.len()
        invariant
            forall|j: int| 0 <= j < i ==> #[trigger] views(names@)[j] != w@,
    {
        if eq_chars(&names[i], w) {
            proof {
                assert(views(names@)[i as int] == w@);
            }
            return true;
        }
    }
    false
}

fn has_segment_exec(path: &[char], names: &Vec<Vec<char>>) -> (r: bool)
    ensures
        r == has_segment(path@, views(names@)),
{
    let segs = split_chars(path, '/');
    for i in 0..segs.len()
        invariant
            views(segs@) == split_on(path@, '/'),
            forall|j: int|
                0 <= j < i ==> !views(names@).contains(#[trigger] normalize(split_on(path@, '/')[j])),
    {
        let n = normalize_chars(&segs[i]);
        if contains_word(names, &n) {
            proof {
                assert(split_on(path@, '/')[i as int] == segs@[i as int]@);
                assert(views(names@).contains(normalize(split_on(path@, '/')[i as int])));
            }
            return true;
        }
    }
    false
}

fn extension_key_exec(path: &[char]) -> (r: Vec<char>)
    ensures
        r@ == extension_key(path@),
{
    let segs = split_chars(path, '/');
    let mut kept: Vec<Vec<char>> = Vec::new();
    let layer = chars_of("layer");
    for i in 0..segs.len()
        invariant
            views(segs@) == split_on(path@, '/'),
            layer@ == "layer"@,
            views(kept@) == split_on(path@, '/').take(i as int).filter(|s: Seq<char>| normalize(s) != "layer"@),
    {
        let ghost pre = split_on(path@, '/').take(i as int);
        let ghost next = split_on(path@, '/').take(i + 1);
        proof {
            assert(next.drop_last() =~= pre);
            reveal(Seq::filter);
            assert(next.last() == segs@[i as int]@);
        }
        let n = normalize_chars(&segs[i]);
        if !eq_chars(&n, &layer) {
            let ghost before = views(kept@);
            kept.push(segs[i].clone());
            proof {
                assert(views(kept@) =~= before.push(segs@[i as int]@));
            }
        }
    }
    proof {
        assert(split_on(path@, '/').take(segs@.len() as int) =~= split_on(path@, '/'));
    }
    let r = join_from(&kept, 0, '/');
    proof {
        assert(views(kept@).subrange(0, kept@.len() as int) =~= views(kept@));
    }
    r
}

fn strip_zeros_exec(s: &Vec<char>) -> (r: Vec<char>)
    ensures
        r@ == strip_zeros(s@),
{
    let mut k = s.len();
    proof {
        assert(s@.take(k as int) =~= s@);
    }
    while k > 0 && s[k - 1] == '0'
        invariant
            k <= s@.len(),
            strip_zeros(s@) == strip_zeros(s@.take(k as int)),
        decreases k,
    {
        proof {
            assert(s@.take(k as int).drop_last() =~= s@.take(k - 1));
        }
        k = k - 1;
    }
    proof {
        assert(s@.take(k as int) =~= s@.subrange(0, k as int));
    }
    crate::text::slice_vec(s, 0, k)
}

fn dec_digits_exec(d: i128) -> (r: u32)
    requires
        0 < d <= pow10(18),
    ensures
        r as nat == dec_digits(d as int),
        r <= 18,
{
    let mut x = d;
    let mut k: u32 = 0;
    proof {
        crate::number::lemma_pow_facts();
        reveal_with_fuel(pow10, 1);
    }
    while x > 1
        invariant
            0 <= x <= d,
            d <= pow10(18),
            pow10(18) == 1000000000000000000,
            k + dec_digits(x as int) == dec_digits(d as int),
            k <= 18,
            x > 0 ==> x as int * pow10(k as nat) <= d,
        decreases x,
    {
        proof {
            crate::number::lemma_pow10_pos(k as nat);
            assert(pow10((k + 1) as nat) == 10 * pow10(k as nat));
            assert((x / 10) * pow10((k + 1) as nat) <= x * pow10(k as nat)) by (nonlinear_arith)
                requires
                    x > 1,
                    pow10((k + 1) as nat) == 10 * pow10(k as nat),
                    pow10(k as nat) >= 1,
            ;
            if k >= 18 {
                crate::number::lemma_pow10_mono(18, k as nat);
                assert(x as int * pow10(k as nat) >= 2 * pow10(18)) by (nonlinear_arith)
                    requires
                        x >= 2,
                        pow10(k as nat) >= pow10(18),
                        pow10(18) > 0,
                ;
            }
        }
        x = x / 10;
        k = k + 1;
    }
    k
}

/// Writes a number as Rust displays an `f64` of the same decimal value.
pub fn plain_chars(n: Number) -> (r: Vec<char>)
    requires
        simple(n),
    ensures
        r@ == plain_text(n),
{
    proof {
        crate::number::lemma_pow_facts();
    }
    let a: i128 = if n.num < 0 {
        -n.num
    } else {
        n.num
    };
    let k = dec_digits_exec(n.den);
    let f = a % n.den;
    let mut out: Vec<char> = Vec::new();
    if n.num < 0 {
        out.push('-');
    }
    let mut ip = nat_chars((a / n.den) as u128);
    out.append(&mut ip);
    if f != 0 {
        out.push('.');
        let p = padded_chars(f as u128, k);
        let mut t = strip_zeros_exec(&p);
        out.append(&mut t);
    }
    proof {
        assert(out@ =~= plain_text(n));
    }
    out
}

fn words1(a: &str) -> (r: Vec<Vec<char>>)
    ensures
        views(r@) == seq![a@],
{
    let mut r: Vec<Vec<char>> = Vec::new();
    r.push(chars_of(a));
    proof {
        assert(views(r@) =~= seq![a@]);
    }
    r
}

fn known_words() -> (r: Vec<Vec<char>>)
    ensures
        views(r@) == known_names(),
{
    let mut r: Vec<Vec<char>> = Vec::new();
    r.push(chars_of("upperboundary"));
    r.push(chars_of("lowerboundary"));
    r.push(chars_of("lithology"));
    r.push(chars_of("colour"));
    r.push(chars_of("color"));
    r.push(chars_of("description"));
    proof {
        assert(views(r@) =~= known_names());
    }
    r
}

fn boundary(
    leaves: &Vec<(Vec<char>, Vec<char>, Vec<char>)>,
    j: usize,
    fallback: &[char],
) -> (r: Result<Option<(Number, Vec<char>)>, BroError>)
    requires
        j <= leaves@.len(),
    ensures
        match r {
            Ok(Some((n, p))) => boundary_spec(
                if j < leaves@.len() {
                    Some(leaf_view(leaves@[j as int]))
                } else {
                    None
                },
                fallback@,
            ) == Ok::<Option<(Number, Seq<char>)>, BroFailure>(Some((n, p@))) && simple(n),
            Ok(None) => boundary_spec(
                if j < leaves@.len() {
                    Some(leaf_view(leaves@[j as int]))
                } else {
                    None
                },
                fallback@,
            ) == Ok::<Option<(Number, Seq<char>)>, BroFailure>(None),
            Err(e) => boundary_spec(
                if j < leaves@.len() {
                    Some(leaf_view(leaves@[j as int]))
                } else {
                    None
                },
                fallback@,
            ) == Err::<Option<(Number, Seq<char>)>, BroFailure>(e@),
        },
{
    if j >= leaves.len() {
        return Err(BroError::MissingField { path: string_of(fallback) });
    }
    let (_, abs, value) = &leaves[j];
    let t = trim_chars(value);
    proof {
        lemma_parse_simple(t@);
    }
    match parse_number(&t) {
        Parsed::Finite(n) => Ok(Some((n, abs.clone()))),
        Parsed::NonFinite => Err(BroError::InvalidValue { path: string_of(abs), value: string_of(value) }),
        Parsed::OutOfRange => Ok(None),
        Parsed::Invalid => Err(BroError::InvalidValue { path: string_of(abs), value: string_of(&t) }),
    }
}

fn first_value(leaves: &Vec<(Vec<char>, Vec<char>, Vec<char>)>, names: &Vec<Vec<char>>) -> (r: Option<String>)
    ensures
        opt_string(r) == field_value(
            leaves@.map_values(|l: (Vec<char>, Vec<char>, Vec<char>)| leaf_view(l)),
            views(names@),
        ),
{
    let j = find_field_exec(leaves, names);
    if j < leaves.len() {
        Some(string_of(&leaves[j].2))
    } else {
        None
    }
}

fn extensions_of_leaves(leaves: &Vec<(Vec<char>, Vec<char>, Vec<char>)>) -> (r: KeyedVec<String>)
    ensures
        map_of_pairs(r, interval_extensions(leaves@.map_values(|l: (Vec<char>, Vec<char>, Vec<char>)| leaf_view(l)))),
{
    let ghost lv = leaves@.map_values(|l: (Vec<char>, Vec<char>, Vec<char>)| leaf_view(l));
    let known = known_words();
    let mut m: KeyedVec<String> = KeyedVec::new();
    proof {
        assert(lv.take(0) =~= Seq::<LeafModel>::empty());
        assert forall|k: Seq<char>| #[trigger] opt_string(m.get_spec(k)) == last_pair(
            interval_extensions(lv.take(0)),
            k,
        ) by {
            crate::keyed::lemma_lookup_absent(m.entries(), k);
        }
    }
    for i in 0..leaves.len()
        invariant
            lv == leaves@.map_values(|l: (Vec<char>, Vec<char>, Vec<char>)| leaf_view(l)),
            views(known@) == known_names(),
            map_of_pairs(m, interval_extensions(lv.take(i as int))),
    {
        let ghost pre = lv.take(i as int);
        let ghost next = lv.take(i + 1);
        proof {
            assert(next.drop_last() =~= pre);
            assert(next.last() == leaf_view(leaves@[i as int]));
        }
        let (rel, _, value) = &leaves[i];
        if !has_segment_exec(rel, &known) {
            let key = extension_key_exec(rel);
            proof {
                assert(interval_extensions(next) == interval_extensions(pre).push((key@, value@)));
                assert(interval_extensions(next).drop_last() =~= interval_extensions(pre));
            }
            let ghost m0 = m;
            let ks = string_of(&key);
            let vs = string_of(value);
            let ghost vsv = vs;
            m.insert(ks, vs);
            proof {
                assert forall|k: Seq<char>| #[trigger] opt_string(m.get_spec(k)) == last_pair(
                    interval_extensions(next),
                    k,
                ) by {
                    if k != key@ {
                        assert(opt_string(m0.get_spec(k)) == last_pair(interval_extensions(pre), k));
                    } else {
                        assert(m.get_spec(k) == Some(vsv));
                    }
                }
            }
        } else {
            proof {
                assert(interval_extensions(next) == interval_extensions(pre));
            }
        }
    }
    proof {
        assert(lv.take(leaves@.len() as int) =~= lv);
    }
    m
}

/// The interval of a finished layer.
pub fn build_interval(b: &Builder) -> (r: Result<Option<GeologicalInterval>, BroError>)
    ensures
        match r {
            Ok(o) => match interval_spec(builder_view(*b)) {
                Ok(None) => o is None,
                Ok(Some(m)) => o matches Some(g) && interval_view(g, m) && interval_simple(g),
                Err(_) => false,
            },
            Err(e) => interval_spec(builder_view(*b)) == Err::<Option<IntervalModel>, BroFailure>(e@),
        },
{
    let upn = words1("upperboundary");
    let lon = words1("lowerboundary");
    let ju = find_field_exec(&b.leaves, &upn);
    let jl = find_field_exec(&b.leaves, &lon);
    if ju >= b.leaves.len() && jl >= b.leaves.len() {
        return Ok(None);
    }
    let mut up_path = b.path.clone();
    push_str(&mut up_path, "/upperBoundary");
    let upper = match boundary(&b.leaves, ju, &up_path) {
        Ok(x) => x,
        Err(e) => {
            return Err(e);
        },
    };
    let mut lo_path = b.path.clone();
    push_str(&mut lo_path, "/lowerBoundary");
    let lower = match boundary(&b.leaves, jl, &lo_path) {
        Ok(x) => x,
        Err(e) => {
            return Err(e);
        },
    };
    let (u, l, lp) = match (upper, lower) {
        (Some((u, _)), Some((l, lp))) => (u, l, lp),
        _ => {
            return Ok(None);
        },
    };
    if num_le_exec(l, u) {
        let t = plain_chars(l);
        return Err(BroError::InvalidValue { path: string_of(&lp), value: string_of(&t) });
    }
    let lithology = first_value(&b.leaves, &words1("lithology"));
    let mut cn = words1("colour");
    let ghost cn0 = views(cn@);
    let color = chars_of("color");
    cn.push(color);
    proof {
        assert(views(cn@) =~= cn0.push(color@));
        assert(views(cn@) =~= seq!["colour"@, "color"@]);
    }
    let colour = first_value(&b.leaves, &cn);
    let description = first_value(&b.leaves, &words1("description"));
    let extensions = extensions_of_leaves(&b.leaves);
    Ok(
        Some(
            GeologicalInterval {
                upper_boundary: u,
                lower_boundary: l,
                lithology,
                colour,
                description,
                extensions,
            },
        ),
    )
}

/// The state of reading intervals: open elements, their text, the open
/// layers and the finished intervals.
#[verifier::ext_equal]
pub struct IntervalsModel {
    pub stack: Seq<Seq<char>>,
    pub text: Seq<Seq<char>>,
    pub builders: Seq<BuilderModel>,
    pub done: Seq<IntervalModel>,
}

/// An open layer strictly above the closing element records its text.
pub open spec fn with_leaf(b: BuilderModel, stack: Seq<Seq<char>>, value: Seq<char>) -> BuilderModel {
    if stack.len() > b.depth {
        BuilderModel {
            depth: b.depth,
            path: b.path,
            leaves: b.leaves.push(
                LeafModel {
                    rel: join(stack.subrange(b.depth as int, stack.len() as int), '/'),
                    abs: join(stack, '/'),
                    value: value,
                },
            ),
        }
    } else {
        b
    }
}

pub open spec fn add_leaf(bs: Seq<BuilderModel>, stack: Seq<Seq<char>>, value: Seq<char>) -> Seq<BuilderModel> {
    bs.map_values(|b: BuilderModel| with_leaf(b, stack, value))
}

/// Index of the last open layer at `depth`.
pub open spec fn last_at(bs: Seq<BuilderModel>, depth: nat) -> Option<int>
    decreases bs.len(),
{
    if bs.len() == 0 {
        None
    } else if bs.last().depth == depth {
        Some(bs.len() - 1)
    } else {
        last_at(bs.drop_last(), depth)
    }
}

pub enum IStep {
    Next(IntervalsModel),
    Done(IntervalsModel),
    Fail(BroFailure),
}

/// Closing an element: its text goes to the open layers above it; a
/// closing layer becomes an interval.
pub open spec fn close_step(m: IntervalsModel) -> IStep {
    let value = if m.text.len() > 0 {
        trim(m.text.last())
    } else {
        seq![]
    };
    let text = if m.text.len() > 0 {
        m.text.drop_last()
    } else {
        m.text
    };
    let bs = if value.len() > 0 {
        add_leaf(m.builders, m.stack, value)
    } else {
        m.builders
    };
    let stack = if m.stack.len() > 0 {
        m.stack.drop_last()
    } else {
        m.stack
    };
    if m.stack.len() > 0 && layer_name(m.stack.last()) {
        match last_at(bs, m.stack.len()) {
            Some(k) => match interval_spec(bs[k]) {
                Err(f) => IStep::Fail(f),
                Ok(None) => IStep::Next(IntervalsModel { stack: stack, text: text, builders: bs.remove(k), done: m.done }),
                Ok(Some(iv)) => IStep::Next(
                    IntervalsModel { stack: stack, text: text, builders: bs.remove(k), done: m.done.push(iv) },
                ),
            },
            None => IStep::Next(IntervalsModel { stack: stack, text: text, builders: bs, done: m.done }),
        }
    } else {
        IStep::Next(IntervalsModel { stack: stack, text: text, builders: bs, done: m.done })
    }
}

pub open spec fn intervals_step(m: IntervalsModel, pos: u64, e: XmlEvent) -> IStep {
    match e {
        XmlEvent::Start(el) => {
            let l = local_name_spec(el.name@);
            let stack = m.stack.push(l);
            IStep::Next(
                IntervalsModel {
                    stack: stack,
                    text: m.text.push(seq![]),
                    builders: if layer_name(l) {
                        m.builders.push(BuilderModel { depth: stack.len(), path: join(stack, '/'), leaves: seq![] })
                    } else {
                        m.builders
                    },
                    done: m.done,
                },
            )
        },
        XmlEvent::Text(r) => if m.text.len() > 0 {
            match r {
                Err(msg) => IStep::Fail(BroFailure::InvalidXml(Some(pos), msg@)),
                Ok(t) => IStep::Next(
                    IntervalsModel { text: m.text.update(m.text.len() - 1, m.text.last() + t@), ..m },
                ),
            }
        } else {
            IStep::Next(m)
        },
        XmlEvent::End => close_step(m),
        XmlEvent::Eof => IStep::Done(m),
        _ => IStep::Next(m),
    }
}

pub open spec fn intervals_from(toks: Tokens, i: int, m: IntervalsModel) -> Result<Seq<IntervalModel>, BroFailure>
    decreases toks.events@.len() - i,
{
    if i < 0 || i >= toks.events@.len() {
        match toks.error {
            Some((p, msg)) => Err(BroFailure::InvalidXml(Some(p), msg@)),
            None => Ok(m.done),
        }
    } else {
        match intervals_step(m, toks.events@[i].pos, toks.events@[i].event) {
            IStep::Next(m2) => intervals_from(toks, i + 1, m2),
            IStep::Done(m2) => Ok(m2.done),
            IStep::Fail(f) => Err(f),
        }
    }
}

/// The intervals of a document's layers, in the order the layers close.
pub open spec fn intervals_spec(toks: Tokens) -> Result<Seq<IntervalModel>, BroFailure> {
    intervals_from(toks, 0, IntervalsModel { stack: seq![], text: seq![], builders: seq![], done: seq![] })
}

pub open spec fn intervals_as(gs: Seq<GeologicalInterval>, ms: Seq<IntervalModel>) -> bool {
    &&& gs.len() == ms.len()
    &&& forall|i: int| 0 <= i < gs.len() ==> interval_view(#[trigger] gs[i], ms[i]) && interval_simple(gs[i])
}

struct IState {
    stack: Vec<Vec<char>>,
    text: Vec<Vec<char>>,
    builders: Vec<Builder>,
    done: Vec<GeologicalInterval>,
}

spec fn istate_model(s: IState, done: Seq<IntervalModel>) -> IntervalsModel {
    IntervalsModel { stack: views(s.stack@), text: views(s.text@), builders: builders_view(s.builders@), done: done }
}

fn record_leaf(bs: Vec<Builder>, stack: &Vec<Vec<char>>, value: &Vec<char>) -> (r: Vec<Builder>)
    ensures
        builders_view(r@) == add_leaf(builders_view(bs@), views(stack@), value@),
{
    let abs = join_from(stack, 0, '/');
    proof {
        assert(views(stack@).subrange(0, stack@.len() as int) =~= views(stack@));
    }
    let mut out: Vec<Builder> = Vec::new();
    let mut rest = bs;
    let ghost orig = builders_view(rest@);
    while rest.len() > 0
        invariant
            abs@ == join(views(stack@), '/'),
            orig.len() == out@.len() + rest@.len(),
            builders_view(out@) == orig.take(out@.len() as int).map_values(|b: BuilderModel| with_leaf(b, views(stack@), value@)),
            builders_view(rest@) == orig.subrange(out@.len() as int, orig.len() as int),
        decreases rest@.len(),
    {
        let ghost k: int = out@.len() as int;
        let ghost rv = builders_view(rest@);
        let ghost r0 = rest@;
        let mut b = rest.remove(0);
        proof {
            assert(b == r0[0]);
            assert(rv[0] == builder_view(r0[0]));
            assert(rv[0] == orig[k as int]);
            assert(rest@ =~= r0.subrange(1, r0.len() as int));
            assert(builder_view(b) == orig[k as int]);
            assert forall|j: int| 0 <= j < rest@.len() implies #[trigger] builders_view(rest@)[j] == orig[k + 1 + j] by {
                assert(rest@[j] == r0[j + 1]);
                assert(rv[j + 1] == orig[k + 1 + j]);
            }
            assert(builders_view(rest@) =~= orig.subrange(k + 1, orig.len() as int));
        }
        if stack.len() > b.depth {
            let rel = join_from(stack, b.depth, '/');
            let ghost lv0 = b.leaves@.map_values(|l: (Vec<char>, Vec<char>, Vec<char>)| leaf_view(l));
            let entry = (rel, abs.clone(), value.clone());
            b.leaves.push(entry);
            proof {
                assert(b.leaves@.map_values(|l: (Vec<char>, Vec<char>, Vec<char>)| leaf_view(l)) =~= lv0.push(
                    leaf_view(entry),
                ));
            }
        }
        let ghost o0 = builders_view(out@);
        proof {
            assert(builder_view(b) == with_leaf(orig[k as int], views(stack@), value@));
        }
        out.push(b);
        proof {
            assert(builders_view(out@) =~= o0.push(with_leaf(orig[k as int], views(stack@), value@)));
            assert(orig.take(k + 1).map_values(|b: BuilderModel| with_leaf(b, views(stack@), value@)) =~= orig.take(k as int).map_values(|b: BuilderModel| with_leaf(b, views(stack@), value@)).push(with_leaf(orig[k as int], views(stack@), value@)));
        }
    }
    proof {
        assert(orig.take(out@.len() as int) =~= orig);
        assert(add_leaf(orig, views(stack@), value@) =~= orig.map_values(|b: BuilderModel| with_leaf(b, views(stack@), value@)));
    }
    out
}

fn last_at_exec(bs: &Vec<Builder>, depth: usize) -> (r: Option<usize>)
    ensures
        match r {
            Some(k) => last_at(builders_view(bs@), depth as nat) == Some(k as int) && k < bs@.len(),
            None => last_at(builders_view(bs@), depth as nat) is None,
        },
{
    let mut i = bs.len();
    proof {
        assert(builders_view(bs@).take(i as int) =~= builders_view(bs@));
    }
    while i > 0
        invariant
            i <= bs@.len(),
            last_at(builders_view(bs@), depth as nat) == last_at(builders_view(bs@).take(i as int), depth as nat),
        decreases i,
    {
        let ghost t = builders_view(bs@).take(i as int);
        proof {
            assert(t.drop_last() =~= builders_view(bs@).take(i - 1));
            assert(t.last() == builder_view(bs@[i - 1]));
        }
        if bs[i - 1].depth == depth {
            return Some(i - 1);
        }
        i = i - 1;
    }
    proof {
        assert(builders_view(bs@).take(0) =~= Seq::<BuilderModel>::empty());
    }
    None
}

fn close_layer(st: &mut IState, Ghost(d): Ghost<Seq<IntervalModel>>) -> (r: Result<Ghost<Seq<IntervalModel>>, BroError>)
    requires
        intervals_as(old(st).done@, d),
    ensures
        match close_step(istate_model(*old(st), d)) {
            IStep::Next(m2) => r matches Ok(g) && g@ == m2.done && istate_model(*final(st), g@) == m2
                && intervals_as(final(st).done@, g@),
            IStep::Fail(f) => r matches Err(e) && e@ == f,
            IStep::Done(_) => false,
        },
{
    let ghost m = istate_model(*st, d);
    let ghost t0 = views(st.text@);
    let value = match st.text.pop() {
        Some(t) => trim_chars(&t),
        None => Vec::new(),
    };
    proof {
        if t0.len() > 0 {
            assert(views(st.text@) =~= t0.drop_last());
        }
    }
    if value.len() > 0 {
        let mut bs: Vec<Builder> = Vec::new();
        std::mem::swap(&mut bs, &mut st.builders);
        st.builders = record_leaf(bs, &st.stack, &value);
    }
    let ghost bsm = builders_view(st.builders@);
    let mut done_model = Ghost(d);
    let n = st.stack.len();
    if n > 0 && is_layer_name(&st.stack[n - 1]) {
        proof {
            assert(views(st.stack@).last() == st.stack@[n - 1]@);
        }
        match last_at_exec(&st.builders, n) {
            Some(k) => {
                let ghost b0 = st.builders@;
                let b = st.builders.remove(k);
                proof {
                    assert(builders_view(st.builders@) =~= bsm.remove(k as int));
                    assert(builder_view(b) == bsm[k as int]);
                }
                match build_interval(&b) {
                    Err(e) => {
                        return Err(e);
                    },
                    Ok(None) => {},
                    Ok(Some(g)) => {
                        let ghost iv = match interval_spec(builder_view(b)) {
                            Ok(Some(x)) => x,
                            _ => arbitrary(),
                        };
                        st.done.push(g);
                        done_model = Ghost(d.push(iv));
                        proof {
                            assert forall|i: int| 0 <= i < st.done@.len() implies interval_view(
                                #[trigger] st.done@[i],
                                done_model@[i],
                            ) && interval_simple(st.done@[i]) by {
                                if i < d.len() {
                                    assert(st.done@[i] == old(st).done@[i]);
                                }
                            }
                        }
                    },
                }
            },
            None => {},
        }
    }
    let ghost s0 = views(st.stack@);
    st.stack.pop();
    proof {
        if s0.len() > 0 {
            assert(views(st.stack@) =~= s0.drop_last());
        }
    }
    Ok(done_model)
}

fn open_layer(st: &mut IState, e: &crate::xml::Element, Ghost(d): Ghost<Seq<IntervalModel>>)
    ensures
        intervals_step(istate_model(*old(st), d), 0, XmlEvent::Start(*e)) == IStep::Next(
            istate_model(*final(st), d),
        ),
        final(st).done == old(st).done,
{
    let l = local_name(&e.name);
    let ghost s0 = views(st.stack@);
    st.stack.push(l.clone());
    proof {
        assert(views(st.stack@) =~= s0.push(l@));
    }
    let ghost t0 = views(st.text@);
    st.text.push(Vec::new());
    proof {
        assert(views(st.text@) =~= t0.push(seq![]));
    }
    if is_layer_name(&l) {
        let path = join_from(&st.stack, 0, '/');
        proof {
            assert(views(st.stack@).subrange(0, st.stack@.len() as int) =~= views(st.stack@));
        }
        let ghost b0 = builders_view(st.builders@);
        let b = Builder { depth: st.stack.len(), path, leaves: Vec::new() };
        st.builders.push(b);
        proof {
            assert(b.leaves@.map_values(|l: (Vec<char>, Vec<char>, Vec<char>)| leaf_view(l)) =~= Seq::<LeafModel>::empty());
            assert(builders_view(st.builders@) =~= b0.push(builder_view(b)));
        }
    }
}

/// Reads the intervals of a document's layers from its events, in the
/// order the layers close.
pub fn intervals_from_events(toks: &Tokens) -> (r: Result<Vec<GeologicalInterval>, BroError>)
    ensures
        match r {
            Ok(gs) => intervals_spec(*toks) matches Ok(ms) && intervals_as(gs@, ms),
            Err(e) => intervals_spec(*toks) matches Err(f) && e@ == f,
        },
{
    let mut st = IState { stack: Vec::new(), text: Vec::new(), builders: Vec::new(), done: Vec::new() };
    let ghost empty: Seq<IntervalModel> = seq![];
    let mut d: Ghost<Seq<IntervalModel>> = Ghost(empty);
    proof {
        assert(views(st.stack@) =~= Seq::<Seq<char>>::empty());
        assert(views(st.text@) =~= Seq::<Seq<char>>::empty());
        assert(builders_view(st.builders@) =~= Seq::<BuilderModel>::empty());
        assert(istate_model(st, d@) =~= IntervalsModel { stack: seq![], text: seq![], builders: seq![], done: seq![] });
    }
    let evs = &toks.events;
    for i in 0..evs.len()
        invariant
            evs@ == toks.events@,
            intervals_spec(*toks) == intervals_from(*toks, i as int, istate_model(st, d@)),
            intervals_as(st.done@, d@),
    {
        let t = &evs[i];
        match &t.event {
            XmlEvent::Start(e) => {
                open_layer(&mut st, e, d);
            },
            XmlEvent::Text(r) => {
                if st.text.len() > 0 {
                    match r {
                        Ok(s) => {
                            let ghost t0 = views(st.text@);
                            let mut cur = st.text.pop().unwrap();
                            push_all(&mut cur, s);
                            st.text.push(cur);
                            proof {
                                assert(views(st.text@) =~= t0.update(t0.len() - 1, t0.last() + s@));
                            }
                        },
                        Err(msg) => {
                            return Err(BroError::InvalidXml { position: Some(t.pos), message: string_of(msg) });
                        },
                    }
                }
            },
            XmlEvent::End => {
                match close_layer(&mut st, d) {
                    Ok(g) => {
                        d = g;
                    },
                    Err(e) => {
                        return Err(e);
                    },
                }
            },
            XmlEvent::Eof => {
                return Ok(st.done);
            },
            _ => {},
        }
    }
    match &toks.error {
        Some((p, msg)) => Err(BroError::InvalidXml { position: Some(*p), message: string_of(msg) }),
        None => Ok(st.done),
    }
}

pub open spec fn num_eq(a: Number, b: Number) -> bool {
    a.num * b.den == b.num * a.den
}

fn num_eq_exec(a: Number, b: Number) -> (r: bool)
    requires
        simple(a),
        simple(b),
    ensures
        r == num_eq(a, b),
{
    num_le_exec(a, b) && num_le_exec(b, a)
}

/// Two intervals describe the same layer: equal boundaries and lithology.
pub open spec fn same_interval(a: IntervalModel, b: IntervalModel) -> bool {
    num_eq(a.upper, b.upper) && num_eq(a.lower, b.lower) && a.lithology == b.lithology
}

pub open spec fn first_some(a: Option<Seq<char>>, b: Option<Seq<char>>) -> Option<Seq<char>> {
    match a {
        Some(v) => Some(v),
        None => b,
    }
}

/// The later of two descriptions of a layer fills what the earlier lacks;
/// its extensions are added.
pub open spec fn merge_interval(a: IntervalModel, b: IntervalModel) -> IntervalModel {
    IntervalModel {
        colour: first_some(a.colour, b.colour),
        description: first_some(a.description, b.description),
        extensions: a.extensions + b.extensions,
        ..a
    }
}

pub open spec fn find_same(ds: Seq<IntervalModel>, iv: IntervalModel, i: int) -> int
    decreases ds.len() - i,
{
    if i < 0 || i >= ds.len() {
        ds.len() as int
    } else if same_interval(ds[i], iv) {
        i
    } else {
        find_same(ds, iv, i + 1)
    }
}

pub open spec fn dedup_intervals(s: Seq<IntervalModel>) -> Seq<IntervalModel>
    decreases s.len(),
{
    if s.len() == 0 {
        seq![]
    } else {
        let d = dedup_intervals(s.drop_last());
        let j = find_same(d, s.last(), 0);
        if 0 <= j < d.len() {
            d.update(j, merge_interval(d[j], s.last()))
        } else {
            d.push(s.last())
        }
    }
}

pub open spec fn insert_by_upper(s: Seq<IntervalModel>, iv: IntervalModel) -> Seq<IntervalModel>
    decreases s.len(),
{
    if s.len() == 0 {
        seq![iv]
    } else if num_le(s.last().upper, iv.upper) {
        s.push(iv)
    } else {
        insert_by_upper(s.drop_last(), iv).push(s.last())
    }
}

/// Intervals by upper boundary, equal boundaries in their original order.
pub open spec fn sort_by_upper(s: Seq<IntervalModel>) -> Seq<IntervalModel>
    decreases s.len(),
{
    if s.len() == 0 {
        seq![]
    } else {
        insert_by_upper(sort_by_upper(s.drop_last()), s.last())
    }
}

proof fn lemma_last_pair_concat(a: Seq<(Seq<char>, Seq<char>)>, b: Seq<(Seq<char>, Seq<char>)>, k: Seq<char>)
    ensures
        last_pair(a + b, k) == (match last_pair(b, k) {
            Some(v) => Some(v),
            None => last_pair(a, k),
        }),
    decreases b.len(),
{
    if b.len() == 0 {
        assert(a + b =~= a);
    } else {
        assert((a + b).drop_last() =~= a + b.drop_last());
        assert((a + b).last() == b.last());
        lemma_last_pair_concat(a, b.drop_last(), k);
    }
}

fn find_same_exec(ds: &Vec<GeologicalInterval>, iv: &GeologicalInterval, Ghost(dm): Ghost<Seq<IntervalModel>>, Ghost(m): Ghost<IntervalModel>) -> (r: usize)
    requires
        intervals_as(ds@, dm),
        interval_view(*iv, m),
        interval_simple(*iv),
    ensures
        r == find_same(dm, m, 0),
        r <= ds@.len(),
{
    for i in 0..ds.len()
        invariant
            intervals_as(ds@, dm),
            interval_view(*iv, m),
            interval_simple(*iv),
            find_same(dm, m, 0) == find_same(dm, m, i as int),
    {
        let e = &ds[i];
        proof {
            assert(interval_view(ds@[i as int], dm[i as int]) && interval_simple(ds@[i as int]));
        }
        if num_eq_exec(e.upper_boundary, iv.upper_boundary) && num_eq_exec(e.lower_boundary, iv.lower_boundary)
            && opt_str_eq(&e.lithology, &iv.lithology) {
            return i;
        }
    }
    ds.len()
}

fn opt_str_eq(a: &Option<String>, b: &Option<String>) -> (r: bool)
    ensures
        r == (opt_string(*a) == opt_string(*b)),
{
    match (a, b) {
        (Some(x), Some(y)) => {
            let xc = chars_of(x.as_str());
            let yc = chars_of(y.as_str());
            eq_chars(&xc, &yc)
        },
        (None, None) => true,
        _ => false,
    }
}

fn merge_into(e: GeologicalInterval, iv: &GeologicalInterval, Ghost(em): Ghost<IntervalModel>, Ghost(m): Ghost<IntervalModel>) -> (r: GeologicalInterval)
    requires
        interval_view(e, em),
        interval_simple(e),
        interval_view(*iv, m),
    ensures
        interval_view(r, merge_interval(em, m)),
        interval_simple(r),
{
    let mut e = e;
    if e.colour.is_none() {
        e.colour = iv.colour.clone();
    }
    if e.description.is_none() {
        e.description = iv.description.clone();
    }
    let ghost x0 = e.extensions;
    e.extensions.extend_from(&iv.extensions);
    proof {
        assert forall|k: Seq<char>| #[trigger] opt_string(e.extensions.get_spec(k)) == last_pair(
            em.extensions + m.extensions,
            k,
        ) by {
            lemma_last_pair_concat(em.extensions, m.extensions, k);
            assert(opt_string(x0.get_spec(k)) == last_pair(em.extensions, k));
            assert(opt_string(iv.extensions.get_spec(k)) == last_pair(m.extensions, k));
        }
    }
    e
}

/// Merges intervals describing the same layer.
fn dedup_exec(s: Vec<GeologicalInterval>, Ghost(sm): Ghost<Seq<IntervalModel>>) -> (r: Vec<GeologicalInterval>)
    requires
        intervals_as(s@, sm),
    ensures
        intervals_as(r@, dedup_intervals(sm)),
{
    let mut d: Vec<GeologicalInterval> = Vec::new();
    let n0: usize = s.len();
    let mut rest = s;
    let ghost n = sm.len();
    let mut i: usize = 0;
    proof {
        assert(sm.take(0) =~= Seq::<IntervalModel>::empty());
    }
    while rest.len() > 0
        invariant
            n == sm.len(),
            n == n0,
            i + rest@.len() == n,
            intervals_as(rest@, sm.subrange(i as int, n as int)),
            intervals_as(d@, dedup_intervals(sm.take(i as int))),
        decreases rest@.len(),
    {
        let ghost r0 = rest@;
        let iv = rest.remove(0);
        let ghost m = sm[i as int];
        proof {
            assert(iv == r0[0]);
            assert(interval_view(r0[0], sm.subrange(i as int, n as int)[0]));
            assert(interval_simple(r0[0]));
            assert forall|j: int| 0 <= j < rest@.len() implies interval_view(#[trigger] rest@[j], sm.subrange(i + 1, n as int)[j])
                && interval_simple(rest@[j]) by {
                assert(rest@[j] == r0[j + 1]);
                assert(interval_view(r0[j + 1], sm.subrange(i as int, n as int)[j + 1]));
                assert(interval_simple(r0[j + 1]));
            }
            assert(sm.take(i + 1).drop_last() =~= sm.take(i as int));
            assert(sm.take(i + 1).last() == m);
        }
        let ghost dm = dedup_intervals(sm.take(i as int));
        let j = find_same_exec(&d, &iv, Ghost(dm), Ghost(m));
        if j < d.len() {
            let ghost d0 = d@;
            let e = d.remove(j);
            proof {
                assert(interval_view(d0[j as int], dm[j as int]) && interval_simple(d0[j as int]));
            }
            let e2 = merge_into(e, &iv, Ghost(dm[j as int]), Ghost(m));
            d.insert(j, e2);
            proof {
                assert(d@ =~= d0.update(j as int, e2));
                assert forall|k: int| 0 <= k < d@.len() implies interval_view(#[trigger] d@[k], dedup_intervals(sm.take(i + 1))[k])
                    && interval_simple(d@[k]) by {
                    if k != j {
                        assert(interval_view(d0[k], dm[k]) && interval_simple(d0[k]));
                    }
                }
            }
        } else {
            let ghost d0 = d@;
            d.push(iv);
            proof {
                assert forall|k: int| 0 <= k < d@.len() implies interval_view(#[trigger] d@[k], dedup_intervals(sm.take(i + 1))[k])
                    && interval_simple(d@[k]) by {
                    if k < d0.len() {
                        assert(interval_view(d0[k], dm[k]) && interval_simple(d0[k]));
                    }
                }
            }
        }
        i = i + 1;
    }
    proof {
        assert(sm.take(n as int) =~= sm);
    }
    d
}

/// Sorts intervals by upper boundary, keeping the order of equal ones.
pub(crate) fn sort_exec(s: Vec<GeologicalInterval>, Ghost(sm): Ghost<Seq<IntervalModel>>) -> (r: Vec<GeologicalInterval>)
    requires
        intervals_as(s@, sm),
    ensures
        intervals_as(r@, sort_by_upper(sm)),
{
    let mut out: Vec<GeologicalInterval> = Vec::new();
    let n0: usize = s.len();
    let mut rest = s;
    let ghost n = sm.len();
    let mut i: usize = 0;
    while rest.len() > 0
        invariant
            n == sm.len(),
            n == n0,
            i + rest@.len() == n,
            intervals_as(rest@, sm.subrange(i as int, n as int)),
            intervals_as(out@, sort_by_upper(sm.take(i as int))),
        decreases rest@.len(),
    {
        let ghost r0 = rest@;
        let iv = rest.remove(0);
        let ghost m = sm[i as int];
        proof {
            assert(iv == r0[0]);
            assert(interval_view(r0[0], sm.subrange(i as int, n as int)[0]));
            assert(interval_simple(r0[0]));
            assert forall|j: int| 0 <= j < rest@.len() implies interval_view(#[trigger] rest@[j], sm.subrange(i + 1, n as int)[j])
                && interval_simple(rest@[j]) by {
                assert(rest@[j] == r0[j + 1]);
                assert(interval_view(r0[j + 1], sm.subrange(i as int, n as int)[j + 1]));
                assert(interval_simple(r0[j + 1]));
            }
            assert(sm.take(i + 1).drop_last() =~= sm.take(i as int));
            assert(sm.take(i + 1).last() == m);
        }
        let ghost om = sort_by_upper(sm.take(i as int));
        let mut k = out.len();
        proof {
            assert(om.take(k as int) =~= om);
            assert(insert_by_upper(om, m) + om.subrange(k as int, om.len() as int) =~= insert_by_upper(om, m));
        }
        while k > 0 && !num_le_exec(out[k - 1].upper_boundary, iv.upper_boundary)
            invariant
                k <= out@.len(),
                intervals_as(out@, om),
                interval_view(iv, m),
                interval_simple(iv),
                insert_by_upper(om, m) == insert_by_upper(om.take(k as int), m) + om.subrange(k as int, om.len() as int),
            decreases k,
        {
            proof {
                assert(interval_view(out@[k - 1], om[k - 1]) && interval_simple(out@[k - 1]));
                let t = om.take(k as int);
                assert(t.drop_last() =~= om.take(k - 1));
                assert(t.last() == om[k - 1]);
                assert(insert_by_upper(t, m) == insert_by_upper(om.take(k - 1), m).push(om[k - 1]));
                assert(insert_by_upper(om.take(k - 1), m).push(om[k - 1]) + om.subrange(k as int, om.len() as int)
                    =~= insert_by_upper(om.take(k - 1), m) + om.subrange(k - 1, om.len() as int));
            }
            k = k - 1;
        }
        proof {
            if k > 0 {
                assert(interval_view(out@[k - 1], om[k - 1]));
            }
            let t = om.take(k as int);
            assert(insert_by_upper(t, m) == t.push(m));
        }
        let ghost o0 = out@;
        out.insert(k, iv);
        proof {
            let target = sort_by_upper(sm.take(i + 1));
            assert(target == insert_by_upper(om, m));
            assert(target =~= om.take(k as int).push(m) + om.subrange(k as int, om.len() as int));
            assert forall|j: int| 0 <= j < out@.len() implies interval_view(#[trigger] out@[j], target[j])
                && interval_simple(out@[j]) by {
                if j < k {
                    assert(out@[j] == o0[j]);
                    assert(interval_view(o0[j], om[j]) && interval_simple(o0[j]));
                } else if j > k {
                    assert(out@[j] == o0[j - 1]);
                    assert(interval_view(o0[j - 1], om[j - 1]) && interval_simple(o0[j - 1]));
                }
            }
        }
        i = i + 1;
    }
    proof {
        assert(sm.take(n as int) =~= sm);
    }
    out
}

/// A BRO BHR-G (geological borehole) document.
#[derive(Clone, Debug)]
pub struct BhrGDocument {
    pub common: crate::bro::metadata::CommonMetadata,
    pub final_depth: Option<Number>,
    pub intervals: Vec<GeologicalInterval>,
    pub source_xml: Option<String>,
}

/// `finalDepthBoring`: absent, non-finite, or too large or too precise to
/// hold exactly is `None`; text that is not a number is invalid.
pub open spec fn finite_number_spec(
    leaves: Seq<(Seq<char>, Seq<char>)>,
    root: Option<Seq<char>>,
    local: Seq<char>,
) -> Result<Option<Number>, BroFailure> {
    match crate::bro::collect::leaf_value(leaves, local) {
        None => Ok(None),
        Some(v) => match parse_spec(trim(v)) {
            Parsed::Finite(n) => Ok(Some(n)),
            Parsed::Invalid => Err(BroFailure::InvalidValue(crate::bro::collect::field_path_spec(leaves, root, local), trim(v))),
            _ => Ok(None),
        },
    }
}

/// Reading a BHR-G document from its detected type and its events.
pub open spec fn bhr_g_spec(det: crate::bro::DetectedDocument, toks: Tokens) -> Result<
    (crate::bro::collect::CollectModel, crate::bro::metadata::CommonModel, Seq<IntervalModel>, Option<Number>),
    BroFailure,
> {
    if det.document_type != crate::bro::BroDocumentType::BhrG {
        Err(BroFailure::UnexpectedDocumentType(crate::bro::BroDocumentType::BhrG, det.document_type))
    } else {
        match crate::bro::collect::collect_spec(toks) {
            Err((p, m)) => Err(BroFailure::InvalidXml(Some(p), m)),
            Ok(c) => match crate::bro::metadata::common_spec(c.leaves, c.attrs, c.root) {
                Err(f) => Err(f),
                Ok(cm) => match crate::bro::document::element_from(
                    toks,
                    "boring"@,
                    crate::bro::collect::field_path_spec(c.leaves, c.root, "boring"@),
                    0,
                ) {
                    Err(f) => Err(f),
                    Ok(()) => match intervals_spec(toks) {
                        Err(f) => Err(f),
                        Ok(ivs) => match finite_number_spec(c.leaves, c.root, "finalDepthBoring"@) {
                            Err(f) => Err(f),
                            Ok(fd) => Ok((c, cm, dedup_intervals(sort_by_upper(ivs)), fd)),
                        },
                    },
                },
            },
        }
    }
}

fn finite_number(xml: &crate::bro::collect::CollectedXml, local: &str) -> (r: Result<Option<Number>, BroError>)
    ensures
        match r {
            Ok(o) => finite_number_spec(xml.leaves_view(), opt_chars(xml.root), local@) == Ok::<
                Option<Number>,
                BroFailure,
            >(o),
            Err(e) => finite_number_spec(xml.leaves_view(), opt_chars(xml.root), local@) == Err::<
                Option<Number>,
                BroFailure,
            >(e@),
        },
{
    let l = chars_of(local);
    match xml.value(&l) {
        None => Ok(None),
        Some(v) => {
            let t = trim_chars(&v);
            match parse_number(&t) {
                Parsed::Finite(n) => Ok(Some(n)),
                Parsed::Invalid => {
                    let p = xml.field_path(&l);
                    Err(BroError::InvalidValue { path: string_of(&p), value: string_of(&t) })
                },
                _ => Ok(None),
            }
        },
    }
}

/// Reads a BHR-G document from its detected type and its events.
pub fn bhr_g_from_events(det: crate::bro::DetectedDocument, toks: &Tokens, source: Option<String>) -> (r: Result<
    BhrGDocument,
    BroError,
>)
    ensures
        match r {
            Ok(d) => bhr_g_spec(det, *toks) matches Ok((c, cm, ivs, fd)) && crate::bro::metadata::common_as(
                d.common,
                cm,
                det.schema_version,
                c.leaves,
            ) && intervals_as(d.intervals@, ivs) && d.final_depth == fd && d.source_xml == source,
            Err(e) => bhr_g_spec(det, *toks) matches Err(f) && e@ == f,
        },
{
    if det.document_type != crate::bro::BroDocumentType::BhrG {
        return Err(
            BroError::UnexpectedDocumentType {
                expected: crate::bro::BroDocumentType::BhrG,
                found: det.document_type,
            },
        );
    }
    let collected = match crate::bro::collect::collect_events(toks) {
        Ok(c) => c,
        Err(e) => {
            return Err(e);
        },
    };
    let common = match crate::bro::metadata::common_metadata(&collected, det.schema_version) {
        Ok(c) => c,
        Err(e) => {
            return Err(e);
        },
    };
    let boring = chars_of("boring");
    let missing = collected.field_path(&boring);
    match crate::bro::document::require_element(toks, &boring, &missing) {
        Ok(()) => {},
        Err(e) => {
            return Err(e);
        },
    }
    let intervals = match intervals_from_events(toks) {
        Ok(v) => v,
        Err(e) => {
            return Err(e);
        },
    };
    let ghost ivs = match intervals_spec(*toks) {
        Ok(x) => x,
        Err(_) => arbitrary(),
    };
    let sorted = sort_exec(intervals, Ghost(ivs));
    let deduplicated = dedup_exec(sorted, Ghost(sort_by_upper(ivs)));
    let final_depth = match finite_number(&collected, "finalDepthBoring") {
        Ok(o) => o,
        Err(e) => {
            return Err(e);
        },
    };
    Ok(BhrGDocument { common, final_depth, intervals: deduplicated, source_xml: source })
}

/// `r` is what reading a BHR-G document gives for the detection result
/// `det` and, once detection succeeds, the events `toks` of `xml` and the
/// kept source `src`.
pub open spec fn bhr_g_read(
    r: Result<BhrGDocument, BroError>,
    det: Result<crate::bro::DetectedDocument, BroError>,
    toks: Tokens,
    src: Option<String>,
    xml: Seq<char>,
    retain: bool,
) -> bool {
    match det {
        Err(e0) => r matches Err(e) && e@ == e0@,
        Ok(d) => events_read(toks) && crate::bro::document::kept_source(src, xml, retain) && match r {
            Ok(x) => bhr_g_spec(d, toks) matches Ok((c, cm, ivs, fd)) && crate::bro::metadata::common_as(
                x.common,
                cm,
                d.schema_version,
                c.leaves,
            ) && intervals_as(x.intervals@, ivs) && x.final_depth == fd && x.source_xml == src,
            Err(e) => bhr_g_spec(d, toks) matches Err(f) && e@ == f,
        },
    }
}

/// Reads a BRO BHR-G document: detection first, then the document's
/// events.
///
/// The result is what `detect_spec` and `bhr_g_spec` give for the events
/// the XML reader hands out for `xml`,
/// each event being what the reader's named results give at its place
/// in `xml` (see `tokens_of`).
pub fn parse_bhr_g_with_options(xml: &str, options: crate::bro::ParseOptions) -> (r: Result<BhrGDocument, BroError>)
    ensures
        exists|
            nt: Seq<NsToken>,
            ne: Option<(u64, Vec<char>)>,
            det: Result<crate::bro::DetectedDocument, BroError>,
            toks: Tokens,
            src: Option<String>,
        |
            #![trigger crate::bro::detected_from(det, nt, ne), bhr_g_read(r, det, toks, src, xml@, options.retain_source)]
            ns_tokens_of(nt, ne, xml@, text_len(xml)) && crate::bro::detected_from(det, nt, ne) && (det is Ok
                ==> tokens_of(toks, xml@, true, text_len(xml))) && bhr_g_read(
                r,
                det,
                toks,
                src,
                xml@,
                options.retain_source,
            ),
        r matches Ok(d) ==> (d.source_xml matches Some(s) ==> s@ == xml@) && (d.source_xml is Some
            <==> options.retain_source),
{
    let det = match crate::bro::detect(xml) {
        Ok(d) => d,
        Err(e) => {
            proof {
                let (nt, ne) = choose|nt: Seq<NsToken>, ne: Option<(u64, Vec<char>)>|
                    ns_tokens_of(nt, ne, xml@, text_len(xml)) && #[trigger] crate::bro::detected_from(
                        Err::<crate::bro::DetectedDocument, BroError>(e),
                        nt,
                        ne,
                    );
                let t: Tokens = vstd::pervasive::arbitrary();
                let so: Option<String> = vstd::pervasive::arbitrary();
                assert(bhr_g_read(
                    Err::<BhrGDocument, BroError>(e),
                    Err::<crate::bro::DetectedDocument, BroError>(e),
                    t,
                    so,
                    xml@,
                    options.retain_source,
                ));
            }
            return Err(e);
        },
    };
    let ghost dr = Ok::<crate::bro::DetectedDocument, BroError>(det);
    let toks = crate::xml::tokenize(xml, true);
    let src = crate::bro::document::retained(xml, options);
    let ghost gs = src;
    let r = bhr_g_from_events(det, &toks, src);
    proof {
        let (nt, ne) = choose|nt: Seq<NsToken>, ne: Option<(u64, Vec<char>)>|
            ns_tokens_of(nt, ne, xml@, text_len(xml)) && #[trigger] crate::bro::detected_from(dr, nt, ne);
        assert(bhr_g_read(r, dr, toks, gs, xml@, options.retain_source));
    }
    r
}

/// Reads a BRO BHR-G document, without keeping its source.
pub fn parse_bhr_g(xml: &str) -> (r: Result<BhrGDocument, BroError>)
    ensures
        exists|
            nt: Seq<NsToken>,
            ne: Option<(u64, Vec<char>)>,
            det: Result<crate::bro::DetectedDocument, BroError>,
            toks: Tokens,
            src: Option<String>,
        |
            #![trigger crate::bro::detected_from(det, nt, ne), bhr_g_read(r, det, toks, src, xml@, false)]
            ns_tokens_of(nt, ne, xml@, text_len(xml)) && crate::bro::detected_from(det, nt, ne) && (det is Ok ==> tokens_of(toks, xml@, true, text_len(xml))) && bhr_g_read(r, det, toks, src, xml@, false),
        r matches Ok(d) ==> d.source_xml is None,
{
    parse_bhr_g_with_options(xml, crate::bro::ParseOptions::new())
}

/// The boundaries of an interval are exact decimals and the lower one
/// lies below the upper one.
pub open spec fn below_upper(iv: IntervalModel) -> bool {
    iv.upper.den > 0 && iv.lower.den > 0 && !num_le(iv.lower, iv.upper)
}

pub open spec fn all_below_upper(s: Seq<IntervalModel>) -> bool {
    forall|i: int| 0 <= i < s.len() ==> below_upper(#[trigger] s[i])
}

proof fn lemma_close_keeps(m: IntervalsModel)
    requires
        all_below_upper(m.done),
    ensures
        close_step(m) matches IStep::Next(m2) ==> all_below_upper(m2.done),
{
    let value = if m.text.len() > 0 { trim(m.text.last()) } else { seq![] };
    let bs = if value.len() > 0 { add_leaf(m.builders, m.stack, value) } else { m.builders };
    if m.stack.len() > 0 && layer_name(m.stack.last()) {
        if let Some(k) = last_at(bs, m.stack.len()) {
            if let Ok(Some(iv)) = interval_spec(bs[k]) {
                let up = field_leaf(bs[k].leaves, seq!["upperboundary"@]);
                let lo = field_leaf(bs[k].leaves, seq!["lowerboundary"@]);
                if let Some(l) = up {
                    lemma_parse_simple(trim(l.value));
                }
                if let Some(l) = lo {
                    lemma_parse_simple(trim(l.value));
                }
                crate::number::lemma_pow_facts();
                assert(below_upper(iv));
                let d = m.done.push(iv);
                assert forall|i: int| 0 <= i < d.len() implies below_upper(#[trigger] d[i]) by {
                    if i < m.done.len() {
                        assert(d[i] == m.done[i]);
                    }
                }
            }
        }
    }
}

proof fn lemma_intervals_from_keeps(toks: Tokens, i: int, m: IntervalsModel)
    requires
        all_below_upper(m.done),
    ensures
        intervals_from(toks, i, m) matches Ok(ivs) ==> all_below_upper(ivs),
    decreases toks.events@.len() - i,
{
    if !(i < 0 || i >= toks.events@.len()) {
        let e = toks.events@[i].event;
        if e is End {
            lemma_close_keeps(m);
        }
        match intervals_step(m, toks.events@[i].pos, e) {
            IStep::Next(m2) => {
                lemma_intervals_from_keeps(toks, i + 1, m2);
            },
            _ => {},
        }
    }
}

proof fn lemma_insert_by_upper_keeps(s: Seq<IntervalModel>, iv: IntervalModel)
    requires
        all_below_upper(s),
        below_upper(iv),
    ensures
        all_below_upper(insert_by_upper(s, iv)),
    decreases s.len(),
{
    if s.len() > 0 && !num_le(s.last().upper, iv.upper) {
        let t = s.drop_last();
        assert forall|i: int| 0 <= i < t.len() implies below_upper(#[trigger] t[i]) by {
            assert(t[i] == s[i]);
        }
        lemma_insert_by_upper_keeps(t, iv);
        let r = insert_by_upper(t, iv);
        let out = r.push(s.last());
        assert forall|i: int| 0 <= i < out.len() implies below_upper(#[trigger] out[i]) by {
            if i < r.len() {
                assert(out[i] == r[i]);
            }
        }
    } else if s.len() > 0 {
        let out = s.push(iv);
        assert forall|i: int| 0 <= i < out.len() implies below_upper(#[trigger] out[i]) by {
            if i < s.len() {
                assert(out[i] == s[i]);
            }
        }
    }
}

proof fn lemma_sort_by_upper_keeps(s: Seq<IntervalModel>)
    requires
        all_below_upper(s),
    ensures
        all_below_upper(sort_by_upper(s)),
    decreases s.len(),
{
    if s.len() > 0 {
        let t = s.drop_last();
        assert forall|i: int| 0 <= i < t.len() implies below_upper(#[trigger] t[i]) by {
            assert(t[i] == s[i]);
        }
        lemma_sort_by_upper_keeps(t);
        lemma_insert_by_upper_keeps(sort_by_upper(t), s.last());
    }
}

proof fn lemma_dedup_keeps(s: Seq<IntervalModel>)
    requires
        all_below_upper(s),
    ensures
        all_below_upper(dedup_intervals(s)),
    decreases s.len(),
{
    if s.len() > 0 {
        let t = s.drop_last();
        assert forall|i: int| 0 <= i < t.len() implies below_upper(#[trigger] t[i]) by {
            assert(t[i] == s[i]);
        }
        lemma_dedup_keeps(t);
        let d = dedup_intervals(t);
        let j = find_same(d, s.last(), 0);
        if 0 <= j < d.len() {
            let u = d.update(j, merge_interval(d[j], s.last()));
            assert forall|i: int| 0 <= i < u.len() implies below_upper(#[trigger] u[i]) by {
                if i != j {
                    assert(u[i] == d[i]);
                } else {
                    assert(below_upper(d[j]));
                }
            }
        } else {
            let u = d.push(s.last());
            assert forall|i: int| 0 <= i < u.len() implies below_upper(#[trigger] u[i]) by {
                if i < d.len() {
                    assert(u[i] == d[i]);
                }
            }
        }
    }
}

/// Every interval of a read geological borehole has exact boundaries and
/// its lower boundary below its upper boundary.
pub proof fn law_intervals_below_upper(det: crate::bro::DetectedDocument, toks: Tokens)
    ensures
        bhr_g_spec(det, toks) matches Ok((c, cm, ivs, fd)) ==> all_below_upper(ivs),
{
    let m0 = IntervalsModel { stack: seq![], text: seq![], builders: seq![], done: seq![] };
    lemma_intervals_from_keeps(toks, 0, m0);
    if let Ok(ivs) = intervals_spec(toks) {
        lemma_sort_by_upper_keeps(ivs);
        lemma_dedup_keeps(sort_by_upper(ivs));
    }
}

/// Each interval starts at most as deep as the next.
pub open spec fn upper_ordered(s: Seq<IntervalModel>) -> bool {
    forall|i: int| 0 <= i < s.len() - 1 ==> num_le(#[trigger] s[i].upper, s[i + 1].upper)
}

proof fn lemma_num_le_trans(a: Number, b: Number, c: Number)
    requires
        a.den > 0,
        b.den > 0,
        c.den > 0,
        num_le(a, b),
        num_le(b, c),
    ensures
        num_le(a, c),
{
    assert(a.num * c.den <= c.num * a.den) by (nonlinear_arith)
        requires
            a.den > 0,
            b.den > 0,
            c.den > 0,
            a.num * b.den <= b.num * a.den,
            b.num * c.den <= c.num * b.den,
    {
        assert(a.num * b.den * c.den <= b.num * a.den * c.den);
        assert(b.num * c.den * a.den <= c.num * b.den * a.den);
    }
}

proof fn lemma_ordered_pairs(s: Seq<IntervalModel>, i: int, j: int)
    requires
        upper_ordered(s),
        all_below_upper(s),
        0 <= i < j < s.len(),
    ensures
        num_le(s[i].upper, s[j].upper),
    decreases j - i,
{
    if j == i + 1 {
        assert(num_le(s[i].upper, s[i + 1].upper));
    } else {
        lemma_ordered_pairs(s, i, j - 1);
        assert(num_le(s[j - 1].upper, s[j].upper));
        assert(below_upper(s[i]) && below_upper(s[j - 1]) && below_upper(s[j]));
        lemma_num_le_trans(s[i].upper, s[j - 1].upper, s[j].upper);
    }
}

proof fn lemma_insert_by_upper_last(s: Seq<IntervalModel>, iv: IntervalModel)
    ensures
        insert_by_upper(s, iv).last() == iv || (s.len() > 0 && insert_by_upper(s, iv).last() == s.last()),
        s.len() > 0 && !num_le(s.last().upper, iv.upper) ==> insert_by_upper(s, iv).last() == s.last(),
    decreases s.len(),
{
    if s.len() > 0 && !num_le(s.last().upper, iv.upper) {
        lemma_insert_by_upper_last(s.drop_last(), iv);
    }
}

proof fn lemma_insert_by_upper_ordered(s: Seq<IntervalModel>, iv: IntervalModel)
    requires
        upper_ordered(s),
    ensures
        upper_ordered(insert_by_upper(s, iv)),
    decreases s.len(),
{
    if s.len() > 0 && !num_le(s.last().upper, iv.upper) {
        let t = s.drop_last();
        assert forall|i: int| 0 <= i < t.len() - 1 implies num_le(#[trigger] t[i].upper, t[i + 1].upper) by {
            assert(t[i] == s[i] && t[i + 1] == s[i + 1]);
        }
        lemma_insert_by_upper_ordered(t, iv);
        lemma_insert_by_upper_last(t, iv);
        let r = insert_by_upper(t, iv);
        if t.len() > 0 {
            assert(num_le(s[s.len() - 2].upper, s[s.len() - 1].upper));
        }
        assert(num_le(r.last().upper, s.last().upper));
        let out = r.push(s.last());
        assert forall|i: int| 0 <= i < out.len() - 1 implies num_le(#[trigger] out[i].upper, out[i + 1].upper) by {
            if i < r.len() - 1 {
                assert(out[i] == r[i] && out[i + 1] == r[i + 1]);
            } else {
                assert(out[i] == r.last());
            }
        }
    } else if s.len() > 0 {
        let out = s.push(iv);
        assert forall|i: int| 0 <= i < out.len() - 1 implies num_le(#[trigger] out[i].upper, out[i + 1].upper) by {
            if i < s.len() - 1 {
                assert(out[i] == s[i] && out[i + 1] == s[i + 1]);
            }
        }
    }
}

proof fn lemma_sort_by_upper_ordered(s: Seq<IntervalModel>)
    ensures
        upper_ordered(sort_by_upper(s)),
    decreases s.len(),
{
    if s.len() > 0 {
        lemma_sort_by_upper_ordered(s.drop_last());
        lemma_insert_by_upper_ordered(sort_by_upper(s.drop_last()), s.last());
    }
}

/// Every interval kept has the upper boundary of some interval of `s`.
pub open spec fn uppers_from(d: Seq<IntervalModel>, s: Seq<IntervalModel>) -> bool {
    forall|i: int| 0 <= i < d.len() ==> exists|k: int| 0 <= k < s.len() && #[trigger] d[i].upper == s[k].upper
}

proof fn lemma_dedup_ordered(s: Seq<IntervalModel>)
    requires
        upper_ordered(s),
        all_below_upper(s),
    ensures
        upper_ordered(dedup_intervals(s)),
        uppers_from(dedup_intervals(s), s),
    decreases s.len(),
{
    if s.len() > 0 {
        let t = s.drop_last();
        assert forall|i: int| 0 <= i < t.len() - 1 implies num_le(#[trigger] t[i].upper, t[i + 1].upper) by {
            assert(t[i] == s[i] && t[i + 1] == s[i + 1]);
        }
        assert forall|i: int| 0 <= i < t.len() implies below_upper(#[trigger] t[i]) by {
            assert(t[i] == s[i]);
        }
        lemma_dedup_ordered(t);
        let d = dedup_intervals(t);
        let j = find_same(d, s.last(), 0);
        if 0 <= j < d.len() {
            let u = d.update(j, merge_interval(d[j], s.last()));
            assert forall|i: int| 0 <= i < u.len() - 1 implies num_le(#[trigger] u[i].upper, u[i + 1].upper) by {
                assert(u[i].upper == d[i].upper && u[i + 1].upper == d[i + 1].upper);
            }
            assert forall|i: int| 0 <= i < u.len() implies exists|k: int| 0 <= k < s.len() && #[trigger] u[i].upper == s[k].upper by {
                assert(u[i].upper == d[i].upper);
                let k = choose|k: int| 0 <= k < t.len() && #[trigger] d[i].upper == t[k].upper;
                assert(s[k] == t[k]);
            }
        } else {
            let u = d.push(s.last());
            if d.len() > 0 {
                let k = choose|k: int| 0 <= k < t.len() && #[trigger] d[d.len() - 1].upper == t[k].upper;
                assert(s[k] == t[k]);
                lemma_ordered_pairs(s, k, s.len() - 1);
            }
            assert forall|i: int| 0 <= i < u.len() - 1 implies num_le(#[trigger] u[i].upper, u[i + 1].upper) by {
                if i < d.len() - 1 {
                    assert(u[i] == d[i] && u[i + 1] == d[i + 1]);
                } else {
                    assert(u[i] == d[d.len() - 1]);
                }
            }
            assert forall|i: int| 0 <= i < u.len() implies exists|k: int| 0 <= k < s.len() && #[trigger] u[i].upper == s[k].upper by {
                if i < d.len() {
                    assert(u[i] == d[i]);
                    let k = choose|k: int| 0 <= k < t.len() && #[trigger] d[i].upper == t[k].upper;
                    assert(s[k] == t[k]);
                } else {
                    assert(u[i] == s[s.len() - 1]);
                }
            }
        }
    }
}

/// The intervals of a read geological borehole are ordered by their upper
/// boundaries.
pub proof fn law_intervals_ordered(det: crate::bro::DetectedDocument, toks: Tokens)
    ensures
        bhr_g_spec(det, toks) matches Ok((c, cm, ivs, fd)) ==> upper_ordered(ivs),
{
    let m0 = IntervalsModel { stack: seq![], text: seq![], builders: seq![], done: seq![] };
    lemma_intervals_from_keeps(toks, 0, m0);
    if let Ok(ivs) = intervals_spec(toks) {
        lemma_sort_by_upper_keeps(ivs);
        lemma_sort_by_upper_ordered(ivs);
        lemma_dedup_ordered(sort_by_upper(ivs));
    }
}


/// No two intervals describe the same layer: the same boundaries and the
/// same lithology.
pub open spec fn distinct_layers(s: Seq<IntervalModel>) -> bool {
    forall|i: int, j: int| 0 <= i < j < s.len() ==> !same_interval(#[trigger] s[i], #[trigger] s[j])
}

proof fn lemma_find_same(ds: Seq<IntervalModel>, iv: IntervalModel, i: int)
    requires
        0 <= i <= ds.len(),
    ensures
        i <= find_same(ds, iv, i) <= ds.len(),
        find_same(ds, iv, i) < ds.len() ==> same_interval(ds[find_same(ds, iv, i)], iv),
        find_same(ds, iv, i) == ds.len() ==> forall|k: int| i <= k < ds.len() ==> !same_interval(#[trigger] ds[k], iv),
    decreases ds.len() - i,
{
    if i < ds.len() && !same_interval(ds[i], iv) {
        lemma_find_same(ds, iv, i + 1);
    }
}

proof fn lemma_dedup_distinct(s: Seq<IntervalModel>)
    ensures
        distinct_layers(dedup_intervals(s)),
    decreases s.len(),
{
    if s.len() > 0 {
        let t = s.drop_last();
        lemma_dedup_distinct(t);
        let d = dedup_intervals(t);
        let x = s.last();
        lemma_find_same(d, x, 0);
        let j = find_same(d, x, 0);
        if 0 <= j < d.len() {
            let u = d.update(j, merge_interval(d[j], x));
            assert forall|a: int, b: int| 0 <= a < b < u.len() implies !same_interval(#[trigger] u[a], #[trigger] u[b]) by {
                assert(same_interval(u[a], u[b]) == same_interval(d[a], d[b]));
            }
        } else {
            let u = d.push(x);
            assert forall|a: int, b: int| 0 <= a < b < u.len() implies !same_interval(#[trigger] u[a], #[trigger] u[b]) by {
                if b == d.len() {
                    assert(u[b] == x);
                    assert(u[a] == d[a]);
                } else {
                    assert(u[a] == d[a] && u[b] == d[b]);
                }
            }
        }
    }
}

/// A read geological borehole describes each layer once: descriptions of
/// the same layer are merged into the first.
pub proof fn law_intervals_distinct(det: crate::bro::DetectedDocument, toks: Tokens)
    ensures
        bhr_g_spec(det, toks) matches Ok((c, cm, ivs, fd)) ==> distinct_layers(ivs),
{
    if let Ok(ivs) = intervals_spec(toks) {
        lemma_dedup_distinct(sort_by_upper(ivs));
    }
}

} // verus!
