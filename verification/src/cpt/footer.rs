//! The text fields of a CPT report's footer: which metadata value goes in
//! which slot, with the fallbacks GEF headers offer.

use vstd::prelude::*;

use crate::calendar::{Date, valid_date, year_text, two_digits, year_chars};
use crate::keyed::KeyedVec;
use crate::number::{int_parse, nat_text, nat_chars, padded_chars, parse_u32};
use crate::text::{chars_of, find_char, find_char_exec, push_all, push_str, slice_vec, split_chars, split_on, string_of, trim, trim_chars, views};

verus! {

/// The trimmed `,`-separated fields of `s`.
pub open spec fn trimmed_fields(s: Seq<char>) -> Seq<Seq<char>> {
    split_on(s, ',').map_values(|f: Seq<char>| trim(f))
}

/// The value of the first `|`-separated part, from part `k` on, whose first
/// field is `idx` and which has a second field.
pub open spec fn indexed_value(parts: Seq<Seq<char>>, idx: Seq<char>, k: int) -> Option<Seq<char>>
    decreases parts.len() - k,
{
    if k < 0 || k >= parts.len() {
        None
    } else {
        let f = trimmed_fields(parts[k]);
        if f.len() >= 2 && f[0] == idx {
            Some(f[1])
        } else {
            indexed_value(parts, idx, k + 1)
        }
    }
}

/// The value numbered `idx` in the joined `MEASUREMENTTEXT` lines.
pub open spec fn measurement_text(extra: KeyedVec<String>, idx: Seq<char>) -> Option<Seq<char>> {
    match extra.get_spec("MEASUREMENTTEXT"@) {
        Some(j) => indexed_value(split_on(j@, '|'), idx, 0),
        None => None,
    }
}

/// `Some(v@)` for a stored value.
pub open spec fn text_of(o: Option<String>) -> Option<Seq<char>> {
    match o {
        Some(v) => Some(v@),
        None => None,
    }
}

/// The client: `COMPANYID`, else measurement text 1.
pub open spec fn client_spec(extra: KeyedVec<String>) -> Option<Seq<char>> {
    match extra.get_spec("COMPANYID"@) {
        Some(v) => Some(v@),
        None => measurement_text(extra, "1"@),
    }
}

/// The cone type: measurement text 4, else empty.
pub open spec fn cone_type_spec(extra: KeyedVec<String>) -> Seq<char> {
    match measurement_text(extra, "4"@) {
        Some(v) => v,
        None => seq![],
    }
}

/// The cone's serial number: what follows the first `.` of the cone type.
pub open spec fn cone_serial_spec(extra: KeyedVec<String>) -> Seq<char> {
    let c = cone_type_spec(extra);
    let k = find_char(c, '.', 0);
    if k < c.len() {
        c.skip(k + 1)
    } else {
        seq![]
    }
}

/// `s` right-aligned in `w` characters, like `format!("{:>w$}", s)`.
pub open spec fn pad_left(s: Seq<char>, w: nat) -> Seq<char> {
    if s.len() < w {
        Seq::new((w - s.len()) as nat, |i: int| ' ') + s
    } else {
        s
    }
}

/// A GEF `year, month, day` value written as `dd-mm-yyyy`; other text
/// stays as it is.
pub open spec fn gef_ymd_text(raw: Seq<char>) -> Seq<char> {
    let p = trimmed_fields(raw);
    if p.len() >= 3 {
        pad_left(p[2], 2) + "-"@ + pad_left(p[1], 2) + "-"@ + pad_left(p[0], 4)
    } else {
        raw
    }
}

/// A number read like `s.parse::<u32>().unwrap_or(0)`.
pub open spec fn u32_or_zero(s: Seq<char>) -> nat {
    match int_parse(s, false, 0, u32::MAX as int) {
        Some(v) => v as nat,
        None => 0,
    }
}

/// `v` with at least two digits, like `format!("{:02}", v)`.
pub open spec fn zero_padded(v: nat) -> Seq<char> {
    if v < 10 {
        seq!['0'] + nat_text(v)
    } else {
        nat_text(v)
    }
}

/// A GEF `hour, minute, ...` value written as `hh:mm`; other text stays
/// as it is.
pub open spec fn gef_hms_text(raw: Seq<char>) -> Seq<char> {
    let p = trimmed_fields(raw);
    if p.len() >= 2 {
        zero_padded(u32_or_zero(p[0])) + ":"@ + zero_padded(u32_or_zero(p[1]))
    } else {
        raw
    }
}

fn trimmed_fields_exec(s: &[char]) -> (r: Vec<Vec<char>>)
    ensures
        views(r@) == trimmed_fields(s@),
{
    let parts = split_chars(s, ',');
    let mut out: Vec<Vec<char>> = Vec::new();
    for i in 0..parts.len()
        invariant
            views(parts@) == split_on(s@, ','),
            views(out@) == split_on(s@, ',').take(i as int).map_values(|f: Seq<char>| trim(f)),
    {
        let t = trim_chars(&parts[i]);
        out.push(t);
        proof {
            assert(parts@[i as int]@ == split_on(s@, ',')[i as int]);
            assert(split_on(s@, ',').take(i + 1).map_values(|f: Seq<char>| trim(f)) =~= split_on(s@, ',').take(
                i as int,
            ).map_values(|f: Seq<char>| trim(f)).push(trim(split_on(s@, ',')[i as int])));
            assert(views(out@) =~= split_on(s@, ',').take(i + 1).map_values(|f: Seq<char>| trim(f)));
        }
    }
    proof {
        assert(split_on(s@, ',').take(parts@.len() as int) =~= split_on(s@, ','));
    }
    out
}

fn indexed_value_exec(j: &[char], idx: &str) -> (r: Option<Vec<char>>)
    ensures
        match r {
            Some(v) => indexed_value(split_on(j@, '|'), idx@, 0) == Some(v@),
            None => indexed_value(split_on(j@, '|'), idx@, 0) is None,
        },
{
    let parts = split_chars(j, '|');
    let want = chars_of(idx);
    let ghost ps = split_on(j@, '|');
    for i in 0..parts.len()
        invariant
            views(parts@) == ps,
            ps == split_on(j@, '|'),
            want@ == idx@,
            indexed_value(ps, idx@, 0) == indexed_value(ps, idx@, i as int),
    {
        proof {
            assert(parts@[i as int]@ == ps[i as int]);
        }
        let f = trimmed_fields_exec(&parts[i]);
        proof {
            assert(f@.len() == trimmed_fields(ps[i as int]).len());
        }
        if f.len() >= 2 && crate::text::eq_chars(&f[0], &want) {
            proof {
                assert(f@[0]@ == trimmed_fields(ps[i as int])[0]);
                assert(f@[1]@ == trimmed_fields(ps[i as int])[1]);
            }
            return Some(slice_vec(&f[1], 0, f[1].len()));
        }
        proof {
            if f@.len() >= 2 {
                assert(f@[0]@ == trimmed_fields(ps[i as int])[0]);
            }
        }
    }
    None
}

fn measurement_text_exec(extra: &KeyedVec<String>, idx: &str) -> (r: Option<Vec<char>>)
    ensures
        match r {
            Some(v) => measurement_text(*extra, idx@) == Some(v@),
            None => measurement_text(*extra, idx@) is None,
        },
{
    match extra.get(&chars_of("MEASUREMENTTEXT")) {
        Some(j) => indexed_value_exec(&chars_of(j.as_str()), idx),
        None => None,
    }
}

fn stored(extra: &KeyedVec<String>, key: &str) -> (r: Option<Vec<char>>)
    ensures
        match r {
            Some(v) => extra.get_spec(key@) matches Some(s) && s@ == v@,
            None => extra.get_spec(key@) is None,
        },
{
    match extra.get(&chars_of(key)) {
        Some(v) => Some(chars_of(v.as_str())),
        None => None,
    }
}

/// The client named in a GEF header: `COMPANYID`, else the value numbered
/// 1 in the measurement texts.
pub fn client_from_extras(extra: &KeyedVec<String>) -> (r: Option<String>)
    ensures
        text_of(r) == client_spec(*extra),
{
    match stored(extra, "COMPANYID") {
        Some(v) => Some(string_of(&v)),
        None => match measurement_text_exec(extra, "1") {
            Some(v) => Some(string_of(&v)),
            None => None,
        },
    }
}

fn cone_type_chars(extra: &KeyedVec<String>) -> (r: Vec<char>)
    ensures
        r@ == cone_type_spec(*extra),
{
    match measurement_text_exec(extra, "4") {
        Some(v) => v,
        None => Vec::new(),
    }
}

/// The cone type: the value numbered 4 in the measurement texts, or empty.
pub fn cone_type_from_extras(extra: &KeyedVec<String>) -> (r: String)
    ensures
        r@ == cone_type_spec(*extra),
{
    string_of(&cone_type_chars(extra))
}

/// The cone's serial number: what follows the first `.` of its type, or
/// empty.
pub fn cone_serial_from_extras(extra: &KeyedVec<String>) -> (r: String)
    ensures
        r@ == cone_serial_spec(*extra),
{
    let c = cone_type_chars(extra);
    let k = find_char_exec(&c, '.', 0);
    if k < c.len() {
        let t = slice_vec(&c, k + 1, c.len());
        proof {
            assert(t@ =~= c@.skip(k + 1));
        }
        string_of(&t)
    } else {
        String::new()
    }
}

fn push_padded_left(out: &mut Vec<char>, s: &[char], w: usize)
    ensures
        final(out)@ == old(out)@ + pad_left(s@, w as nat),
{
    let ghost start = out@;
    let mut i: usize = s.len();
    while i < w
        invariant
            s@.len() <= i <= w || (i == s@.len() && i >= w),
            out@ == start + Seq::new((i - s@.len()) as nat, |j: int| ' '),
        decreases w - i,
    {
        out.push(' ');
        i = i + 1;
        proof {
            assert(out@ =~= start + Seq::new((i - s@.len()) as nat, |j: int| ' '));
        }
    }
    push_all(out, s);
    proof {
        if s@.len() < w {
            assert(out@ =~= start + pad_left(s@, w as nat));
        } else {
            assert(out@ =~= start + pad_left(s@, w as nat));
        }
    }
}

/// A GEF `year, month, day` value written as `dd-mm-yyyy` (each part
/// right-aligned); other text is handed back as it is.
pub fn format_gef_ymd(raw: &str) -> (r: String)
    ensures
        r@ == gef_ymd_text(raw@),
{
    let c = chars_of(raw);
    let p = trimmed_fields_exec(&c);
    if p.len() >= 3 {
        let mut out: Vec<char> = Vec::new();
        proof {
            assert(p@[0]@ == trimmed_fields(raw@)[0]);
            assert(p@[1]@ == trimmed_fields(raw@)[1]);
            assert(p@[2]@ == trimmed_fields(raw@)[2]);
        }
        push_padded_left(&mut out, &p[2], 2);
        push_str(&mut out, "-");
        push_padded_left(&mut out, &p[1], 2);
        push_str(&mut out, "-");
        push_padded_left(&mut out, &p[0], 4);
        proof {
            assert(out@ =~= gef_ymd_text(raw@));
        }
        string_of(&out)
    } else {
        string_of(&c)
    }
}

fn zero_padded_chars(v: u32) -> (r: Vec<char>)
    ensures
        r@ == zero_padded(v as nat),
{
    let mut out: Vec<char> = Vec::new();
    if v < 10 {
        out.push('0');
    }
    let mut d = nat_chars(v as u128);
    out.append(&mut d);
    proof {
        assert(out@ =~= zero_padded(v as nat));
    }
    out
}

fn u32_or_zero_exec(s: &[char]) -> (r: u32)
    ensures
        r as nat == u32_or_zero(s@),
{
    match parse_u32(s) {
        Some(v) => v,
        None => 0,
    }
}

/// A GEF `hour, minute, ...` value written as `hh:mm` (a part that is no
/// number counts as 0); other text is handed back as it is.
pub fn format_gef_hms(raw: &str) -> (r: String)
    ensures
        r@ == gef_hms_text(raw@),
{
    let c = chars_of(raw);
    let p = trimmed_fields_exec(&c);
    if p.len() >= 2 {
        proof {
            assert(p@[0]@ == trimmed_fields(raw@)[0]);
            assert(p@[1]@ == trimmed_fields(raw@)[1]);
        }
        let mut out = zero_padded_chars(u32_or_zero_exec(&p[0]));
        push_str(&mut out, ":");
        let mut m = zero_padded_chars(u32_or_zero_exec(&p[1]));
        out.append(&mut m);
        proof {
            assert(out@ =~= gef_hms_text(raw@));
        }
        string_of(&out)
    } else {
        string_of(&c)
    }
}

/// What a report footer is filled from: a CPT's identifier and metadata.
pub struct FooterSource {
    pub id: String,
    pub project_name: Option<String>,
    pub project_number: Option<String>,
    pub equipment: Option<String>,
    pub date: Option<Date>,
    pub extra: KeyedVec<String>,
}

/// The text of each footer slot.
pub struct FooterFields {
    pub project_number: String,
    pub cpt_id: String,
    pub date: String,
    pub time: String,
    pub client: String,
    pub description: String,
    pub cone_type: String,
    pub cone_serial: String,
    pub company: String,
}

pub open spec fn str_of(o: Option<&str>) -> Option<Seq<char>> {
    match o {
        Some(v) => Some(v@),
        None => None,
    }
}

/// `a`, else `b`.
pub open spec fn or_else(a: Option<Seq<char>>, b: Option<Seq<char>>) -> Option<Seq<char>> {
    match a {
        Some(v) => Some(v),
        None => b,
    }
}

/// The value, or empty text.
pub open spec fn or_empty(a: Option<Seq<char>>) -> Seq<char> {
    match a {
        Some(v) => v,
        None => seq![],
    }
}

/// A date as `%d-%m-%Y`.
pub open spec fn dmy_text(d: Date) -> Seq<char> {
    two_digits(d.day as int) + "-"@ + two_digits(d.month as int) + "-"@ + year_text(d.year as int)
}

pub open spec fn extra_text(extra: KeyedVec<String>, key: Seq<char>) -> Option<Seq<char>> {
    text_of(extra.get_spec(key))
}

/// The date slot: the CPT's date, else the GEF start or file date.
pub open spec fn footer_date(src: FooterSource) -> Seq<char> {
    match src.date {
        Some(d) => dmy_text(d),
        None => match or_else(extra_text(src.extra, "STARTDATE"@), extra_text(src.extra, "FILEDATE"@)) {
            Some(raw) => gef_ymd_text(raw),
            None => seq![],
        },
    }
}

/// The company line: a non-blank equipment name, else `COMPANYID`, else
/// `Bronhouder`, else a placeholder.
pub open spec fn footer_company(src: FooterSource) -> Seq<char> {
    let eq = match src.equipment {
        Some(e) => if trim(e@).len() > 0 {
            Some(e@)
        } else {
            None
        },
        None => None,
    };
    match or_else(eq, or_else(extra_text(src.extra, "COMPANYID"@), extra_text(src.extra, "Bronhouder"@))) {
        Some(v) => v,
        None => "Onbekende contractor"@,
    }
}

/// The footer filled from `src`, with the given project number and client
/// taking precedence.
pub open spec fn footer_spec(
    r: FooterFields,
    src: FooterSource,
    project_number: Option<Seq<char>>,
    client: Option<Seq<char>>,
) -> bool {
    &&& r.project_number@ == or_empty(
        or_else(project_number, or_else(text_of(src.project_number), extra_text(src.extra, "PROJECTID"@))),
    )
    &&& r.cpt_id@ == src.id@
    &&& r.date@ == footer_date(src)
    &&& r.time@ == match extra_text(src.extra, "STARTTIME"@) {
        Some(raw) => gef_hms_text(raw),
        None => seq![],
    }
    &&& r.client@ == or_empty(or_else(client, client_spec(src.extra)))
    &&& r.description@ == or_empty(or_else(text_of(src.project_name), extra_text(src.extra, "PROJECTNAME"@)))
    &&& r.cone_type@ == cone_type_spec(src.extra)
    &&& r.cone_serial@ == cone_serial_spec(src.extra)
    &&& r.company@ == footer_company(src)
}

fn first_text(a: Option<Vec<char>>, b: Option<Vec<char>>) -> (r: Option<Vec<char>>)
    ensures
        opt_chars(r) == or_else(opt_chars(a), opt_chars(b)),
{
    match a {
        Some(v) => Some(v),
        None => b,
    }
}

pub open spec fn opt_chars(o: Option<Vec<char>>) -> Option<Seq<char>> {
    match o {
        Some(v) => Some(v@),
        None => None,
    }
}

fn text_chars(o: &Option<String>) -> (r: Option<Vec<char>>)
    ensures
        opt_chars(r) == text_of(*o),
{
    match o {
        Some(v) => Some(chars_of(v.as_str())),
        None => None,
    }
}

fn str_chars(o: Option<&str>) -> (r: Option<Vec<char>>)
    ensures
        opt_chars(r) == str_of(o),
{
    match o {
        Some(v) => Some(chars_of(v)),
        None => None,
    }
}

fn extra_chars(extra: &KeyedVec<String>, key: &str) -> (r: Option<Vec<char>>)
    ensures
        opt_chars(r) == extra_text(*extra, key@),
{
    match stored(extra, key) {
        Some(v) => Some(v),
        None => None,
    }
}

fn text_or_empty(o: Option<Vec<char>>) -> (r: String)
    ensures
        r@ == or_empty(opt_chars(o)),
{
    match o {
        Some(v) => string_of(&v),
        None => String::new(),
    }
}

fn date_chars(src: &FooterSource) -> (r: Vec<char>)
    requires
        src.date matches Some(d) ==> valid_date(d.year as int, d.month as int, d.day as int),
    ensures
        r@ == footer_date(*src),
{
    match src.date {
        Some(d) => {
            let mut out = padded_chars(d.day as u128, 2);
            push_str(&mut out, "-");
            let mut m = padded_chars(d.month as u128, 2);
            out.append(&mut m);
            push_str(&mut out, "-");
            let mut y = year_chars(d.year);
            out.append(&mut y);
            proof {
                assert(out@ =~= dmy_text(d));
            }
            out
        },
        None => match first_text(extra_chars(&src.extra, "STARTDATE"), extra_chars(&src.extra, "FILEDATE")) {
            Some(raw) => chars_of(format_gef_ymd(string_of(&raw).as_str()).as_str()),
            None => Vec::new(),
        },
    }
}

fn company_chars(src: &FooterSource) -> (r: Vec<char>)
    ensures
        r@ == footer_company(*src),
{
    let eq = match &src.equipment {
        Some(e) => {
            let c = chars_of(e.as_str());
            if trim_chars(&c).len() > 0 {
                Some(c)
            } else {
                None
            }
        },
        None => None,
    };
    let other = first_text(extra_chars(&src.extra, "COMPANYID"), extra_chars(&src.extra, "Bronhouder"));
    match first_text(eq, other) {
        Some(v) => v,
        None => chars_of("Onbekende contractor"),
    }
}

/// Fills each footer slot of a CPT report from `src`; a given project
/// number or client takes precedence over the CPT's own.
pub fn footer_fields(src: &FooterSource, project_number_override: Option<&str>, client_override: Option<&str>) -> (r: FooterFields)
    requires
        src.date matches Some(d) ==> valid_date(d.year as int, d.month as int, d.day as int),
    ensures
        footer_spec(r, *src, str_of(project_number_override), str_of(client_override)),
{
    let project_number = text_or_empty(
        first_text(
            str_chars(project_number_override),
            first_text(text_chars(&src.project_number), extra_chars(&src.extra, "PROJECTID")),
        ),
    );
    let date = string_of(&date_chars(src));
    let time = match extra_chars(&src.extra, "STARTTIME") {
        Some(raw) => format_gef_hms(string_of(&raw).as_str()),
        None => String::new(),
    };
    let client = match str_chars(client_override) {
        Some(c) => string_of(&c),
        None => match client_from_extras(&src.extra) {
            Some(c) => c,
            None => String::new(),
        },
    };
    let description = text_or_empty(
        first_text(text_chars(&src.project_name), extra_chars(&src.extra, "PROJECTNAME")),
    );
    FooterFields {
        project_number,
        cpt_id: string_of(&chars_of(src.id.as_str())),
        date,
        time,
        client,
        description,
        cone_type: cone_type_from_extras(&src.extra),
        cone_serial: cone_serial_from_extras(&src.extra),
        company: string_of(&company_chars(src)),
    }
}

} // verus!
