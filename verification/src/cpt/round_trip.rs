//! What the GEF reader gives back of a file the GEF writer wrote.

use vstd::prelude::*;

use crate::cpt::gef::header::{HeaderModel, HeaderFailure, header_line, header_entry, is_eoh, key_of, upper_word, scan_header, trimmed_parts};
use crate::cpt::{Cpt, cpt_ok, point_ok};
use crate::cpt::gef::header::opt_view;
use crate::calendar::{valid_date, year_in_range, ymd_text, year_text, two_digits};
use crate::cpt::write::{law_gef_record_reads_back, writable, void_or, lemma_written_piece, raw_back, read_back,company_text, filedate_text, owner_text, lastscan_text, mtext_text, mvar_text, project_text, separators_text, startdate_text, testid_text, xyz_text, opt_zid_text, zid_text, has_z, first_depth, last_depth, gef_text, gef_rows_text, gef_row_text, gef_record_text,
    gef_head_text, written_columns, written_voids, void3, void_fs, void_rf};
use crate::cpt::gef::header::{int_parts, empty_model, header_spec, set_xy, xyid_step, zid_step, date_value, ColumnSpec, columninfo_step, columnvoid_step};
use crate::cpt::gef::columns::{GefField, field_of};
use crate::number::{pow10, numeral_char, is_digit, all_digits, padded, lemma_padded, lemma_nat_text, lemma_fixed_text_shape, nat_text, Number, Parsed, parse_spec, int_parse, digits_value, fixed_text, shown, scaled_round, lemma_void_texts, law_fixed_text_reads_back, lemma_pow_facts};
use crate::cpt::gef::data::{separators, declared, first_char, near, abs_num, complete_point, point_spec, values_from, record_tokens, points_from, records, gef_spec};
use crate::text::{
    lemma_lines_of_text,
    lemma_normalize_plain,
    join,
    skip_ws,
    trim_end_at,
    starts_with,
    lines_text,
    lemma_lines_text_add,
    find_char,
    lacks,
    lemma_split_first,
    lemma_split_empty,
    split_on,
    is_ws,
    lemma_find_char_upto,
    lemma_trim_after_space,
    lemma_trim_keeps_prefix,
    lemma_trim_plain,
    trim,
};

verus! {

/// A header line `#KEY= value` as the writer writes it.
pub open spec fn keyed(key: Seq<char>, v: Seq<char>) -> Seq<char> {
    "#"@ + key + "= "@ + v
}

/// The value the reader takes from such a line.
pub open spec fn value_in(key: Seq<char>, v: Seq<char>) -> Seq<char> {
    let t = trim(keyed(key, v));
    trim(t.subrange(key.len() as int + 2, t.len() as int))
}

proof fn lemma_trimmed_ends(v: Seq<char>)
    requires
        trim(v) == v,
        v.len() > 0,
    ensures
        !is_ws(v[0]),
        !is_ws(v.last()),
{
    lemma_trim_after_space(v);
    crate::text::lemma_skip_ws(v, 0);
    let a = crate::text::skip_ws(v, 0);
    let b = crate::text::trim_end_at(v, v.len() as int);
    assert(b > a);
    lemma_trim_end_le(v, v.len() as int);
    assert(a == 0 && b == v.len());
    if is_ws(v.last()) {
        lemma_trim_end_le(v, v.len() - 1);
        assert(crate::text::trim_end_at(v, v.len() as int) == crate::text::trim_end_at(v, v.len() - 1));
    }
}

proof fn lemma_trim_end_le(s: Seq<char>, k: int)
    requires
        0 <= k <= s.len(),
    ensures
        crate::text::trim_end_at(s, k) <= k,
    decreases k,
{
    if k > 0 && is_ws(s[k - 1]) {
        lemma_trim_end_le(s, k - 1);
    }
}

/// A line the writer writes for a keyword in upper case is no `#EOH=` line
/// unless its keyword is `EOH`, and reads as that keyword with its value.
pub proof fn lemma_keyed_line(h: HeaderModel, key: Seq<char>, v: Seq<char>)
    requires
        key.len() > 0,
        upper_word(key),
    ensures
        key != "EOH"@ ==> !is_eoh(trim(keyed(key, v))),
        header_line(h, trim(keyed(key, v))) == header_entry(h, key, value_in(key, v)),
        trim(v) == v ==> value_in(key, v) == v,
{
    reveal_strlit("#");
    reveal_strlit("= ");
    let p = seq!['#'] + key + seq!['='];
    assert(keyed(key, v) =~= p + (seq![' '] + v));
    assert(p[0] == '#');
    assert(p.last() == '=');
    lemma_trim_keeps_prefix(p, seq![' '] + v);
    let t = trim(keyed(key, v));
    assert(t.subrange(0, p.len() as int) == p);
    let rest = t.subrange(1, t.len() as int);
    assert forall|i: int| 0 <= i < key.len() implies #[trigger] rest[i] != '=' by {
        assert(rest[i] == t[i + 1]);
        assert(t[i + 1] == p[i + 1]);
        assert(p[i + 1] == key[i]);
        assert('A' <= key[i] <= 'Z');
    }
    assert(rest[key.len() as int] == t[key.len() as int + 1]);
    assert(t[key.len() as int + 1] == p[key.len() as int + 1]);
    lemma_find_char_upto(rest, '=', 0, key.len() as int);
    assert forall|i: int| 0 <= i < key.len() implies #[trigger] rest[i] == key[i] by {
        assert(rest[i] == t[i + 1]);
        assert(t[i + 1] == p[i + 1]);
    }
    assert(rest.subrange(0, key.len() as int) =~= key);
    assert forall|i: int| 0 <= i < key.len() implies !is_ws(#[trigger] key[i]) by {
        assert('A' <= key[i] <= 'Z');
    }
    assert(!is_ws(key[0]));
    assert(!is_ws(key.last()));
    lemma_trim_plain(key);
    assert(key_of(key) == key);
    assert(rest.subrange(key.len() as int + 1, rest.len() as int) =~= t.subrange(key.len() as int + 2, t.len() as int));
    if key != "EOH"@ {
        reveal_strlit("#EOH=");
        reveal_strlit("#EOH");
        reveal_strlit("EOH");
        if t == "#EOH="@ {
            assert(t.len() == 5);
            assert(key.len() <= 3);
            if key.len() < 3 {
                assert(t[key.len() as int + 1] == '=');
            } else {
                assert(key =~= "EOH"@) by {
                    assert(key[0] == t[1]);
                    assert(key[1] == t[2]);
                    assert(key[2] == t[3]);
                }
            }
        }
        if t == "#EOH"@ {
            assert(t.len() == 4);
            assert(key.len() <= 2);
            assert(t[key.len() as int + 1] == '=');
        }
    }
    if trim(v) == v {
        if v.len() == 0 {
            let k = keyed(key, v);
            assert(k =~= p + seq![' ']);
            assert(crate::text::skip_ws(k, 0) == 0);
            assert(crate::text::trim_end_at(k, k.len() as int) == crate::text::trim_end_at(k, p.len() as int));
            assert(k[p.len() - 1] == '=');
            assert(crate::text::trim_end_at(k, p.len() as int) == p.len());
            assert(t =~= p);
            assert(t.subrange(key.len() as int + 2, t.len() as int) =~= Seq::<char>::empty());
            assert(trim(Seq::<char>::empty()) =~= Seq::<char>::empty()) by {
                assert(crate::text::skip_ws(Seq::<char>::empty(), 0) == 0);
                assert(crate::text::trim_end_at(Seq::<char>::empty(), 0) == 0);
            }
        } else {
            lemma_trimmed_ends(v);
            let k = keyed(key, v);
            assert(k[0] == '#');
            assert(k.last() == v.last());
            lemma_trim_plain(k);
            assert(t.subrange(key.len() as int + 2, t.len() as int) =~= seq![' '] + v);
            lemma_trim_after_space(v);
        }
    }
}


/// The header lines `ls` applied in order to `h`.
pub open spec fn fold_lines(ls: Seq<Seq<char>>, h: HeaderModel) -> Option<HeaderModel>
    decreases ls.len(),
{
    if ls.len() == 0 {
        Some(h)
    } else {
        match header_line(h, trim(ls[0])) {
            Some(h1) => fold_lines(ls.drop_first(), h1),
            None => None,
        }
    }
}

pub proof fn lemma_fold_add(a: Seq<Seq<char>>, b: Seq<Seq<char>>, h: HeaderModel)
    ensures
        fold_lines(a + b, h) == (match fold_lines(a, h) {
            Some(h1) => fold_lines(b, h1),
            None => None,
        }),
    decreases a.len(),
{
    if a.len() == 0 {
        assert(a + b =~= b);
    } else {
        assert((a + b)[0] == a[0]);
        assert((a + b).drop_first() =~= a.drop_first() + b);
        match header_line(h, trim(a[0])) {
            Some(h1) => {
                lemma_fold_add(a.drop_first(), b, h1);
            },
            None => {},
        }
    }
}

/// No line of `ls` ends the header.
pub open spec fn no_eoh(ls: Seq<Seq<char>>) -> bool {
    forall|i: int| 0 <= i < ls.len() ==> !is_eoh(#[trigger] trim(ls[i]))
}

/// Scanning over header lines that do not end the header applies them.
pub proof fn lemma_scan_through(ls: Seq<Seq<char>>, i: int, a: Seq<Seq<char>>, h: HeaderModel)
    requires
        0 <= i,
        i + a.len() <= ls.len(),
        ls.subrange(i, i + a.len()) == a,
        no_eoh(a),
        fold_lines(a, h) is Some,
    ensures
        scan_header(ls, i, h) == scan_header(ls, i + a.len(), fold_lines(a, h)->0),
    decreases a.len(),
{
    if a.len() > 0 {
        assert(ls[i] == a[0]) by {
            assert(ls.subrange(i, i + a.len())[0] == ls[i]);
        }
        assert(!is_eoh(trim(a[0])));
        let h1 = header_line(h, trim(a[0]))->0;
        let t = a.drop_first();
        assert(ls.subrange(i + 1, i + 1 + t.len()) =~= t) by {
            assert forall|k: int| 0 <= k < t.len() implies ls.subrange(i + 1, i + 1 + t.len())[k] == t[k] by {
                assert(ls.subrange(i, i + a.len())[k + 1] == a[k + 1]);
            }
        }
        assert forall|k: int| 0 <= k < t.len() implies !is_eoh(#[trigger] trim(t[k])) by {
            assert(t[k] == a[k + 1]);
        }
        lemma_scan_through(ls, i + 1, t, h1);
    }
}

/// The parts of a comma separated list written with `", "` between them.
pub open spec fn comma_list(ps: Seq<Seq<char>>) -> Seq<char>
    decreases ps.len(),
{
    if ps.len() <= 1 {
        if ps.len() == 1 {
            ps[0]
        } else {
            seq![]
        }
    } else {
        ps[0] + seq![',', ' '] + comma_list(ps.drop_first())
    }
}

/// The parts are trimmed, without commas and not empty.
pub open spec fn plain_parts(ps: Seq<Seq<char>>) -> bool {
    forall|i: int|
        0 <= i < ps.len() ==> lacks(#[trigger] ps[i], ',') && trim(ps[i]) == ps[i] && ps[i].len() > 0
}

pub proof fn lemma_split_none(s: Seq<char>, c: char)
    requires
        lacks(s, c),
    ensures
        split_on(s, c) == seq![s],
{
    lemma_find_none(s, c, 0);
    assert(s.subrange(0, s.len() as int) =~= s);
}

proof fn lemma_find_none(s: Seq<char>, c: char, k: int)
    requires
        lacks(s, c),
        0 <= k <= s.len(),
    ensures
        find_char(s, c, k) == s.len(),
    decreases s.len() - k,
{
    if k < s.len() {
        lemma_find_none(s, c, k + 1);
    }
}

proof fn lemma_split_comma_list(ps: Seq<Seq<char>>)
    requires
        ps.len() >= 1,
        plain_parts(ps),
    ensures
        split_on(comma_list(ps), ',').len() == ps.len(),
        split_on(comma_list(ps), ',')[0] == ps[0],
        forall|i: int| 1 <= i < ps.len() ==> split_on(comma_list(ps), ',')[i] == seq![' '] + ps[i],
    decreases ps.len(),
{
    assert(lacks(ps[0], ','));
    if ps.len() == 1 {
        lemma_split_none(ps[0], ',');
    } else {
        let t = ps.drop_first();
        assert forall|i: int| 0 <= i < t.len() implies lacks(#[trigger] t[i], ',') && trim(t[i]) == t[i]
            && t[i].len() > 0 by {
            assert(t[i] == ps[i + 1]);
        }
        lemma_split_comma_list(t);
        let r = comma_list(t);
        assert(comma_list(ps) =~= ps[0] + seq![','] + (seq![' '] + r));
        lemma_split_first(ps[0], ',', seq![' '] + r);
        // the pieces of " " + r: the first gains the space
        lemma_split_space(r);
        let sr = split_on(r, ',');
        let ss = split_on(seq![' '] + r, ',');
        assert forall|i: int| 1 <= i < ps.len() implies split_on(comma_list(ps), ',')[i] == seq![' '] + ps[i] by {
            assert(split_on(comma_list(ps), ',')[i] == ss[i - 1]);
            if i == 1 {
                assert(ss[0] == seq![' '] + sr[0]);
            } else {
                assert(ss[i - 1] == sr[i - 1]);
                assert(t[i - 1] == ps[i]);
            }
        }
    }
}

proof fn lemma_split_space(r: Seq<char>)
    ensures
        split_on(seq![' '] + r, ',').len() == split_on(r, ',').len(),
        split_on(seq![' '] + r, ',')[0] == seq![' '] + split_on(r, ',')[0],
        forall|i: int| 1 <= i < split_on(r, ',').len() ==> split_on(seq![' '] + r, ',')[i] == split_on(r, ',')[i],
{
    crate::text::lemma_pieces_shift(seq![' '], r, ',', 0);
    let s = seq![' '] + r;
    crate::text::lemma_find_char_bounds(r, ',', 0);
    let j = find_char(r, ',', 0);
    assert(find_char(s, ',', 1) == j + 1) by {
        crate::text::lemma_find_char_shift(seq![' '], r, ',', 0);
    }
    assert(find_char(s, ',', 0) == find_char(s, ',', 1));
    if j >= r.len() {
        assert(s.subrange(0, s.len() as int) =~= seq![' '] + r.subrange(0, r.len() as int));
    } else {
        assert(s.subrange(0, j + 1) =~= seq![' '] + r.subrange(0, j));
        crate::text::lemma_pieces_shift(seq![' '], r, ',', j + 1);
    }
}

/// A comma separated list of plain parts reads back as its parts.
pub proof fn lemma_trimmed_parts(ps: Seq<Seq<char>>)
    requires
        ps.len() >= 1,
        plain_parts(ps),
    ensures
        trimmed_parts(comma_list(ps)) == ps,
{
    lemma_split_comma_list(ps);
    let sp = split_on(comma_list(ps), ',');
    assert forall|i: int| 0 <= i < ps.len() implies trim(#[trigger] sp[i]) == ps[i] by {
        if i > 0 {
            lemma_trim_after_space(ps[i]);
        }
    }
    assert(sp.map_values(|p: Seq<char>| trim(p)) =~= ps);
}

} // verus!
verus! {

/// The fixed lines a written GEF file opens with.
pub open spec fn head_lines() -> Seq<Seq<char>> {
    seq![
        keyed("GEFID"@, "1, 1, 0"@),
        keyed("COLUMN"@, "4"@),
        keyed("COLUMNINFO"@, "1, m, sondeertrajectlengte, 1"@),
        keyed("COLUMNINFO"@, "2, MPa, conusweerstand, 2"@),
        keyed("COLUMNINFO"@, "3, MPa, plaatselijke wrijving, 3"@),
        keyed("COLUMNINFO"@, "4, %, wrijvingsgetal, 4"@),
        keyed("COLUMNSEPARATOR"@, ";"@),
        keyed("COLUMNTEXT"@, "1, aan"@),
        keyed("COLUMNVOID"@, "1, 999.999"@),
        keyed("COLUMNVOID"@, "2, 999.999"@),
        keyed("COLUMNVOID"@, "3, 9.999"@),
        keyed("COLUMNVOID"@, "4, 999.9"@),
    ]
}

#[verifier::spinoff_prover]
#[verifier::rlimit(40)]
proof fn lemma_head_text()
    ensures
        gef_head_text() == lines_text(head_lines()),
{
    reveal_strlit("#");
    reveal_strlit("= ");
    reveal_strlit("1, 1, 0");
    reveal_strlit("1, 999.999");
    reveal_strlit("1, aan");
    reveal_strlit("1, m, sondeertrajectlengte, 1");
    reveal_strlit("2, 999.999");
    reveal_strlit("2, MPa, conusweerstand, 2");
    reveal_strlit("3, 9.999");
    reveal_strlit("3, MPa, plaatselijke wrijving, 3");
    reveal_strlit("4");
    reveal_strlit("4, %, wrijvingsgetal, 4");
    reveal_strlit("4, 999.9");
    reveal_strlit(";");
    reveal_strlit("COLUMN");
    reveal_strlit("COLUMNINFO");
    reveal_strlit("COLUMNSEPARATOR");
    reveal_strlit("COLUMNTEXT");
    reveal_strlit("COLUMNVOID");
    reveal_strlit("GEFID");
    reveal_strlit("#GEFID= 1, 1, 0\n#COLUMN= 4\n#COLUMNINFO= 1, m, sondeertrajectlengte, 1\n#COLUMNINFO= 2, MPa, conusweerstand, 2\n#COLUMNINFO= 3, MPa, plaatselijke wrijving, 3\n#COLUMNINFO= 4, %, wrijvingsgetal, 4\n#COLUMNSEPARATOR= ;\n#COLUMNTEXT= 1, aan\n#COLUMNVOID= 1, 999.999\n#COLUMNVOID= 2, 999.999\n#COLUMNVOID= 3, 9.999\n#COLUMNVOID= 4, 999.9\n");
    reveal_with_fuel(lines_text, 13);
    assert(gef_head_text() =~= lines_text(head_lines()));
}


/// A keyword the header reader does not act on.
pub open spec fn plain_key(k: Seq<char>) -> bool {
    &&& k != "TESTID"@
    &&& k != "PROJECTID"@
    &&& k != "PROJECTNAME"@
    &&& k != "COMPANYID"@
    &&& k != "FILEDATE"@
    &&& k != "STARTDATE"@
    &&& k != "XYID"@
    &&& k != "ZID"@
    &&& k != "COLUMNINFO"@
    &&& k != "COLUMNVOID"@
}

/// A list of plain parts starts with its first part and ends with its
/// last, and so is trimmed.
pub proof fn lemma_comma_list_trim(ps: Seq<Seq<char>>)
    requires
        ps.len() >= 1,
        plain_parts(ps),
    ensures
        comma_list(ps).len() > 0,
        comma_list(ps)[0] == ps[0][0],
        comma_list(ps).last() == ps.last().last(),
        trim(comma_list(ps)) == comma_list(ps),
    decreases ps.len(),
{
    if ps.len() > 1 {
        let t = ps.drop_first();
        assert forall|i: int| 0 <= i < t.len() implies lacks(#[trigger] t[i], ',') && trim(t[i]) == t[i]
            && t[i].len() > 0 by {
            assert(t[i] == ps[i + 1]);
        }
        lemma_comma_list_trim(t);
        let r = comma_list(t);
        let w = ps[0] + seq![',', ' '] + r;
        assert(comma_list(ps) == w);
        assert(w[0] == ps[0][0]);
        assert(w.last() == r.last());
        assert(ps.last() == t.last());
    }
    lemma_trimmed_ends(ps[0]);
    lemma_trimmed_ends(ps.last());
    lemma_trim_plain(comma_list(ps));
}

proof fn lemma_digit_int(d: char, hi: int)
    requires
        '0' <= d <= '9',
        hi >= 9,
    ensures
        int_parse(seq![d], false, 0, hi) == Some(d as int - '0' as int),
{
    let s = seq![d];
    assert(s.subrange(0, 1) =~= s);
    assert(s.drop_last() =~= Seq::<char>::empty());
    assert(digits_value(s) == digits_value(Seq::<char>::empty()) * 10 + (d as int - '0' as int));
}

/// A `#COLUMNINFO=` line for a one-digit column and quantity adds that
/// column.
pub proof fn lemma_info_line(h: HeaderModel, d: char, unit: Seq<char>, name: Seq<char>, q: char)
    requires
        '1' <= d <= '9',
        '1' <= q <= '9',
        plain_parts(seq![seq![d], unit, name, seq![q]]),
    ensures
        header_line(h, trim(keyed("COLUMNINFO"@, comma_list(seq![seq![d], unit, name, seq![q]])))) == Some(
            HeaderModel {
                columns: h.columns.push(
                    ColumnSpec { index: (d as int - '0' as int) as usize, field: field_of((q as int - '0' as int) as u32) },
                ),
                ..h
            },
        ),
{
    let ps = seq![seq![d], unit, name, seq![q]];
    reveal_strlit("COLUMNINFO");
    assert(upper_word("COLUMNINFO"@));
    lemma_comma_list_trim(ps);
    lemma_keyed_line(h, "COLUMNINFO"@, comma_list(ps));
    lemma_trimmed_parts(ps);
    lemma_digit_int(d, usize::MAX as int);
    lemma_digit_int(q, u32::MAX as int);
    reveal_strlit("TESTID");
    reveal_strlit("PROJECTID");
    reveal_strlit("PROJECTNAME");
    reveal_strlit("COMPANYID");
    reveal_strlit("FILEDATE");
    reveal_strlit("STARTDATE");
    reveal_strlit("XYID");
    reveal_strlit("ZID");
}

/// A `#COLUMNVOID=` line for a one-digit column adds its void value.
pub proof fn lemma_void_line(h: HeaderModel, d: char, vt: Seq<char>, void: Number)
    requires
        '1' <= d <= '9',
        plain_parts(seq![seq![d], vt]),
        parse_spec(vt) == Parsed::Finite(void),
    ensures
        header_line(h, trim(keyed("COLUMNVOID"@, comma_list(seq![seq![d], vt])))) == Some(
            HeaderModel { column_void: h.column_void.push(((d as int - '0' as int) as usize, void)), ..h },
        ),
{
    let ps = seq![seq![d], vt];
    reveal_strlit("COLUMNVOID");
    assert(upper_word("COLUMNVOID"@));
    lemma_comma_list_trim(ps);
    lemma_keyed_line(h, "COLUMNVOID"@, comma_list(ps));
    lemma_trimmed_parts(ps);
    lemma_digit_int(d, usize::MAX as int);
    reveal_strlit("TESTID");
    reveal_strlit("PROJECTID");
    reveal_strlit("PROJECTNAME");
    reveal_strlit("COMPANYID");
    reveal_strlit("FILEDATE");
    reveal_strlit("STARTDATE");
    reveal_strlit("XYID");
    reveal_strlit("ZID");
    reveal_strlit("COLUMNINFO");
    let v = comma_list(ps);
    assert(header_line(h, trim(keyed("COLUMNVOID"@, v))) == header_entry(h, "COLUMNVOID"@, v));
    assert("COLUMNVOID"@[6] != "COLUMNINFO"@[6]);
    assert("COLUMNVOID"@ != "COLUMNINFO"@);
    assert(header_entry(h, "COLUMNVOID"@, v) == columnvoid_step(h, v));
    let tp = trimmed_parts(v);
    assert(tp == ps);
    assert(tp[0] == seq![d]);
    assert(tp[1] == vt);
    assert(int_parse(tp[0], false, 0, usize::MAX as int) == Some(d as int - '0' as int));
}


proof fn lemma_fold_at(ls: Seq<Seq<char>>, k: int, h: HeaderModel, h1: HeaderModel)
    requires
        0 <= k < ls.len(),
        header_line(h, trim(ls[k])) == Some(h1),
    ensures
        fold_lines(ls.subrange(k, ls.len() as int), h) == fold_lines(ls.subrange(k + 1, ls.len() as int), h1),
{
    let t = ls.subrange(k, ls.len() as int);
    assert(t[0] == ls[k]);
    assert(t.drop_first() =~= ls.subrange(k + 1, ls.len() as int));
}

proof fn lemma_fold_end(ls: Seq<Seq<char>>, h: HeaderModel)
    ensures
        fold_lines(ls.subrange(ls.len() as int, ls.len() as int), h) == Some(h),
{
    assert(ls.subrange(ls.len() as int, ls.len() as int).len() == 0);
}

proof fn lemma_void_number(vt: Seq<char>, n: Number, k: nat)
    requires
        1 <= k <= 3,
        n.den > 0,
        scaled_round(n, k) < 100000000000000000,
        fixed_text(n, k) == vt,
        shown(n, k) == n,
    ensures
        parse_spec(vt) == Parsed::Finite(n),
{
    lemma_pow_facts();
    law_fixed_text_reads_back(n, k);
}

/// The keywords the writer writes and the reader passes over.
pub open spec fn passed_key(k: Seq<char>) -> bool {
    ||| k == "GEFID"@
    ||| k == "COLUMN"@
    ||| k == "COLUMNSEPARATOR"@
    ||| k == "COLUMNTEXT"@
    ||| k == "FILEOWNER"@
    ||| k == "LASTSCAN"@
    ||| k == "MEASUREMENTTEXT"@
    ||| k == "MEASUREMENTVAR"@
    ||| k == "RECORDSEPARATOR"@
    ||| k == "REPORTCODE"@
    ||| k == "STARTTIME"@
}

proof fn lemma_key_gefid()
    ensures
        plain_key("GEFID"@),
        upper_word("GEFID"@),
        "GEFID"@ != "EOH"@,
        "GEFID"@.len() > 0,
{
    reveal_strlit("GEFID");
    reveal_strlit("TESTID");
    reveal_strlit("PROJECTID");
    reveal_strlit("PROJECTNAME");
    reveal_strlit("COMPANYID");
    reveal_strlit("FILEDATE");
    reveal_strlit("STARTDATE");
    reveal_strlit("XYID");
    reveal_strlit("ZID");
    reveal_strlit("COLUMNINFO");
    reveal_strlit("COLUMNVOID");
    reveal_strlit("EOH");
    assert("GEFID"@.len() != "TESTID"@.len());
    assert("GEFID"@.len() != "PROJECTID"@.len());
    assert("GEFID"@.len() != "PROJECTNAME"@.len());
    assert("GEFID"@.len() != "COMPANYID"@.len());
    assert("GEFID"@.len() != "FILEDATE"@.len());
    assert("GEFID"@.len() != "STARTDATE"@.len());
    assert("GEFID"@.len() != "XYID"@.len());
    assert("GEFID"@.len() != "ZID"@.len());
    assert("GEFID"@.len() != "COLUMNINFO"@.len());
    assert("GEFID"@.len() != "COLUMNVOID"@.len());
}

proof fn lemma_key_column()
    ensures
        plain_key("COLUMN"@),
        upper_word("COLUMN"@),
        "COLUMN"@ != "EOH"@,
        "COLUMN"@.len() > 0,
{
    reveal_strlit("COLUMN");
    reveal_strlit("TESTID");
    reveal_strlit("PROJECTID");
    reveal_strlit("PROJECTNAME");
    reveal_strlit("COMPANYID");
    reveal_strlit("FILEDATE");
    reveal_strlit("STARTDATE");
    reveal_strlit("XYID");
    reveal_strlit("ZID");
    reveal_strlit("COLUMNINFO");
    reveal_strlit("COLUMNVOID");
    reveal_strlit("EOH");
    assert("COLUMN"@[0] != "TESTID"@[0]);
    assert("COLUMN"@.len() != "PROJECTID"@.len());
    assert("COLUMN"@.len() != "PROJECTNAME"@.len());
    assert("COLUMN"@.len() != "COMPANYID"@.len());
    assert("COLUMN"@.len() != "FILEDATE"@.len());
    assert("COLUMN"@.len() != "STARTDATE"@.len());
    assert("COLUMN"@.len() != "XYID"@.len());
    assert("COLUMN"@.len() != "ZID"@.len());
    assert("COLUMN"@.len() != "COLUMNINFO"@.len());
    assert("COLUMN"@.len() != "COLUMNVOID"@.len());
}

proof fn lemma_key_columnseparator()
    ensures
        plain_key("COLUMNSEPARATOR"@),
        upper_word("COLUMNSEPARATOR"@),
        "COLUMNSEPARATOR"@ != "EOH"@,
        "COLUMNSEPARATOR"@.len() > 0,
{
    reveal_strlit("COLUMNSEPARATOR");
    reveal_strlit("TESTID");
    reveal_strlit("PROJECTID");
    reveal_strlit("PROJECTNAME");
    reveal_strlit("COMPANYID");
    reveal_strlit("FILEDATE");
    reveal_strlit("STARTDATE");
    reveal_strlit("XYID");
    reveal_strlit("ZID");
    reveal_strlit("COLUMNINFO");
    reveal_strlit("COLUMNVOID");
    reveal_strlit("EOH");
    assert("COLUMNSEPARATOR"@.len() != "TESTID"@.len());
    assert("COLUMNSEPARATOR"@.len() != "PROJECTID"@.len());
    assert("COLUMNSEPARATOR"@.len() != "PROJECTNAME"@.len());
    assert("COLUMNSEPARATOR"@.len() != "COMPANYID"@.len());
    assert("COLUMNSEPARATOR"@.len() != "FILEDATE"@.len());
    assert("COLUMNSEPARATOR"@.len() != "STARTDATE"@.len());
    assert("COLUMNSEPARATOR"@.len() != "XYID"@.len());
    assert("COLUMNSEPARATOR"@.len() != "ZID"@.len());
    assert("COLUMNSEPARATOR"@.len() != "COLUMNINFO"@.len());
    assert("COLUMNSEPARATOR"@.len() != "COLUMNVOID"@.len());
}

proof fn lemma_key_columntext()
    ensures
        plain_key("COLUMNTEXT"@),
        upper_word("COLUMNTEXT"@),
        "COLUMNTEXT"@ != "EOH"@,
        "COLUMNTEXT"@.len() > 0,
{
    reveal_strlit("COLUMNTEXT");
    reveal_strlit("TESTID");
    reveal_strlit("PROJECTID");
    reveal_strlit("PROJECTNAME");
    reveal_strlit("COMPANYID");
    reveal_strlit("FILEDATE");
    reveal_strlit("STARTDATE");
    reveal_strlit("XYID");
    reveal_strlit("ZID");
    reveal_strlit("COLUMNINFO");
    reveal_strlit("COLUMNVOID");
    reveal_strlit("EOH");
    assert("COLUMNTEXT"@.len() != "TESTID"@.len());
    assert("COLUMNTEXT"@.len() != "PROJECTID"@.len());
    assert("COLUMNTEXT"@.len() != "PROJECTNAME"@.len());
    assert("COLUMNTEXT"@.len() != "COMPANYID"@.len());
    assert("COLUMNTEXT"@.len() != "FILEDATE"@.len());
    assert("COLUMNTEXT"@.len() != "STARTDATE"@.len());
    assert("COLUMNTEXT"@.len() != "XYID"@.len());
    assert("COLUMNTEXT"@.len() != "ZID"@.len());
    assert("COLUMNTEXT"@[6] != "COLUMNINFO"@[6]);
    assert("COLUMNTEXT"@[6] != "COLUMNVOID"@[6]);
}

proof fn lemma_key_fileowner()
    ensures
        plain_key("FILEOWNER"@),
        upper_word("FILEOWNER"@),
        "FILEOWNER"@ != "EOH"@,
        "FILEOWNER"@.len() > 0,
{
    reveal_strlit("FILEOWNER");
    reveal_strlit("TESTID");
    reveal_strlit("PROJECTID");
    reveal_strlit("PROJECTNAME");
    reveal_strlit("COMPANYID");
    reveal_strlit("FILEDATE");
    reveal_strlit("STARTDATE");
    reveal_strlit("XYID");
    reveal_strlit("ZID");
    reveal_strlit("COLUMNINFO");
    reveal_strlit("COLUMNVOID");
    reveal_strlit("EOH");
    assert("FILEOWNER"@.len() != "TESTID"@.len());
    assert("FILEOWNER"@[0] != "PROJECTID"@[0]);
    assert("FILEOWNER"@.len() != "PROJECTNAME"@.len());
    assert("FILEOWNER"@[0] != "COMPANYID"@[0]);
    assert("FILEOWNER"@.len() != "FILEDATE"@.len());
    assert("FILEOWNER"@[0] != "STARTDATE"@[0]);
    assert("FILEOWNER"@.len() != "XYID"@.len());
    assert("FILEOWNER"@.len() != "ZID"@.len());
    assert("FILEOWNER"@.len() != "COLUMNINFO"@.len());
    assert("FILEOWNER"@.len() != "COLUMNVOID"@.len());
}

proof fn lemma_key_lastscan()
    ensures
        plain_key("LASTSCAN"@),
        upper_word("LASTSCAN"@),
        "LASTSCAN"@ != "EOH"@,
        "LASTSCAN"@.len() > 0,
{
    reveal_strlit("LASTSCAN");
    reveal_strlit("TESTID");
    reveal_strlit("PROJECTID");
    reveal_strlit("PROJECTNAME");
    reveal_strlit("COMPANYID");
    reveal_strlit("FILEDATE");
    reveal_strlit("STARTDATE");
    reveal_strlit("XYID");
    reveal_strlit("ZID");
    reveal_strlit("COLUMNINFO");
    reveal_strlit("COLUMNVOID");
    reveal_strlit("EOH");
    assert("LASTSCAN"@.len() != "TESTID"@.len());
    assert("LASTSCAN"@.len() != "PROJECTID"@.len());
    assert("LASTSCAN"@.len() != "PROJECTNAME"@.len());
    assert("LASTSCAN"@.len() != "COMPANYID"@.len());
    assert("LASTSCAN"@[0] != "FILEDATE"@[0]);
    assert("LASTSCAN"@.len() != "STARTDATE"@.len());
    assert("LASTSCAN"@.len() != "XYID"@.len());
    assert("LASTSCAN"@.len() != "ZID"@.len());
    assert("LASTSCAN"@.len() != "COLUMNINFO"@.len());
    assert("LASTSCAN"@.len() != "COLUMNVOID"@.len());
}

proof fn lemma_key_measurementtext()
    ensures
        plain_key("MEASUREMENTTEXT"@),
        upper_word("MEASUREMENTTEXT"@),
        "MEASUREMENTTEXT"@ != "EOH"@,
        "MEASUREMENTTEXT"@.len() > 0,
{
    reveal_strlit("MEASUREMENTTEXT");
    reveal_strlit("TESTID");
    reveal_strlit("PROJECTID");
    reveal_strlit("PROJECTNAME");
    reveal_strlit("COMPANYID");
    reveal_strlit("FILEDATE");
    reveal_strlit("STARTDATE");
    reveal_strlit("XYID");
    reveal_strlit("ZID");
    reveal_strlit("COLUMNINFO");
    reveal_strlit("COLUMNVOID");
    reveal_strlit("EOH");
    assert("MEASUREMENTTEXT"@.len() != "TESTID"@.len());
    assert("MEASUREMENTTEXT"@.len() != "PROJECTID"@.len());
    assert("MEASUREMENTTEXT"@.len() != "PROJECTNAME"@.len());
    assert("MEASUREMENTTEXT"@.len() != "COMPANYID"@.len());
    assert("MEASUREMENTTEXT"@.len() != "FILEDATE"@.len());
    assert("MEASUREMENTTEXT"@.len() != "STARTDATE"@.len());
    assert("MEASUREMENTTEXT"@.len() != "XYID"@.len());
    assert("MEASUREMENTTEXT"@.len() != "ZID"@.len());
    assert("MEASUREMENTTEXT"@.len() != "COLUMNINFO"@.len());
    assert("MEASUREMENTTEXT"@.len() != "COLUMNVOID"@.len());
}

proof fn lemma_key_measurementvar()
    ensures
        plain_key("MEASUREMENTVAR"@),
        upper_word("MEASUREMENTVAR"@),
        "MEASUREMENTVAR"@ != "EOH"@,
        "MEASUREMENTVAR"@.len() > 0,
{
    reveal_strlit("MEASUREMENTVAR");
    reveal_strlit("TESTID");
    reveal_strlit("PROJECTID");
    reveal_strlit("PROJECTNAME");
    reveal_strlit("COMPANYID");
    reveal_strlit("FILEDATE");
    reveal_strlit("STARTDATE");
    reveal_strlit("XYID");
    reveal_strlit("ZID");
    reveal_strlit("COLUMNINFO");
    reveal_strlit("COLUMNVOID");
    reveal_strlit("EOH");
    assert("MEASUREMENTVAR"@.len() != "TESTID"@.len());
    assert("MEASUREMENTVAR"@.len() != "PROJECTID"@.len());
    assert("MEASUREMENTVAR"@.len() != "PROJECTNAME"@.len());
    assert("MEASUREMENTVAR"@.len() != "COMPANYID"@.len());
    assert("MEASUREMENTVAR"@.len() != "FILEDATE"@.len());
    assert("MEASUREMENTVAR"@.len() != "STARTDATE"@.len());
    assert("MEASUREMENTVAR"@.len() != "XYID"@.len());
    assert("MEASUREMENTVAR"@.len() != "ZID"@.len());
    assert("MEASUREMENTVAR"@.len() != "COLUMNINFO"@.len());
    assert("MEASUREMENTVAR"@.len() != "COLUMNVOID"@.len());
}

proof fn lemma_key_recordseparator()
    ensures
        plain_key("RECORDSEPARATOR"@),
        upper_word("RECORDSEPARATOR"@),
        "RECORDSEPARATOR"@ != "EOH"@,
        "RECORDSEPARATOR"@.len() > 0,
{
    reveal_strlit("RECORDSEPARATOR");
    reveal_strlit("TESTID");
    reveal_strlit("PROJECTID");
    reveal_strlit("PROJECTNAME");
    reveal_strlit("COMPANYID");
    reveal_strlit("FILEDATE");
    reveal_strlit("STARTDATE");
    reveal_strlit("XYID");
    reveal_strlit("ZID");
    reveal_strlit("COLUMNINFO");
    reveal_strlit("COLUMNVOID");
    reveal_strlit("EOH");
    assert("RECORDSEPARATOR"@.len() != "TESTID"@.len());
    assert("RECORDSEPARATOR"@.len() != "PROJECTID"@.len());
    assert("RECORDSEPARATOR"@.len() != "PROJECTNAME"@.len());
    assert("RECORDSEPARATOR"@.len() != "COMPANYID"@.len());
    assert("RECORDSEPARATOR"@.len() != "FILEDATE"@.len());
    assert("RECORDSEPARATOR"@.len() != "STARTDATE"@.len());
    assert("RECORDSEPARATOR"@.len() != "XYID"@.len());
    assert("RECORDSEPARATOR"@.len() != "ZID"@.len());
    assert("RECORDSEPARATOR"@.len() != "COLUMNINFO"@.len());
    assert("RECORDSEPARATOR"@.len() != "COLUMNVOID"@.len());
}

proof fn lemma_key_reportcode()
    ensures
        plain_key("REPORTCODE"@),
        upper_word("REPORTCODE"@),
        "REPORTCODE"@ != "EOH"@,
        "REPORTCODE"@.len() > 0,
{
    reveal_strlit("REPORTCODE");
    reveal_strlit("TESTID");
    reveal_strlit("PROJECTID");
    reveal_strlit("PROJECTNAME");
    reveal_strlit("COMPANYID");
    reveal_strlit("FILEDATE");
    reveal_strlit("STARTDATE");
    reveal_strlit("XYID");
    reveal_strlit("ZID");
    reveal_strlit("COLUMNINFO");
    reveal_strlit("COLUMNVOID");
    reveal_strlit("EOH");
    assert("REPORTCODE"@.len() != "TESTID"@.len());
    assert("REPORTCODE"@.len() != "PROJECTID"@.len());
    assert("REPORTCODE"@.len() != "PROJECTNAME"@.len());
    assert("REPORTCODE"@.len() != "COMPANYID"@.len());
    assert("REPORTCODE"@.len() != "FILEDATE"@.len());
    assert("REPORTCODE"@.len() != "STARTDATE"@.len());
    assert("REPORTCODE"@.len() != "XYID"@.len());
    assert("REPORTCODE"@.len() != "ZID"@.len());
    assert("REPORTCODE"@[0] != "COLUMNINFO"@[0]);
    assert("REPORTCODE"@[0] != "COLUMNVOID"@[0]);
}

proof fn lemma_key_starttime()
    ensures
        plain_key("STARTTIME"@),
        upper_word("STARTTIME"@),
        "STARTTIME"@ != "EOH"@,
        "STARTTIME"@.len() > 0,
{
    reveal_strlit("STARTTIME");
    reveal_strlit("TESTID");
    reveal_strlit("PROJECTID");
    reveal_strlit("PROJECTNAME");
    reveal_strlit("COMPANYID");
    reveal_strlit("FILEDATE");
    reveal_strlit("STARTDATE");
    reveal_strlit("XYID");
    reveal_strlit("ZID");
    reveal_strlit("COLUMNINFO");
    reveal_strlit("COLUMNVOID");
    reveal_strlit("EOH");
    assert("STARTTIME"@.len() != "TESTID"@.len());
    assert("STARTTIME"@[0] != "PROJECTID"@[0]);
    assert("STARTTIME"@.len() != "PROJECTNAME"@.len());
    assert("STARTTIME"@[0] != "COMPANYID"@[0]);
    assert("STARTTIME"@.len() != "FILEDATE"@.len());
    assert("STARTTIME"@[5] != "STARTDATE"@[5]);
    assert("STARTTIME"@.len() != "XYID"@.len());
    assert("STARTTIME"@.len() != "ZID"@.len());
    assert("STARTTIME"@.len() != "COLUMNINFO"@.len());
    assert("STARTTIME"@.len() != "COLUMNVOID"@.len());
}

pub proof fn lemma_passed_key(k: Seq<char>)
    requires
        passed_key(k),
    ensures
        k.len() > 0,
        upper_word(k),
        plain_key(k),
        k != "EOH"@,
{
    if k == "GEFID"@ {
        lemma_key_gefid();
    }
    if k == "COLUMN"@ {
        lemma_key_column();
    }
    if k == "COLUMNSEPARATOR"@ {
        lemma_key_columnseparator();
    }
    if k == "COLUMNTEXT"@ {
        lemma_key_columntext();
    }
    if k == "FILEOWNER"@ {
        lemma_key_fileowner();
    }
    if k == "LASTSCAN"@ {
        lemma_key_lastscan();
    }
    if k == "MEASUREMENTTEXT"@ {
        lemma_key_measurementtext();
    }
    if k == "MEASUREMENTVAR"@ {
        lemma_key_measurementvar();
    }
    if k == "RECORDSEPARATOR"@ {
        lemma_key_recordseparator();
    }
    if k == "REPORTCODE"@ {
        lemma_key_reportcode();
    }
    if k == "STARTTIME"@ {
        lemma_key_starttime();
    }
}

pub proof fn lemma_passed_line(h: HeaderModel, key: Seq<char>, v: Seq<char>)
    requires
        passed_key(key),
    ensures
        header_line(h, trim(keyed(key, v))) == Some(h),
        !is_eoh(trim(keyed(key, v))),
{
    lemma_passed_key(key);
    lemma_keyed_line(h, key, v);
}

proof fn lemma_head_info_2(h: HeaderModel)
    ensures
        header_line(h, trim(head_lines()[2])) == Some(
            HeaderModel { columns: h.columns.push(ColumnSpec { index: 1, field: GefField::Length }), ..h },
        ),
{
    reveal_strlit("1, m, sondeertrajectlengte, 1");
    reveal_strlit("m");
    reveal_strlit("sondeertrajectlengte");
    let ps = seq![seq!['1'], "m"@, "sondeertrajectlengte"@, seq!['1']];
    reveal_with_fuel(comma_list, 5);
    assert("1, m, sondeertrajectlengte, 1"@ =~= comma_list(ps));
    lemma_trim_plain("m"@);
    lemma_trim_plain("sondeertrajectlengte"@);
    lemma_trim_plain(seq!['1']);
    assert(plain_parts(ps));
    lemma_info_line(h, '1', "m"@, "sondeertrajectlengte"@, '1');
}

proof fn lemma_head_info_3(h: HeaderModel)
    ensures
        header_line(h, trim(head_lines()[3])) == Some(
            HeaderModel { columns: h.columns.push(ColumnSpec { index: 2, field: GefField::Qc }), ..h },
        ),
{
    reveal_strlit("2, MPa, conusweerstand, 2");
    reveal_strlit("MPa");
    reveal_strlit("conusweerstand");
    let ps = seq![seq!['2'], "MPa"@, "conusweerstand"@, seq!['2']];
    reveal_with_fuel(comma_list, 5);
    assert("2, MPa, conusweerstand, 2"@ =~= comma_list(ps));
    lemma_trim_plain("MPa"@);
    lemma_trim_plain("conusweerstand"@);
    lemma_trim_plain(seq!['2']);
    assert(plain_parts(ps));
    lemma_info_line(h, '2', "MPa"@, "conusweerstand"@, '2');
}

proof fn lemma_head_info_4(h: HeaderModel)
    ensures
        header_line(h, trim(head_lines()[4])) == Some(
            HeaderModel { columns: h.columns.push(ColumnSpec { index: 3, field: GefField::Fs }), ..h },
        ),
{
    reveal_strlit("3, MPa, plaatselijke wrijving, 3");
    reveal_strlit("MPa");
    reveal_strlit("plaatselijke wrijving");
    let ps = seq![seq!['3'], "MPa"@, "plaatselijke wrijving"@, seq!['3']];
    reveal_with_fuel(comma_list, 5);
    assert("3, MPa, plaatselijke wrijving, 3"@ =~= comma_list(ps));
    lemma_trim_plain("MPa"@);
    lemma_trim_plain("plaatselijke wrijving"@);
    lemma_trim_plain(seq!['3']);
    assert(plain_parts(ps));
    lemma_info_line(h, '3', "MPa"@, "plaatselijke wrijving"@, '3');
}

proof fn lemma_head_info_5(h: HeaderModel)
    ensures
        header_line(h, trim(head_lines()[5])) == Some(
            HeaderModel { columns: h.columns.push(ColumnSpec { index: 4, field: GefField::Rf }), ..h },
        ),
{
    reveal_strlit("4, %, wrijvingsgetal, 4");
    reveal_strlit("%");
    reveal_strlit("wrijvingsgetal");
    let ps = seq![seq!['4'], "%"@, "wrijvingsgetal"@, seq!['4']];
    reveal_with_fuel(comma_list, 5);
    assert("4, %, wrijvingsgetal, 4"@ =~= comma_list(ps));
    lemma_trim_plain("%"@);
    lemma_trim_plain("wrijvingsgetal"@);
    lemma_trim_plain(seq!['4']);
    assert(plain_parts(ps));
    lemma_info_line(h, '4', "%"@, "wrijvingsgetal"@, '4');
}

proof fn lemma_head_void_8(h: HeaderModel)
    ensures
        header_line(h, trim(head_lines()[8])) == Some(
            HeaderModel { column_void: h.column_void.push((1usize, void3())), ..h },
        ),
{
    reveal_strlit("1, 999.999");
    reveal_strlit("999.999");
    lemma_void_texts();
    lemma_void_number("999.999"@, void3(), 3);
    let ps = seq![seq!['1'], "999.999"@];
    reveal_with_fuel(comma_list, 3);
    assert("1, 999.999"@ =~= comma_list(ps));
    lemma_trim_plain("999.999"@);
    lemma_trim_plain(seq!['1']);
    assert(plain_parts(ps));
    lemma_void_line(h, '1', "999.999"@, void3());
}

proof fn lemma_head_void_9(h: HeaderModel)
    ensures
        header_line(h, trim(head_lines()[9])) == Some(
            HeaderModel { column_void: h.column_void.push((2usize, void3())), ..h },
        ),
{
    reveal_strlit("2, 999.999");
    reveal_strlit("999.999");
    lemma_void_texts();
    lemma_void_number("999.999"@, void3(), 3);
    let ps = seq![seq!['2'], "999.999"@];
    reveal_with_fuel(comma_list, 3);
    assert("2, 999.999"@ =~= comma_list(ps));
    lemma_trim_plain("999.999"@);
    lemma_trim_plain(seq!['2']);
    assert(plain_parts(ps));
    lemma_void_line(h, '2', "999.999"@, void3());
}

proof fn lemma_head_void_10(h: HeaderModel)
    ensures
        header_line(h, trim(head_lines()[10])) == Some(
            HeaderModel { column_void: h.column_void.push((3usize, void_fs())), ..h },
        ),
{
    reveal_strlit("3, 9.999");
    reveal_strlit("9.999");
    lemma_void_texts();
    lemma_void_number("9.999"@, void_fs(), 3);
    let ps = seq![seq!['3'], "9.999"@];
    reveal_with_fuel(comma_list, 3);
    assert("3, 9.999"@ =~= comma_list(ps));
    lemma_trim_plain("9.999"@);
    lemma_trim_plain(seq!['3']);
    assert(plain_parts(ps));
    lemma_void_line(h, '3', "9.999"@, void_fs());
}

proof fn lemma_head_void_11(h: HeaderModel)
    ensures
        header_line(h, trim(head_lines()[11])) == Some(
            HeaderModel { column_void: h.column_void.push((4usize, void_rf())), ..h },
        ),
{
    reveal_strlit("4, 999.9");
    reveal_strlit("999.9");
    lemma_void_texts();
    lemma_void_number("999.9"@, void_rf(), 1);
    let ps = seq![seq!['4'], "999.9"@];
    reveal_with_fuel(comma_list, 3);
    assert("4, 999.9"@ =~= comma_list(ps));
    lemma_trim_plain("999.9"@);
    lemma_trim_plain(seq!['4']);
    assert(plain_parts(ps));
    lemma_void_line(h, '4', "999.9"@, void_rf());
}

spec fn head_cols(h: HeaderModel) -> HeaderModel {
    HeaderModel { columns: h.columns + written_columns(), ..h }
}

spec fn head_voids(h: HeaderModel) -> HeaderModel {
    HeaderModel { column_void: h.column_void + written_voids(), ..h }
}

#[verifier::spinoff_prover]
#[verifier::rlimit(40)]
proof fn lemma_head_fold_a(h: HeaderModel)
    ensures
        fold_lines(head_lines().subrange(0, 12), h) == fold_lines(head_lines().subrange(6, 12), head_cols(h)),
{
    let ls = head_lines();
    lemma_passed_line(h, "GEFID"@, "1, 1, 0"@);
    lemma_passed_line(h, "COLUMN"@, "4"@);
    lemma_fold_at(ls, 0, h, h);
    lemma_fold_at(ls, 1, h, h);
    let a1 = HeaderModel { columns: h.columns.push(ColumnSpec { index: 1, field: GefField::Length }), ..h };
    let a2 = HeaderModel { columns: a1.columns.push(ColumnSpec { index: 2, field: GefField::Qc }), ..h };
    let a3 = HeaderModel { columns: a2.columns.push(ColumnSpec { index: 3, field: GefField::Fs }), ..h };
    let a4 = HeaderModel { columns: a3.columns.push(ColumnSpec { index: 4, field: GefField::Rf }), ..h };
    lemma_head_info_2(h);
    lemma_head_info_3(a1);
    lemma_head_info_4(a2);
    lemma_head_info_5(a3);
    lemma_fold_at(ls, 2, h, a1);
    lemma_fold_at(ls, 3, a1, a2);
    lemma_fold_at(ls, 4, a2, a3);
    lemma_fold_at(ls, 5, a3, a4);
    assert(a4.columns =~= h.columns + written_columns());
    assert(a4 == head_cols(h));
}

#[verifier::spinoff_prover]
#[verifier::rlimit(40)]
proof fn lemma_head_fold_b(a4: HeaderModel)
    ensures
        fold_lines(head_lines().subrange(6, 12), a4) == Some(head_voids(a4)),
{
    let ls = head_lines();
    lemma_passed_line(a4, "COLUMNSEPARATOR"@, ";"@);
    lemma_passed_line(a4, "COLUMNTEXT"@, "1, aan"@);
    lemma_fold_at(ls, 6, a4, a4);
    lemma_fold_at(ls, 7, a4, a4);
    let b1 = HeaderModel { column_void: a4.column_void.push((1usize, void3())), ..a4 };
    let b2 = HeaderModel { column_void: b1.column_void.push((2usize, void3())), ..a4 };
    let b3 = HeaderModel { column_void: b2.column_void.push((3usize, void_fs())), ..a4 };
    let b4 = HeaderModel { column_void: b3.column_void.push((4usize, void_rf())), ..a4 };
    lemma_head_void_8(a4);
    lemma_head_void_9(b1);
    lemma_head_void_10(b2);
    lemma_head_void_11(b3);
    lemma_fold_at(ls, 8, a4, b1);
    lemma_fold_at(ls, 9, b1, b2);
    lemma_fold_at(ls, 10, b2, b3);
    lemma_fold_at(ls, 11, b3, b4);
    lemma_fold_end(ls, b4);
    assert(b4.column_void =~= a4.column_void + written_voids());
    assert(b4 == head_voids(a4));
}

/// The opening lines declare the written columns and their void values.
pub proof fn lemma_head_fold(h: HeaderModel)
    ensures
        fold_lines(head_lines(), h) == Some(
            HeaderModel {
                columns: h.columns + written_columns(),
                column_void: h.column_void + written_voids(),
                ..h
            },
        ),
{
    lemma_head_fold_a(h);
    lemma_head_fold_b(head_cols(h));
    assert(head_lines().subrange(0, 12) =~= head_lines());
}


pub open spec fn company_lines(c: Cpt) -> Seq<Seq<char>> {
    match opt_view(c.metadata.equipment) {
        Some(e) => seq![keyed("COMPANYID"@, e)],
        None => seq![],
    }
}

pub open spec fn filedate_lines(c: Cpt) -> Seq<Seq<char>> {
    match c.metadata.date {
        Some(d) => seq![keyed("FILEDATE"@, ymd_text(d, ", "@))],
        None => seq![],
    }
}

/// The value of `#FILEOWNER=`.
pub open spec fn owner_value(c: Cpt) -> Seq<char> {
    match c.metadata.extra.get_spec("FILEOWNER"@) {
        Some(s) => s@,
        None => "Open Geotechniek Studio"@,
    }
}

pub open spec fn owner_lines(c: Cpt) -> Seq<Seq<char>> {
    seq![keyed("FILEOWNER"@, owner_value(c))]
}

pub open spec fn lastscan_lines(c: Cpt) -> Seq<Seq<char>> {
    seq![keyed("LASTSCAN"@, nat_text(c.points@.len()))]
}

pub open spec fn mtext_lines(c: Cpt) -> Seq<Seq<char>> {
    if has_z(c) {
        seq![keyed("MEASUREMENTTEXT"@, "9, maaiveld, lokaal verticaal referentiepunt"@)]
    } else {
        seq![]
    }
}

pub open spec fn mvar_lines(c: Cpt) -> Seq<Seq<char>> {
    let f = first_depth(c.points@);
    (if f.num > 0 {
        seq![keyed("MEASUREMENTVAR"@, "13, "@ + fixed_text(f, 3) + ", m, voorgeboord tot"@)]
    } else {
        seq![]
    }) + seq![
        keyed("MEASUREMENTVAR"@, "16, "@ + fixed_text(last_depth(c.points@), 3) + ", m, einddiepte"@),
        keyed("MEASUREMENTVAR"@, "17, 0, -, stopcriterium"@),
    ]
}

/// The value of `#PROJECTID=`.
pub open spec fn project_value(c: Cpt) -> Seq<char> {
    match opt_view(c.metadata.project_number) {
        Some(s) => s,
        None => match c.metadata.extra.get_spec("PROJECTID"@) {
            Some(s) => s@,
            None => "Unknown"@,
        },
    }
}

pub open spec fn project_lines(c: Cpt) -> Seq<Seq<char>> {
    seq![keyed("PROJECTID"@, project_value(c))]
}

pub open spec fn separator_lines() -> Seq<Seq<char>> {
    seq![keyed("RECORDSEPARATOR"@, "!"@), keyed("REPORTCODE"@, "GEF-CPT-Report, 1, 1, 2"@)]
}

pub open spec fn startdate_lines(c: Cpt) -> Seq<Seq<char>> {
    match c.metadata.date {
        Some(d) => seq![keyed("STARTDATE"@, ymd_text(d, ", "@)), keyed("STARTTIME"@, "-, -, -"@)],
        None => seq![],
    }
}

pub open spec fn testid_lines(c: Cpt) -> Seq<Seq<char>> {
    seq![keyed("TESTID"@, c.id@)]
}

pub open spec fn zid_lines(z: Option<Number>) -> Seq<Seq<char>> {
    match z {
        Some(v) => seq![keyed("ZID"@, "31000, "@ + fixed_text(v, 3))],
        None => seq![],
    }
}

/// The level the writer declares: that of the position, else the ground
/// level.
pub open spec fn written_z(c: Cpt) -> Option<Number> {
    match c.position {
        Some(p) => if p.z_nap is Some {
            p.z_nap
        } else {
            c.metadata.ground_level_nap
        },
        None => c.metadata.ground_level_nap,
    }
}

pub open spec fn xyz_lines(c: Cpt) -> Seq<Seq<char>> {
    match c.position {
        Some(p) => seq![keyed("XYID"@, "28992, "@ + fixed_text(p.x_rd, 3) + ", "@ + fixed_text(p.y_rd, 3))]
            + zid_lines(written_z(c)),
        None => zid_lines(written_z(c)),
    }
}

#[verifier::spinoff_prover]
#[verifier::rlimit(40)]
proof fn lemma_piece_texts_a(c: Cpt)
    ensures
        company_text(c) == lines_text(company_lines(c)),
        filedate_text(c) == lines_text(filedate_lines(c)),
        owner_text(c) == lines_text(owner_lines(c)),
        lastscan_text(c) == lines_text(lastscan_lines(c)),
        project_text(c) == lines_text(project_lines(c)),
        testid_text(c) == lines_text(testid_lines(c)),
{
    reveal_strlit("#");
    reveal_strlit("= ");
    reveal_strlit("\n");
    reveal_with_fuel(lines_text, 2);
    reveal_strlit("#COMPANYID= ");
    reveal_strlit("COMPANYID");
    reveal_strlit("#FILEDATE= ");
    reveal_strlit("FILEDATE");
    reveal_strlit("#FILEOWNER= ");
    reveal_strlit("FILEOWNER");
    reveal_strlit("#LASTSCAN= ");
    reveal_strlit("LASTSCAN");
    reveal_strlit("#PROJECTID= ");
    reveal_strlit("PROJECTID");
    reveal_strlit("#TESTID= ");
    reveal_strlit("TESTID");
    match opt_view(c.metadata.equipment) {
        Some(e) => {
            assert(company_text(c) =~= lines_text(company_lines(c)));
        },
        None => {},
    }
    match c.metadata.date {
        Some(d) => {
            assert(filedate_text(c) =~= lines_text(filedate_lines(c)));
        },
        None => {},
    }
    assert(owner_text(c) =~= lines_text(owner_lines(c)));
    assert(lastscan_text(c) =~= lines_text(lastscan_lines(c)));
    assert(project_text(c) =~= lines_text(project_lines(c)));
    assert(testid_text(c) =~= lines_text(testid_lines(c)));
}

#[verifier::spinoff_prover]
#[verifier::rlimit(40)]
proof fn lemma_piece_texts_b(c: Cpt)
    ensures
        mtext_text(c) == lines_text(mtext_lines(c)),
        separators_text() == lines_text(separator_lines()),
        startdate_text(c) == lines_text(startdate_lines(c)),
        "#EOH=\n"@ == lines_text(seq!["#EOH="@]),
{
    reveal_strlit("#");
    reveal_strlit("= ");
    reveal_strlit("\n");
    reveal_with_fuel(lines_text, 3);
    reveal_strlit("#MEASUREMENTTEXT= 9, maaiveld, lokaal verticaal referentiepunt\n");
    reveal_strlit("MEASUREMENTTEXT");
    reveal_strlit("9, maaiveld, lokaal verticaal referentiepunt");
    reveal_strlit("#RECORDSEPARATOR= !\n#REPORTCODE= GEF-CPT-Report, 1, 1, 2\n");
    reveal_strlit("RECORDSEPARATOR");
    reveal_strlit("!");
    reveal_strlit("REPORTCODE");
    reveal_strlit("GEF-CPT-Report, 1, 1, 2");
    reveal_strlit("#STARTDATE= ");
    reveal_strlit("STARTDATE");
    reveal_strlit("#STARTTIME= -, -, -\n");
    reveal_strlit("STARTTIME");
    reveal_strlit("-, -, -");
    reveal_strlit("#EOH=\n");
    reveal_strlit("#EOH=");
    assert(mtext_text(c) =~= lines_text(mtext_lines(c)));
    assert(separators_text() =~= lines_text(separator_lines()));
    match c.metadata.date {
        Some(d) => {
            assert(startdate_text(c) =~= lines_text(startdate_lines(c)));
        },
        None => {},
    }
    assert("#EOH=\n"@ =~= lines_text(seq!["#EOH="@]));
}

#[verifier::spinoff_prover]
#[verifier::rlimit(40)]
proof fn lemma_piece_texts_c(c: Cpt)
    ensures
        mvar_text(c) == lines_text(mvar_lines(c)),
        xyz_text(c) == lines_text(xyz_lines(c)),
{
    reveal_strlit("#");
    reveal_strlit("= ");
    reveal_strlit("\n");
    reveal_strlit(", ");
    reveal_with_fuel(lines_text, 4);
    reveal_strlit("#MEASUREMENTVAR= 13, ");
    reveal_strlit("#MEASUREMENTVAR= 16, ");
    reveal_strlit("#MEASUREMENTVAR= 17, 0, -, stopcriterium\n");
    reveal_strlit("MEASUREMENTVAR");
    reveal_strlit("13, ");
    reveal_strlit("16, ");
    reveal_strlit("17, 0, -, stopcriterium");
    reveal_strlit(", m, voorgeboord tot\n");
    reveal_strlit(", m, voorgeboord tot");
    reveal_strlit(", m, einddiepte\n");
    reveal_strlit(", m, einddiepte");
    reveal_strlit("#XYID= 28992, ");
    reveal_strlit("XYID");
    reveal_strlit("28992, ");
    reveal_strlit("#ZID= 31000, ");
    reveal_strlit("ZID");
    reveal_strlit("31000, ");
    let f = first_depth(c.points@);
    let tail = seq![
        keyed("MEASUREMENTVAR"@, "16, "@ + fixed_text(last_depth(c.points@), 3) + ", m, einddiepte"@),
        keyed("MEASUREMENTVAR"@, "17, 0, -, stopcriterium"@),
    ];
    if f.num > 0 {
        let first = seq![keyed("MEASUREMENTVAR"@, "13, "@ + fixed_text(f, 3) + ", m, voorgeboord tot"@)];
        lemma_lines_text_add(first, tail);
        assert(mvar_lines(c) == first + tail);
    } else {
        assert(mvar_lines(c) =~= tail);
    }
    assert(mvar_text(c) =~= lines_text(mvar_lines(c)));
    match written_z(c) {
        Some(v) => {
            assert(zid_text(v) =~= lines_text(zid_lines(written_z(c))));
        },
        None => {
            assert(lines_text(zid_lines(written_z(c))) =~= Seq::<char>::empty());
        },
    }
    assert(opt_zid_text(written_z(c)) == lines_text(zid_lines(written_z(c))));
    match c.position {
        Some(p) => {
            let xy = seq![keyed("XYID"@, "28992, "@ + fixed_text(p.x_rd, 3) + ", "@ + fixed_text(p.y_rd, 3))];
            lemma_lines_text_add(xy, zid_lines(written_z(c)));
            assert(xyz_text(c) =~= lines_text(xyz_lines(c)));
        },
        None => {},
    }
}


/// The data line of a point: its record and the record separator.
pub open spec fn data_line(p: crate::cpt::MeasurementPoint) -> Seq<char> {
    gef_record_text(p) + seq!['!']
}

pub open spec fn data_lines(ps: Seq<crate::cpt::MeasurementPoint>) -> Seq<Seq<char>> {
    ps.map_values(|p: crate::cpt::MeasurementPoint| data_line(p))
}

/// The header lines of a written GEF file, before `#EOH=`.
pub open spec fn header_lines(c: Cpt) -> Seq<Seq<char>> {
    head_lines() + company_lines(c) + filedate_lines(c) + owner_lines(c) + lastscan_lines(c) + mtext_lines(c) + mvar_lines(c) + project_lines(c) + separator_lines() + startdate_lines(c) + testid_lines(c) + xyz_lines(c)
}

/// Every line of a written GEF file.
pub open spec fn all_lines(c: Cpt) -> Seq<Seq<char>> {
    header_lines(c) + seq!["#EOH="@] + data_lines(c.points@)
}

proof fn lemma_rows_text(ps: Seq<crate::cpt::MeasurementPoint>)
    ensures
        gef_rows_text(ps) == lines_text(data_lines(ps)),
    decreases ps.len(),
{
    if ps.len() > 0 {
        let q = ps.drop_last();
        lemma_rows_text(q);
        assert(data_lines(ps) =~= data_lines(q) + seq![data_line(ps.last())]);
        lemma_lines_text_add(data_lines(q), seq![data_line(ps.last())]);
        reveal_strlit(";!\n");
        reveal_strlit(";");
        reveal_with_fuel(lines_text, 2);
        assert(gef_row_text(ps.last()) =~= lines_text(seq![data_line(ps.last())]));
    } else {
        assert(data_lines(ps) =~= Seq::<Seq<char>>::empty());
    }
}

/// A written GEF file is its lines, each followed by a line break.
pub proof fn lemma_gef_lines(c: Cpt)
    ensures
        gef_text(c) == lines_text(all_lines(c)),
{
    lemma_head_text();
    lemma_piece_texts_a(c);
    lemma_piece_texts_b(c);
    lemma_piece_texts_c(c);
    lemma_rows_text(c.points@);
    lemma_lines_text_add(head_lines(), company_lines(c));
    lemma_lines_text_add(head_lines() + company_lines(c), filedate_lines(c));
    lemma_lines_text_add(head_lines() + company_lines(c) + filedate_lines(c), owner_lines(c));
    lemma_lines_text_add(head_lines() + company_lines(c) + filedate_lines(c) + owner_lines(c), lastscan_lines(c));
    lemma_lines_text_add(head_lines() + company_lines(c) + filedate_lines(c) + owner_lines(c) + lastscan_lines(c), mtext_lines(c));
    lemma_lines_text_add(head_lines() + company_lines(c) + filedate_lines(c) + owner_lines(c) + lastscan_lines(c) + mtext_lines(c), mvar_lines(c));
    lemma_lines_text_add(head_lines() + company_lines(c) + filedate_lines(c) + owner_lines(c) + lastscan_lines(c) + mtext_lines(c) + mvar_lines(c), project_lines(c));
    lemma_lines_text_add(head_lines() + company_lines(c) + filedate_lines(c) + owner_lines(c) + lastscan_lines(c) + mtext_lines(c) + mvar_lines(c) + project_lines(c), separator_lines());
    lemma_lines_text_add(head_lines() + company_lines(c) + filedate_lines(c) + owner_lines(c) + lastscan_lines(c) + mtext_lines(c) + mvar_lines(c) + project_lines(c) + separator_lines(), startdate_lines(c));
    lemma_lines_text_add(head_lines() + company_lines(c) + filedate_lines(c) + owner_lines(c) + lastscan_lines(c) + mtext_lines(c) + mvar_lines(c) + project_lines(c) + separator_lines() + startdate_lines(c), testid_lines(c));
    lemma_lines_text_add(head_lines() + company_lines(c) + filedate_lines(c) + owner_lines(c) + lastscan_lines(c) + mtext_lines(c) + mvar_lines(c) + project_lines(c) + separator_lines() + startdate_lines(c) + testid_lines(c), xyz_lines(c));
    lemma_lines_text_add(header_lines(c), seq!["#EOH="@]);
    lemma_lines_text_add(header_lines(c) + seq!["#EOH="@], data_lines(c.points@));
}


/// Neither a line break nor a carriage return occurs in `s`.
pub open spec fn clean(s: Seq<char>) -> bool {
    lacks(s, '\n') && lacks(s, '\r')
}

pub open spec fn all_clean(ls: Seq<Seq<char>>) -> bool {
    forall|i: int| 0 <= i < ls.len() ==> clean(#[trigger] ls[i])
}

proof fn lemma_all_clean_add(a: Seq<Seq<char>>, b: Seq<Seq<char>>)
    requires
        all_clean(a),
        all_clean(b),
    ensures
        all_clean(a + b),
{
    assert forall|i: int| 0 <= i < (a + b).len() implies clean(#[trigger] (a + b)[i]) by {
        if i < a.len() {
            assert((a + b)[i] == a[i]);
        } else {
            assert((a + b)[i] == b[i - a.len()]);
        }
    }
}

proof fn lemma_clean_concat(a: Seq<char>, b: Seq<char>)
    requires
        clean(a),
        clean(b),
    ensures
        clean(a + b),
{
    assert forall|i: int| 0 <= i < (a + b).len() implies #[trigger] (a + b)[i] != '\n' && (a + b)[i] != '\r' by {
        if i < a.len() {
            assert((a + b)[i] == a[i]);
        } else {
            assert((a + b)[i] == b[i - a.len()]);
        }
    }
}

proof fn lemma_numeral_clean(s: Seq<char>)
    requires
        forall|i: int| 0 <= i < s.len() ==> numeral_char(#[trigger] s[i]),
    ensures
        clean(s),
        lacks(s, ','),
{
    assert forall|i: int| 0 <= i < s.len() implies #[trigger] s[i] != '\n' && s[i] != '\r' && s[i] != ',' by {
        assert(numeral_char(s[i]));
    }
}

proof fn lemma_digits_clean(s: Seq<char>)
    requires
        all_digits(s),
    ensures
        clean(s),
        lacks(s, ','),
        forall|i: int| 0 <= i < s.len() ==> numeral_char(#[trigger] s[i]),
{
    assert forall|i: int| 0 <= i < s.len() implies numeral_char(#[trigger] s[i]) by {
        assert(is_digit(s[i]));
    }
    lemma_numeral_clean(s);
}

proof fn lemma_fixed_clean(n: Number, k: nat)
    requires
        k >= 1,
        n.den > 0,
    ensures
        clean(fixed_text(n, k)),
        lacks(fixed_text(n, k), ','),
{
    lemma_fixed_text_shape(n, k);
    lemma_numeral_clean(fixed_text(n, k));
}

proof fn lemma_keyed_clean(key: Seq<char>, v: Seq<char>)
    requires
        upper_word(key),
        clean(v),
    ensures
        clean(keyed(key, v)),
{
    reveal_strlit("#");
    reveal_strlit("= ");
    let k = keyed(key, v);
    assert forall|i: int| 0 <= i < k.len() implies #[trigger] k[i] != '\n' && k[i] != '\r' by {
        if 1 <= i < key.len() + 1 {
            assert(k[i] == key[i - 1]);
            assert('A' <= key[i - 1] <= 'Z');
        } else if i >= key.len() + 3 {
            assert(k[i] == v[i - key.len() - 3]);
        }
    }
}

proof fn lemma_ymd_clean(d: crate::calendar::Date)
    ensures
        clean(ymd_text(d, ", "@)),
{
    reveal_strlit(", ");
    let y = d.year as int;
    let yt = year_text(y);
    if 0 <= y <= 9999 {
        lemma_padded(y as nat, 4);
        lemma_digits_clean(yt);
    } else {
        let a = if y > 0 { y } else { -y };
        let sg: Seq<char> = if y > 0 { seq!['+'] } else { seq!['-'] };
        let ds = if a <= 9999 { padded(a as nat, 4) } else { nat_text(a as nat) };
        lemma_padded(a as nat, 4);
        lemma_nat_text(a as nat);
        lemma_digits_clean(ds);
        assert(clean(sg));
        assert(yt =~= sg + ds);
        lemma_clean_concat(sg, ds);
    }
    lemma_padded(d.month as nat, 2);
    lemma_padded(d.day as nat, 2);
    lemma_digits_clean(two_digits(d.month as int));
    lemma_digits_clean(two_digits(d.day as int));
    assert(clean(", "@));
    lemma_clean_concat(yt, ", "@);
    lemma_clean_concat(yt + ", "@, two_digits(d.month as int));
    lemma_clean_concat(yt + ", "@ + two_digits(d.month as int), ", "@);
    lemma_clean_concat(yt + ", "@ + two_digits(d.month as int) + ", "@, two_digits(d.day as int));
}


#[verifier::spinoff_prover]
proof fn lemma_head_clean()
    ensures
        all_clean(head_lines()),
{
    reveal_strlit("1, 1, 0");
    reveal_strlit("1, 999.999");
    reveal_strlit("1, aan");
    reveal_strlit("1, m, sondeertrajectlengte, 1");
    reveal_strlit("2, 999.999");
    reveal_strlit("2, MPa, conusweerstand, 2");
    reveal_strlit("3, 9.999");
    reveal_strlit("3, MPa, plaatselijke wrijving, 3");
    reveal_strlit("4");
    reveal_strlit("4, %, wrijvingsgetal, 4");
    reveal_strlit("4, 999.9");
    reveal_strlit(";");
    reveal_strlit("COLUMN");
    reveal_strlit("COLUMNINFO");
    reveal_strlit("COLUMNSEPARATOR");
    reveal_strlit("COLUMNTEXT");
    reveal_strlit("COLUMNVOID");
    reveal_strlit("GEFID");
    assert(upper_word("COLUMN"@));
    assert(upper_word("COLUMNINFO"@));
    assert(upper_word("COLUMNSEPARATOR"@));
    assert(upper_word("COLUMNTEXT"@));
    assert(upper_word("COLUMNVOID"@));
    assert(upper_word("GEFID"@));
    let ls = head_lines();
    lemma_keyed_clean("GEFID"@, "1, 1, 0"@);
    lemma_keyed_clean("COLUMN"@, "4"@);
    lemma_keyed_clean("COLUMNINFO"@, "1, m, sondeertrajectlengte, 1"@);
    lemma_keyed_clean("COLUMNINFO"@, "2, MPa, conusweerstand, 2"@);
    lemma_keyed_clean("COLUMNINFO"@, "3, MPa, plaatselijke wrijving, 3"@);
    lemma_keyed_clean("COLUMNINFO"@, "4, %, wrijvingsgetal, 4"@);
    lemma_keyed_clean("COLUMNSEPARATOR"@, ";"@);
    lemma_keyed_clean("COLUMNTEXT"@, "1, aan"@);
    lemma_keyed_clean("COLUMNVOID"@, "1, 999.999"@);
    lemma_keyed_clean("COLUMNVOID"@, "2, 999.999"@);
    lemma_keyed_clean("COLUMNVOID"@, "3, 9.999"@);
    lemma_keyed_clean("COLUMNVOID"@, "4, 999.9"@);
}

proof fn lemma_literal_lines_clean(c: Cpt)
    ensures
        all_clean(mtext_lines(c)),
        all_clean(separator_lines()),
        all_clean(seq!["#EOH="@]),
{
    reveal_strlit("MEASUREMENTTEXT");
    reveal_strlit("9, maaiveld, lokaal verticaal referentiepunt");
    reveal_strlit("RECORDSEPARATOR");
    reveal_strlit("!");
    reveal_strlit("REPORTCODE");
    reveal_strlit("GEF-CPT-Report, 1, 1, 2");
    reveal_strlit("#EOH=");
    assert(upper_word("MEASUREMENTTEXT"@));
    assert(upper_word("RECORDSEPARATOR"@));
    assert(upper_word("REPORTCODE"@));
    lemma_keyed_clean("MEASUREMENTTEXT"@, "9, maaiveld, lokaal verticaal referentiepunt"@);
    lemma_keyed_clean("RECORDSEPARATOR"@, "!"@);
    lemma_keyed_clean("REPORTCODE"@, "GEF-CPT-Report, 1, 1, 2"@);
    assert(clean("#EOH="@));
}

proof fn lemma_date_lines_clean(c: Cpt)
    ensures
        all_clean(filedate_lines(c)),
        all_clean(startdate_lines(c)),
{
    reveal_strlit("FILEDATE");
    reveal_strlit("STARTDATE");
    reveal_strlit("STARTTIME");
    reveal_strlit("-, -, -");
    assert(upper_word("FILEDATE"@));
    assert(upper_word("STARTDATE"@));
    assert(upper_word("STARTTIME"@));
    match c.metadata.date {
        Some(d) => {
            lemma_ymd_clean(d);
            lemma_keyed_clean("FILEDATE"@, ymd_text(d, ", "@));
            lemma_keyed_clean("STARTDATE"@, ymd_text(d, ", "@));
            lemma_keyed_clean("STARTTIME"@, "-, -, -"@);
        },
        None => {},
    }
}

proof fn lemma_value_lines_clean(c: Cpt)
    requires
        clean(c.id@),
        opt_view(c.metadata.equipment) matches Some(e) ==> clean(e),
        clean(owner_value(c)),
        clean(project_value(c)),
    ensures
        all_clean(company_lines(c)),
        all_clean(owner_lines(c)),
        all_clean(lastscan_lines(c)),
        all_clean(project_lines(c)),
        all_clean(testid_lines(c)),
{
    reveal_strlit("COMPANYID");
    reveal_strlit("FILEOWNER");
    reveal_strlit("LASTSCAN");
    reveal_strlit("PROJECTID");
    reveal_strlit("TESTID");
    assert(upper_word("COMPANYID"@));
    assert(upper_word("FILEOWNER"@));
    assert(upper_word("LASTSCAN"@));
    assert(upper_word("PROJECTID"@));
    assert(upper_word("TESTID"@));
    match opt_view(c.metadata.equipment) {
        Some(e) => {
            lemma_keyed_clean("COMPANYID"@, e);
        },
        None => {},
    }
    lemma_keyed_clean("FILEOWNER"@, owner_value(c));
    lemma_nat_text(c.points@.len());
    lemma_digits_clean(nat_text(c.points@.len()));
    lemma_keyed_clean("LASTSCAN"@, nat_text(c.points@.len()));
    lemma_keyed_clean("PROJECTID"@, project_value(c));
    lemma_keyed_clean("TESTID"@, c.id@);
}

proof fn lemma_number_lines_clean(c: Cpt)
    requires
        cpt_ok(c),
    ensures
        all_clean(mvar_lines(c)),
        all_clean(xyz_lines(c)),
{
    reveal_strlit("MEASUREMENTVAR");
    reveal_strlit("XYID");
    reveal_strlit("ZID");
    reveal_strlit("13, ");
    reveal_strlit("16, ");
    reveal_strlit(", m, voorgeboord tot");
    reveal_strlit(", m, einddiepte");
    reveal_strlit("17, 0, -, stopcriterium");
    reveal_strlit("28992, ");
    reveal_strlit(", ");
    reveal_strlit("31000, ");
    assert(upper_word("MEASUREMENTVAR"@));
    assert(upper_word("XYID"@));
    assert(upper_word("ZID"@));
    let ps = c.points@;
    let f = first_depth(ps);
    let l = last_depth(ps);
    if ps.len() > 0 {
        assert(point_ok(ps[0]));
        assert(point_ok(ps[ps.len() - 1]));
    }
    lemma_fixed_clean(f, 3);
    lemma_fixed_clean(l, 3);
    assert(clean("13, "@));
    assert(clean(", m, voorgeboord tot"@));
    assert(clean("16, "@));
    assert(clean(", m, einddiepte"@));
    lemma_clean_concat("13, "@, fixed_text(f, 3));
    lemma_clean_concat("13, "@ + fixed_text(f, 3), ", m, voorgeboord tot"@);
    lemma_clean_concat("16, "@, fixed_text(l, 3));
    lemma_clean_concat("16, "@ + fixed_text(l, 3), ", m, einddiepte"@);
    lemma_keyed_clean("MEASUREMENTVAR"@, "13, "@ + fixed_text(f, 3) + ", m, voorgeboord tot"@);
    lemma_keyed_clean("MEASUREMENTVAR"@, "16, "@ + fixed_text(l, 3) + ", m, einddiepte"@);
    lemma_keyed_clean("MEASUREMENTVAR"@, "17, 0, -, stopcriterium"@);
    match written_z(c) {
        Some(z) => {
            lemma_fixed_clean(z, 3);
            lemma_clean_concat("31000, "@, fixed_text(z, 3));
            lemma_keyed_clean("ZID"@, "31000, "@ + fixed_text(z, 3));
        },
        None => {},
    }
    match c.position {
        Some(p) => {
            lemma_fixed_clean(p.x_rd, 3);
            lemma_fixed_clean(p.y_rd, 3);
            lemma_clean_concat("28992, "@, fixed_text(p.x_rd, 3));
            lemma_clean_concat("28992, "@ + fixed_text(p.x_rd, 3), ", "@);
            lemma_clean_concat("28992, "@ + fixed_text(p.x_rd, 3) + ", "@, fixed_text(p.y_rd, 3));
            lemma_keyed_clean("XYID"@, "28992, "@ + fixed_text(p.x_rd, 3) + ", "@ + fixed_text(p.y_rd, 3));
            lemma_all_clean_add(
                seq![keyed("XYID"@, "28992, "@ + fixed_text(p.x_rd, 3) + ", "@ + fixed_text(p.y_rd, 3))],
                zid_lines(written_z(c)),
            );
        },
        None => {},
    }
}


/// The prefix a separator declaration starts with.
pub open spec fn key_prefix(k: Seq<char>) -> Seq<char> {
    "#"@ + k + "="@
}

/// A written line starts with the prefix of a keyword only when it
/// declares that keyword, and then declares the first character of its
/// value.
pub proof fn lemma_keyed_prefix(key: Seq<char>, v: Seq<char>, k: Seq<char>)
    requires
        key.len() > 0,
        upper_word(key),
        k.len() > 0,
        upper_word(k),
    ensures
        starts_with(trim(keyed(key, v)), key_prefix(k)) <==> key == k,
        key == k ==> declared(trim(keyed(key, v)), key_prefix(k)) == first_char(value_in(key, v)),
{
    reveal_strlit("#");
    reveal_strlit("= ");
    reveal_strlit("=");
    let p = seq!['#'] + key + seq!['='];
    assert(keyed(key, v) =~= p + (seq![' '] + v));
    assert(p[0] == '#');
    assert(p.last() == '=');
    lemma_trim_keeps_prefix(p, seq![' '] + v);
    let t = trim(keyed(key, v));
    let q = key_prefix(k);
    assert(q =~= seq!['#'] + k + seq!['=']);
    assert(t.subrange(0, p.len() as int) == p);
    if key == k {
        assert(t.take(q.len() as int) =~= q);
    }
    if starts_with(t, q) {
        assert(t.take(q.len() as int) == q);
        if key.len() < k.len() {
            assert(t[key.len() as int + 1] == p[key.len() as int + 1]);
            assert(t[key.len() as int + 1] == q[key.len() as int + 1]);
            assert(q[key.len() as int + 1] == k[key.len() as int]);
            assert('A' <= k[key.len() as int] <= 'Z');
        } else if key.len() > k.len() {
            assert(t[k.len() as int + 1] == p[k.len() as int + 1]);
            assert(t[k.len() as int + 1] == q[k.len() as int + 1]);
            assert(p[k.len() as int + 1] == key[k.len() as int]);
            assert('A' <= key[k.len() as int] <= 'Z');
        } else {
            assert forall|i: int| 0 <= i < key.len() implies key[i] == k[i] by {
                assert(t[i + 1] == p[i + 1]);
                assert(t[i + 1] == q[i + 1]);
            }
            assert(key =~= k);
        }
    }
}

/// No line of `ls` declares a separator.
pub open spec fn no_separator(ls: Seq<Seq<char>>) -> bool {
    forall|i: int|
        0 <= i < ls.len() ==> !starts_with(#[trigger] trim(ls[i]), "#COLUMNSEPARATOR="@) && !starts_with(
            trim(ls[i]),
            "#RECORDSEPARATOR="@,
        )
}

pub proof fn lemma_separators_skip(a: Seq<Seq<char>>, b: Seq<Seq<char>>)
    requires
        no_separator(b),
    ensures
        separators(a + b) == separators(a),
    decreases b.len(),
{
    if b.len() == 0 {
        assert(a + b =~= a);
    } else {
        let b0 = b.drop_last();
        assert forall|i: int| 0 <= i < b0.len() implies !starts_with(#[trigger] trim(b0[i]), "#COLUMNSEPARATOR="@)
            && !starts_with(trim(b0[i]), "#RECORDSEPARATOR="@) by {
            assert(b0[i] == b[i]);
        }
        lemma_separators_skip(a, b0);
        assert((a + b).drop_last() =~= a + b0);
        assert((a + b).last() == b[b.len() - 1]);
    }
}

pub proof fn lemma_no_separator_add(a: Seq<Seq<char>>, b: Seq<Seq<char>>)
    requires
        no_separator(a),
        no_separator(b),
    ensures
        no_separator(a + b),
{
    assert forall|i: int| 0 <= i < (a + b).len() implies !starts_with(#[trigger] trim((a + b)[i]), "#COLUMNSEPARATOR="@)
        && !starts_with(trim((a + b)[i]), "#RECORDSEPARATOR="@) by {
        if i < a.len() {
            assert((a + b)[i] == a[i]);
        } else {
            assert((a + b)[i] == b[i - a.len()]);
        }
    }
}

proof fn lemma_separator_prefixes()
    ensures
        "#COLUMNSEPARATOR="@ == key_prefix("COLUMNSEPARATOR"@),
        "#RECORDSEPARATOR="@ == key_prefix("RECORDSEPARATOR"@),
        upper_word("COLUMNSEPARATOR"@),
        upper_word("RECORDSEPARATOR"@),
        "COLUMNSEPARATOR"@.len() > 0,
        "RECORDSEPARATOR"@.len() > 0,
{
    reveal_strlit("#COLUMNSEPARATOR=");
    reveal_strlit("#RECORDSEPARATOR=");
    reveal_strlit("COLUMNSEPARATOR");
    reveal_strlit("RECORDSEPARATOR");
    reveal_strlit("#");
    reveal_strlit("=");
    assert("#COLUMNSEPARATOR="@ =~= key_prefix("COLUMNSEPARATOR"@));
    assert("#RECORDSEPARATOR="@ =~= key_prefix("RECORDSEPARATOR"@));
}

/// A written line for another keyword than the two separators declares
/// neither.
pub proof fn lemma_keyed_no_separator(key: Seq<char>, v: Seq<char>)
    requires
        key.len() > 0,
        upper_word(key),
        key != "COLUMNSEPARATOR"@,
        key != "RECORDSEPARATOR"@,
    ensures
        no_separator(seq![keyed(key, v)]),
{
    lemma_separator_prefixes();
    lemma_keyed_prefix(key, v, "COLUMNSEPARATOR"@);
    lemma_keyed_prefix(key, v, "RECORDSEPARATOR"@);
}


/// A point the GEF writer writes so that the reader gets it back: its
/// values fit their text and its depth does not show the void value.
pub open spec fn point_writable(p: crate::cpt::MeasurementPoint) -> bool {
    &&& p.depth.den > 0
    &&& scaled_round(p.depth, 3) < pow10(17)
    &&& writable(p.qc, 3)
    &&& writable(p.fs, 3)
    &&& writable(p.rf, 1)
    &&& !near(shown(p.depth, 3), void3())
}

pub open spec fn record_char(c: char) -> bool {
    numeral_char(c) || c == ';'
}

proof fn lemma_piece_chars(r: Seq<char>, a: Seq<char>)
    requires
        a.len() > 0,
        forall|i: int| 0 <= i < a.len() ==> numeral_char(#[trigger] a[i]),
        forall|i: int| 0 <= i < r.len() ==> record_char(#[trigger] r[i]),
    ensures
        forall|i: int| 0 <= i < (r + a + ";"@).len() ==> record_char(#[trigger] (r + a + ";"@)[i]),
        (r + a + ";"@).last() == ';',
{
    reveal_strlit(";");
    let w = r + a + ";"@;
    assert forall|i: int| 0 <= i < w.len() implies record_char(#[trigger] w[i]) by {
        if i < r.len() {
            assert(w[i] == r[i]);
        } else if i < r.len() + a.len() {
            assert(w[i] == a[i - r.len()]);
        }
    }
}

/// A written record: made of digits, signs, points and `;`, starting with
/// a digit or sign and ending with `;`.
pub proof fn lemma_record_shape(p: crate::cpt::MeasurementPoint)
    requires
        point_writable(p),
    ensures
        gef_record_text(p).len() > 0,
        numeral_char(gef_record_text(p)[0]),
        gef_record_text(p).last() == ';',
        forall|i: int| 0 <= i < gef_record_text(p).len() ==> record_char(#[trigger] gef_record_text(p)[i]),
{
    lemma_pow_facts();
    lemma_void_texts();
    lemma_fixed_text_shape(p.depth, 3);
    lemma_written_piece(p.qc, 3, void3(), "999.999"@);
    lemma_written_piece(p.fs, 3, void_fs(), "9.999"@);
    lemma_written_piece(p.rf, 1, void_rf(), "999.9"@);
    let a = fixed_text(p.depth, 3);
    let b = void_or(p.qc, 3, "999.999"@);
    let c = void_or(p.fs, 3, "9.999"@);
    let d = void_or(p.rf, 1, "999.9"@);
    let e = Seq::<char>::empty();
    lemma_piece_chars(e, a);
    assert(e + a + ";"@ =~= a + ";"@);
    lemma_piece_chars(a + ";"@, b);
    lemma_piece_chars(a + ";"@ + b + ";"@, c);
    lemma_piece_chars(a + ";"@ + b + ";"@ + c + ";"@, d);
    assert(gef_record_text(p)[0] == a[0]);
}

/// A data line: clean, without `!` but at its end, not starting with `#`,
/// and its own trimmed form.
pub proof fn lemma_data_line_shape(p: crate::cpt::MeasurementPoint)
    requires
        point_writable(p),
    ensures
        clean(data_line(p)),
        lacks(gef_record_text(p), '!'),
        lacks(gef_record_text(p), '\n'),
        trim(data_line(p)) == data_line(p),
        data_line(p)[0] != '#',
        trim(gef_record_text(p)) == gef_record_text(p),
{
    lemma_record_shape(p);
    let r = gef_record_text(p);
    let l = data_line(p);
    assert forall|i: int| 0 <= i < l.len() implies #[trigger] l[i] != '\n' && l[i] != '\r' by {
        if i < r.len() {
            assert(record_char(r[i]));
        }
    }
    assert forall|i: int| 0 <= i < r.len() implies #[trigger] r[i] != '!' && r[i] != '\n' by {
        assert(record_char(r[i]));
    }
    assert(l[0] == r[0]);
    assert(numeral_char(r[0]));
    lemma_trim_plain(l);
    lemma_trim_plain(r);
}


/// The pieces, each followed by `c`.
pub open spec fn sep_text(ps: Seq<Seq<char>>, c: char) -> Seq<char>
    decreases ps.len(),
{
    if ps.len() == 0 {
        seq![]
    } else {
        ps[0] + seq![c] + sep_text(ps.drop_first(), c)
    }
}

proof fn lemma_sep_text_push(ps: Seq<Seq<char>>, x: Seq<char>, c: char)
    ensures
        sep_text(ps.push(x), c) == sep_text(ps, c) + x + seq![c],
    decreases ps.len(),
{
    if ps.len() == 0 {
        assert(ps.push(x).drop_first() =~= Seq::<Seq<char>>::empty());
        assert(ps.push(x)[0] == x);
        assert(sep_text(Seq::<Seq<char>>::empty(), c) =~= Seq::<char>::empty());
        assert(sep_text(ps.push(x), c) =~= x + seq![c]);
        assert(sep_text(ps, c) + x + seq![c] =~= x + seq![c]);
    } else {
        assert(ps.push(x).drop_first() =~= ps.drop_first().push(x));
        lemma_sep_text_push(ps.drop_first(), x, c);
        assert(sep_text(ps.push(x), c) =~= sep_text(ps, c) + x + seq![c]);
    }
}

proof fn lemma_split_sep_text(ps: Seq<Seq<char>>, c: char)
    requires
        forall|i: int| 0 <= i < ps.len() ==> lacks(#[trigger] ps[i], c),
    ensures
        split_on(sep_text(ps, c), c) == ps.push(Seq::<char>::empty()),
    decreases ps.len(),
{
    if ps.len() == 0 {
        lemma_split_empty(c);
        assert(ps.push(Seq::<char>::empty()) =~= seq![Seq::<char>::empty()]);
    } else {
        let t = ps.drop_first();
        assert forall|i: int| 0 <= i < t.len() implies lacks(#[trigger] t[i], c) by {
            assert(t[i] == ps[i + 1]);
        }
        lemma_split_sep_text(t, c);
        assert(lacks(ps[0], c));
        lemma_split_first(ps[0], c, sep_text(t, c));
        assert(seq![ps[0]] + t.push(Seq::<char>::empty()) =~= ps.push(Seq::<char>::empty()));
    }
}

/// The pieces between the record separators of the written data lines:
/// the first record, then each later one after the line break that ends
/// the line before it.
pub open spec fn rec_pieces(ps: Seq<crate::cpt::MeasurementPoint>) -> Seq<Seq<char>> {
    Seq::new(
        ps.len(),
        |k: int|
            if k == 0 {
                gef_record_text(ps[k])
            } else {
                seq!['\n'] + gef_record_text(ps[k])
            },
    )
}

proof fn lemma_join_data(ps: Seq<crate::cpt::MeasurementPoint>)
    requires
        ps.len() > 0,
    ensures
        join(data_lines(ps), '\n') == sep_text(rec_pieces(ps), '!'),
    decreases ps.len(),
{
    let d = data_lines(ps);
    if ps.len() == 1 {
        assert(rec_pieces(ps).drop_first() =~= Seq::<Seq<char>>::empty());
        assert(rec_pieces(ps)[0] == gef_record_text(ps[0]));
        assert(sep_text(Seq::<Seq<char>>::empty(), '!') =~= Seq::<char>::empty());
        assert(sep_text(rec_pieces(ps), '!') =~= gef_record_text(ps[0]) + seq!['!']);
        assert(d[0] == data_line(ps[0]));
    } else {
        let q = ps.drop_last();
        lemma_join_data(q);
        assert(d.drop_last() =~= data_lines(q));
        assert(rec_pieces(ps) =~= rec_pieces(q).push(seq!['\n'] + gef_record_text(ps.last())));
        lemma_sep_text_push(rec_pieces(q), seq!['\n'] + gef_record_text(ps.last()), '!');
        assert(d.last() == data_line(ps.last()));
        assert(join(d, '\n') =~= sep_text(rec_pieces(ps), '!'));
    }
}

/// The records the reader finds in the written data lines.
pub proof fn lemma_data_records(ps: Seq<crate::cpt::MeasurementPoint>)
    requires
        forall|i: int| 0 <= i < ps.len() ==> point_writable(#[trigger] ps[i]),
    ensures
        records(join(data_lines(ps), '\n'), Some('!')) == rec_pieces(ps).push(Seq::<char>::empty()),
{
    if ps.len() == 0 {
        assert(data_lines(ps) =~= Seq::<Seq<char>>::empty());
        lemma_split_empty('!');
        assert(rec_pieces(ps).push(Seq::<char>::empty()) =~= seq![Seq::<char>::empty()]);
    } else {
        lemma_join_data(ps);
        let rp = rec_pieces(ps);
        assert forall|i: int| 0 <= i < rp.len() implies lacks(#[trigger] rp[i], '!') by {
            assert(point_writable(ps[i]));
            lemma_data_line_shape(ps[i]);
            let r = gef_record_text(ps[i]);
            if i > 0 {
                assert forall|j: int| 0 <= j < rp[i].len() implies #[trigger] rp[i][j] != '!' by {
                    if j > 0 {
                        assert(rp[i][j] == r[j - 1]);
                    }
                }
            }
        }
        lemma_split_sep_text(rp, '!');
    }
}

/// A trimmed text after a line break trims to itself.
proof fn lemma_trim_after_break(v: Seq<char>)
    requires
        v.len() > 0,
        !is_ws(v[0]),
        !is_ws(v.last()),
    ensures
        trim(seq!['\n'] + v) == v,
{
    let t = seq!['\n'] + v;
    assert(t[1] == v[0]);
    assert(skip_ws(t, 1) == 1);
    assert(skip_ws(t, 0) == 1);
    assert(t.last() == v.last());
    assert(trim_end_at(t, t.len() as int) == t.len());
    assert(t.subrange(1, t.len() as int) =~= v);
}

/// What the reader makes of a written point, under the level `z`.
pub open spec fn read_point(p: crate::cpt::MeasurementPoint, z: Option<Number>) -> crate::cpt::MeasurementPoint {
    complete_point(
        crate::cpt::MeasurementPoint {
            depth: abs_num(shown(p.depth, 3)),
            depth_nap: None,
            qc: read_back(p.qc, 3, void3()),
            fs: read_back(p.fs, 3, void_fs()),
            rf: read_back(p.rf, 1, void_rf()),
            u2: None,
            inclination: None,
        },
        z,
    )
}

pub open spec fn read_points(ps: Seq<crate::cpt::MeasurementPoint>, z: Option<Number>) -> Seq<crate::cpt::MeasurementPoint> {
    ps.map_values(|p: crate::cpt::MeasurementPoint| read_point(p, z))
}

proof fn lemma_record_point(ps: Seq<crate::cpt::MeasurementPoint>, h: HeaderModel, k: int)
    requires
        forall|i: int| 0 <= i < ps.len() ==> point_writable(#[trigger] ps[i]),
        h.columns == written_columns(),
        h.column_void == written_voids(),
        0 <= k < ps.len(),
    ensures
        ({
            let t = trim(rec_pieces(ps).push(Seq::<char>::empty())[k]);
            &&& t.len() > 0
            &&& values_from(record_tokens(t, Some(';')), 0, seq![]) matches Some(nums) && nums.len() > 0
                && point_spec(nums, h) == Some(read_point(ps[k], h.z_nap))
        }),
{
    let recs = rec_pieces(ps).push(Seq::<char>::empty());
    let p = ps[k];
    assert(point_writable(p));
    lemma_data_line_shape(p);
    lemma_record_shape(p);
    let r = gef_record_text(p);
    assert(recs[k] == rec_pieces(ps)[k]);
    if k == 0 {
        assert(trim(recs[k]) == r);
    } else {
        assert(numeral_char(r[0]));
        lemma_trim_after_break(r);
        assert(trim(recs[k]) == r);
    }
    law_gef_record_reads_back(p, h);
}

proof fn lemma_points_from_records(ps: Seq<crate::cpt::MeasurementPoint>, h: HeaderModel, k: int, acc: Seq<crate::cpt::MeasurementPoint>)
    requires
        forall|i: int| 0 <= i < ps.len() ==> point_writable(#[trigger] ps[i]),
        h.columns == written_columns(),
        h.column_void == written_voids(),
        0 <= k <= ps.len(),
    ensures
        points_from(rec_pieces(ps).push(Seq::<char>::empty()), k, Some(';'), h, acc) == acc + read_points(
            ps.subrange(k, ps.len() as int),
            h.z_nap,
        ),
    decreases ps.len() - k,
{
    let recs = rec_pieces(ps).push(Seq::<char>::empty());
    if k == ps.len() {
        assert(recs[k] == Seq::<char>::empty());
        assert(trim(Seq::<char>::empty()) =~= Seq::<char>::empty()) by {
            assert(skip_ws(Seq::<char>::empty(), 0) == 0);
            assert(trim_end_at(Seq::<char>::empty(), 0) == 0);
        }
        assert(read_points(ps.subrange(k, ps.len() as int), h.z_nap) =~= Seq::<crate::cpt::MeasurementPoint>::empty());
        assert(acc + Seq::<crate::cpt::MeasurementPoint>::empty() =~= acc);
        assert(recs.len() == k + 1);
        assert(points_from(recs, k + 1, Some(';'), h, acc) == acc);
        assert(points_from(recs, k, Some(';'), h, acc) == points_from(recs, k + 1, Some(';'), h, acc));
    } else {
        lemma_record_point(ps, h, k);
        let rp = read_point(ps[k], h.z_nap);
        lemma_points_from_records(ps, h, k + 1, acc.push(rp));
        assert(acc.push(rp) + read_points(ps.subrange(k + 1, ps.len() as int), h.z_nap) =~= acc + read_points(
            ps.subrange(k, ps.len() as int),
            h.z_nap,
        ));
    }
}


/// Lines that neither end the header nor declare a separator.
pub open spec fn quiet(ls: Seq<Seq<char>>) -> bool {
    no_eoh(ls) && no_separator(ls)
}

proof fn lemma_quiet_add(a: Seq<Seq<char>>, b: Seq<Seq<char>>)
    requires
        quiet(a),
        quiet(b),
    ensures
        quiet(a + b),
{
    lemma_no_separator_add(a, b);
    assert forall|i: int| 0 <= i < (a + b).len() implies !is_eoh(#[trigger] trim((a + b)[i])) by {
        if i < a.len() {
            assert((a + b)[i] == a[i]);
        } else {
            assert((a + b)[i] == b[i - a.len()]);
        }
    }
}

proof fn lemma_quiet_keyed(key: Seq<char>, v: Seq<char>)
    requires
        key.len() > 0,
        upper_word(key),
        key != "COLUMNSEPARATOR"@,
        key != "RECORDSEPARATOR"@,
        key != "EOH"@,
    ensures
        quiet(seq![keyed(key, v)]),
{
    lemma_keyed_no_separator(key, v);
    lemma_keyed_line(empty_model(), key, v);
}

proof fn lemma_fold_one(l: Seq<char>, h: HeaderModel)
    ensures
        fold_lines(seq![l], h) == header_line(h, trim(l)),
{
    assert(seq![l].drop_first() =~= Seq::<Seq<char>>::empty());
    match header_line(h, trim(l)) {
        Some(h1) => {
            assert(fold_lines(Seq::<Seq<char>>::empty(), h1) == Some(h1));
        },
        None => {},
    }
}

proof fn lemma_fold_two(l: Seq<char>, m: Seq<char>, h: HeaderModel)
    ensures
        fold_lines(seq![l, m], h) == (match header_line(h, trim(l)) {
            Some(h1) => header_line(h1, trim(m)),
            None => None,
        }),
{
    assert(seq![l, m] =~= seq![l] + seq![m]);
    lemma_fold_add(seq![l], seq![m], h);
    lemma_fold_one(l, h);
    match header_line(h, trim(l)) {
        Some(h1) => {
            lemma_fold_one(m, h1);
        },
        None => {},
    }
}

/// A number written with three decimals reads back as shown.
proof fn lemma_fixed_part(n: Number)
    requires
        n.den > 0,
        scaled_round(n, 3) < pow10(17),
    ensures
        lacks(fixed_text(n, 3), ','),
        trim(fixed_text(n, 3)) == fixed_text(n, 3),
        fixed_text(n, 3).len() > 0,
        parse_spec(fixed_text(n, 3)) == Parsed::Finite(shown(n, 3)),
{
    lemma_fixed_clean(n, 3);
    lemma_fixed_text_shape(n, 3);
    law_fixed_text_reads_back(n, 3);
    let t = fixed_text(n, 3);
    assert(numeral_char(t[0]));
    lemma_trim_plain(t);
}

/// Keywords the header reader acts on, as words.
proof fn lemma_read_keys()
    ensures
        upper_word("TESTID"@),
        upper_word("PROJECTID"@),
        upper_word("COMPANYID"@),
        upper_word("FILEDATE"@),
        upper_word("STARTDATE"@),
        upper_word("XYID"@),
        upper_word("ZID"@),
        "TESTID"@.len() > 0,
        "PROJECTID"@.len() > 0,
        "COMPANYID"@.len() > 0,
        "FILEDATE"@.len() > 0,
        "STARTDATE"@.len() > 0,
        "XYID"@.len() > 0,
        "ZID"@.len() > 0,
        "TESTID"@ != "COLUMNSEPARATOR"@ && "TESTID"@ != "RECORDSEPARATOR"@ && "TESTID"@ != "EOH"@,
        "PROJECTID"@ != "COLUMNSEPARATOR"@ && "PROJECTID"@ != "RECORDSEPARATOR"@ && "PROJECTID"@ != "EOH"@,
        "COMPANYID"@ != "COLUMNSEPARATOR"@ && "COMPANYID"@ != "RECORDSEPARATOR"@ && "COMPANYID"@ != "EOH"@,
        "FILEDATE"@ != "COLUMNSEPARATOR"@ && "FILEDATE"@ != "RECORDSEPARATOR"@ && "FILEDATE"@ != "EOH"@,
        "STARTDATE"@ != "COLUMNSEPARATOR"@ && "STARTDATE"@ != "RECORDSEPARATOR"@ && "STARTDATE"@ != "EOH"@,
        "XYID"@ != "COLUMNSEPARATOR"@ && "XYID"@ != "RECORDSEPARATOR"@ && "XYID"@ != "EOH"@,
        "ZID"@ != "COLUMNSEPARATOR"@ && "ZID"@ != "RECORDSEPARATOR"@ && "ZID"@ != "EOH"@,
{
    reveal_strlit("TESTID");
    reveal_strlit("PROJECTID");
    reveal_strlit("COMPANYID");
    reveal_strlit("FILEDATE");
    reveal_strlit("STARTDATE");
    reveal_strlit("XYID");
    reveal_strlit("ZID");
    reveal_strlit("COLUMNSEPARATOR");
    reveal_strlit("RECORDSEPARATOR");
    reveal_strlit("EOH");
    reveal_strlit("PROJECTNAME");
    assert(upper_word("TESTID"@));
    assert(upper_word("PROJECTID"@));
    assert(upper_word("COMPANYID"@));
    assert(upper_word("FILEDATE"@));
    assert(upper_word("STARTDATE"@));
    assert(upper_word("XYID"@));
    assert(upper_word("ZID"@));
    assert("ZID"@[0] != "EOH"@[0]);
}


/// `ymd_text` starts with a digit or sign and ends with a digit.
proof fn lemma_ymd_trim(d: crate::calendar::Date)
    ensures
        trim(ymd_text(d, ", "@)) == ymd_text(d, ", "@),
{
    reveal_strlit(", ");
    let y = d.year as int;
    let yt = year_text(y);
    if 0 <= y <= 9999 {
        lemma_padded(y as nat, 4);
        assert(is_digit(yt[0]));
    } else {
        let a = if y > 0 { y } else { -y };
        let sg: Seq<char> = if y > 0 { seq!['+'] } else { seq!['-'] };
        let ds = if a <= 9999 { padded(a as nat, 4) } else { nat_text(a as nat) };
        assert(yt =~= sg + ds);
        lemma_padded(a as nat, 4);
        lemma_nat_text(a as nat);
        assert(yt[0] == sg[0]);
    }
    lemma_padded(d.day as nat, 2);
    let t = ymd_text(d, ", "@);
    let dd = two_digits(d.day as int);
    assert(t.last() == dd.last());
    assert(is_digit(dd[1]));
    lemma_padded(y as nat, 4);
    assert(t[0] == yt[0]);
    lemma_trim_plain(t);
}

proof fn lemma_company_piece(c: Cpt, h: HeaderModel)
    requires
        opt_view(c.metadata.equipment) matches Some(e) ==> trim(e) == e && lacks(e, ','),
    ensures
        quiet(company_lines(c)),
        fold_lines(company_lines(c), h) == Some(
            match opt_view(c.metadata.equipment) {
                Some(e) => HeaderModel { company_id: Some(e), ..h },
                None => h,
            },
        ),
{
    lemma_read_keys();
    match opt_view(c.metadata.equipment) {
        Some(e) => {
            lemma_quiet_keyed("COMPANYID"@, e);
            lemma_fold_one(keyed("COMPANYID"@, e), h);
            lemma_keyed_line(h, "COMPANYID"@, e);
            lemma_find_none(e, ',', 0);
            assert(e.subrange(0, e.len() as int) =~= e);
            reveal_strlit("TESTID");
            reveal_strlit("PROJECTID");
            reveal_strlit("PROJECTNAME");
            reveal_strlit("COMPANYID");
            assert("COMPANYID"@[0] != "PROJECTID"@[0]);
            assert("COMPANYID"@ != "TESTID"@);
            assert("COMPANYID"@ != "PROJECTNAME"@);
            let v = value_in("COMPANYID"@, e);
            assert(v == e);
            assert(header_entry(h, "COMPANYID"@, v) == Some(HeaderModel { company_id: Some(trim(e)), ..h }));
        },
        None => {
            assert(company_lines(c) =~= Seq::<Seq<char>>::empty());
        },
    }
}

proof fn lemma_date_pieces(c: Cpt, h: HeaderModel)
    ensures
        quiet(filedate_lines(c)),
        quiet(startdate_lines(c)),
        fold_lines(filedate_lines(c), h) == Some(
            match c.metadata.date {
                Some(d) => HeaderModel { date: date_value(ymd_text(d, ", "@)), ..h },
                None => h,
            },
        ),
        fold_lines(startdate_lines(c), h) == Some(
            match c.metadata.date {
                Some(d) => HeaderModel { start_date: date_value(ymd_text(d, ", "@)), ..h },
                None => h,
            },
        ),
{
    lemma_read_keys();
    match c.metadata.date {
        Some(d) => {
            let v = ymd_text(d, ", "@);
            lemma_ymd_trim(d);
            lemma_quiet_keyed("FILEDATE"@, v);
            lemma_quiet_keyed("STARTDATE"@, v);
            lemma_passed_key("STARTTIME"@);
            reveal_strlit("STARTTIME");
            reveal_strlit("COLUMNSEPARATOR");
            reveal_strlit("RECORDSEPARATOR");
            lemma_quiet_keyed("STARTTIME"@, "-, -, -"@);
            lemma_quiet_add(seq![keyed("STARTDATE"@, v)], seq![keyed("STARTTIME"@, "-, -, -"@)]);
            assert(startdate_lines(c) =~= seq![keyed("STARTDATE"@, v)] + seq![keyed("STARTTIME"@, "-, -, -"@)]);
            lemma_fold_one(keyed("FILEDATE"@, v), h);
            lemma_keyed_line(h, "FILEDATE"@, v);
            let h2 = HeaderModel { start_date: date_value(v), ..h };
            lemma_fold_two(keyed("STARTDATE"@, v), keyed("STARTTIME"@, "-, -, -"@), h);
            lemma_keyed_line(h, "STARTDATE"@, v);
            lemma_passed_line(h2, "STARTTIME"@, "-, -, -"@);
            reveal_strlit("TESTID");
            reveal_strlit("PROJECTID");
            reveal_strlit("PROJECTNAME");
            reveal_strlit("COMPANYID");
            reveal_strlit("FILEDATE");
            reveal_strlit("STARTDATE");
            assert("STARTDATE"@[0] != "PROJECTID"@[0]);
            assert("STARTDATE"@[0] != "COMPANYID"@[0]);
            assert("FILEDATE"@[0] != "PROJECTID"@[0]);
            assert("FILEDATE"@ != "TESTID"@);
            assert("FILEDATE"@ != "PROJECTNAME"@);
            assert("FILEDATE"@ != "COMPANYID"@);
            assert("STARTDATE"@ != "TESTID"@);
            assert("STARTDATE"@ != "PROJECTNAME"@);
            assert("STARTDATE"@ != "FILEDATE"@);
            assert(fold_lines(startdate_lines(c), h) == Some(h2));
        },
        None => {
            assert(filedate_lines(c) =~= Seq::<Seq<char>>::empty());
            assert(startdate_lines(c) =~= Seq::<Seq<char>>::empty());
        },
    }
}

proof fn lemma_owner_pieces(c: Cpt, h: HeaderModel)
    ensures
        quiet(owner_lines(c)),
        quiet(lastscan_lines(c)),
        fold_lines(owner_lines(c), h) == Some(h),
        fold_lines(lastscan_lines(c), h) == Some(h),
{
    lemma_passed_key("FILEOWNER"@);
    lemma_passed_key("LASTSCAN"@);
    reveal_strlit("FILEOWNER");
    reveal_strlit("LASTSCAN");
    reveal_strlit("COLUMNSEPARATOR");
    reveal_strlit("RECORDSEPARATOR");
    lemma_quiet_keyed("FILEOWNER"@, owner_value(c));
    lemma_passed_line(h, "FILEOWNER"@, owner_value(c));
    lemma_fold_one(keyed("FILEOWNER"@, owner_value(c)), h);
    lemma_quiet_keyed("LASTSCAN"@, nat_text(c.points@.len()));
    lemma_passed_line(h, "LASTSCAN"@, nat_text(c.points@.len()));
    lemma_fold_one(keyed("LASTSCAN"@, nat_text(c.points@.len())), h);
}

proof fn lemma_mtext_piece(c: Cpt, h: HeaderModel)
    ensures
        quiet(mtext_lines(c)),
        fold_lines(mtext_lines(c), h) == Some(h),
{
    lemma_passed_key("MEASUREMENTTEXT"@);
    reveal_strlit("MEASUREMENTTEXT");
    reveal_strlit("COLUMNSEPARATOR");
    reveal_strlit("RECORDSEPARATOR");
    let mt = "9, maaiveld, lokaal verticaal referentiepunt"@;
    assert("MEASUREMENTTEXT"@[0] != "COLUMNSEPARATOR"@[0]);
    assert("MEASUREMENTTEXT"@[0] != "RECORDSEPARATOR"@[0]);
    if has_z(c) {
        lemma_quiet_keyed("MEASUREMENTTEXT"@, mt);
        lemma_passed_line(h, "MEASUREMENTTEXT"@, mt);
        lemma_fold_one(keyed("MEASUREMENTTEXT"@, mt), h);
    } else {
        assert(mtext_lines(c) =~= Seq::<Seq<char>>::empty());
    }
}

proof fn lemma_mvar_quiet(v: Seq<char>, h: HeaderModel)
    ensures
        quiet(seq![keyed("MEASUREMENTVAR"@, v)]),
        header_line(h, trim(keyed("MEASUREMENTVAR"@, v))) == Some(h),
{
    lemma_passed_key("MEASUREMENTVAR"@);
    reveal_strlit("MEASUREMENTVAR");
    reveal_strlit("COLUMNSEPARATOR");
    reveal_strlit("RECORDSEPARATOR");
    lemma_quiet_keyed("MEASUREMENTVAR"@, v);
    lemma_passed_line(h, "MEASUREMENTVAR"@, v);
}

proof fn lemma_mvar_piece(c: Cpt, h: HeaderModel)
    ensures
        quiet(mvar_lines(c)),
        fold_lines(mvar_lines(c), h) == Some(h),
{
    let f = first_depth(c.points@);
    let v13 = "13, "@ + fixed_text(f, 3) + ", m, voorgeboord tot"@;
    let v16 = "16, "@ + fixed_text(last_depth(c.points@), 3) + ", m, einddiepte"@;
    let v17 = "17, 0, -, stopcriterium"@;
    let l13 = keyed("MEASUREMENTVAR"@, v13);
    let l16 = keyed("MEASUREMENTVAR"@, v16);
    let l17 = keyed("MEASUREMENTVAR"@, v17);
    let tail = seq![l16, l17];
    lemma_mvar_quiet(v13, h);
    lemma_mvar_quiet(v16, h);
    lemma_mvar_quiet(v17, h);
    lemma_quiet_add(seq![l16], seq![l17]);
    assert(tail =~= seq![l16] + seq![l17]);
    lemma_fold_two(l16, l17, h);
    if f.num > 0 {
        let first = seq![l13];
        lemma_quiet_add(first, tail);
        lemma_fold_add(first, tail, h);
        lemma_fold_one(l13, h);
        assert(mvar_lines(c) == first + tail);
    } else {
        assert(mvar_lines(c) =~= tail);
    }
}

proof fn lemma_value_pieces(c: Cpt, h: HeaderModel)
    requires
        trim(c.id@) == c.id@,
        trim(project_value(c)) == project_value(c),
    ensures
        quiet(project_lines(c)),
        quiet(testid_lines(c)),
        fold_lines(project_lines(c), h) == Some(HeaderModel { project_id: Some(project_value(c)), ..h }),
        fold_lines(testid_lines(c), h) == Some(HeaderModel { test_id: Some(c.id@), ..h }),
{
    lemma_read_keys();
    lemma_quiet_keyed("PROJECTID"@, project_value(c));
    lemma_quiet_keyed("TESTID"@, c.id@);
    lemma_fold_one(keyed("PROJECTID"@, project_value(c)), h);
    lemma_fold_one(keyed("TESTID"@, c.id@), h);
    lemma_keyed_line(h, "PROJECTID"@, project_value(c));
    lemma_keyed_line(h, "TESTID"@, c.id@);
    reveal_strlit("TESTID");
    reveal_strlit("PROJECTID");
}

/// The header after `#XYID=` and `#ZID=`.
pub open spec fn with_xyz(c: Cpt, h: HeaderModel) -> HeaderModel {
    let h1 = match c.position {
        Some(p) => set_xy(h, shown(p.x_rd, 3), shown(p.y_rd, 3)),
        None => h,
    };
    match written_z(c) {
        Some(z) => HeaderModel { z_nap: Some(shown(z, 3)), ..h1 },
        None => h1,
    }
}

/// The position and level a CPT is written with fit their text.
pub open spec fn xyz_writable(c: Cpt) -> bool {
    &&& (c.position matches Some(p) ==> p.x_rd.den > 0 && p.y_rd.den > 0 && scaled_round(p.x_rd, 3) < pow10(17)
        && scaled_round(p.y_rd, 3) < pow10(17))
    &&& (written_z(c) matches Some(z) ==> z.den > 0 && scaled_round(z, 3) < pow10(17))
}

proof fn lemma_zid_piece(z: Option<Number>, h: HeaderModel)
    requires
        z matches Some(v) ==> v.den > 0 && scaled_round(v, 3) < pow10(17),
    ensures
        quiet(zid_lines(z)),
        fold_lines(zid_lines(z), h) == Some(
            match z {
                Some(v) => HeaderModel { z_nap: Some(shown(v, 3)), ..h },
                None => h,
            },
        ),
{
    match z {
        Some(v) => {
            lemma_read_keys();
            reveal_strlit("31000, ");
            reveal_strlit("31000");
            let ft = fixed_text(v, 3);
            lemma_fixed_part(v);
            let ps = seq!["31000"@, ft];
            reveal_with_fuel(comma_list, 3);
            assert("31000, "@ + ft =~= comma_list(ps));
            lemma_trim_plain("31000"@);
            assert(plain_parts(ps));
            lemma_comma_list_trim(ps);
            lemma_trimmed_parts(ps);
            let val = "31000, "@ + ft;
            lemma_quiet_keyed("ZID"@, val);
            lemma_fold_one(keyed("ZID"@, val), h);
            lemma_keyed_line(h, "ZID"@, val);
            reveal_strlit("TESTID");
            reveal_strlit("PROJECTID");
            reveal_strlit("PROJECTNAME");
            reveal_strlit("COMPANYID");
            reveal_strlit("FILEDATE");
            reveal_strlit("STARTDATE");
            reveal_strlit("XYID");
            reveal_strlit("ZID");
            assert(zid_step(h, val) == Some(HeaderModel { z_nap: Some(shown(v, 3)), ..h }));
        },
        None => {
            assert(zid_lines(z) =~= Seq::<Seq<char>>::empty());
        },
    }
}

proof fn lemma_three_parts(fx: Seq<char>, fy: Seq<char>)
    requires
        lacks(fx, ','),
        lacks(fy, ','),
        trim(fx) == fx,
        trim(fy) == fy,
        fx.len() > 0,
        fy.len() > 0,
    ensures
        trim("28992, "@ + fx + ", "@ + fy) == "28992, "@ + fx + ", "@ + fy,
        trimmed_parts("28992, "@ + fx + ", "@ + fy) == seq!["28992"@, fx, fy],
{
    reveal_strlit("28992, ");
    reveal_strlit("28992");
    reveal_strlit(", ");
    let ps = seq!["28992"@, fx, fy];
    let val = "28992, "@ + fx + ", "@ + fy;
    let p2 = seq![fx, fy];
    assert(p2.drop_first() =~= seq![fy]);
    assert(comma_list(seq![fy]) == fy);
    assert(comma_list(p2) == fx + seq![',', ' '] + fy);
    assert(ps.drop_first() =~= p2);
    assert(comma_list(ps) == "28992"@ + seq![',', ' '] + comma_list(p2));
    assert(val =~= comma_list(ps));
    lemma_trim_plain("28992"@);
    assert(plain_parts(ps));
    lemma_comma_list_trim(ps);
    lemma_trimmed_parts(ps);
}

proof fn lemma_xy_value(x: Number, y: Number)
    requires
        x.den > 0,
        y.den > 0,
        scaled_round(x, 3) < pow10(17),
        scaled_round(y, 3) < pow10(17),
    ensures
        trim("28992, "@ + fixed_text(x, 3) + ", "@ + fixed_text(y, 3)) == "28992, "@ + fixed_text(x, 3) + ", "@
            + fixed_text(y, 3),
        trimmed_parts("28992, "@ + fixed_text(x, 3) + ", "@ + fixed_text(y, 3)) == seq![
            "28992"@,
            fixed_text(x, 3),
            fixed_text(y, 3),
        ],
{
    lemma_fixed_part(x);
    lemma_fixed_part(y);
    lemma_three_parts(fixed_text(x, 3), fixed_text(y, 3));
}

#[verifier::spinoff_prover]
#[verifier::rlimit(30)]
proof fn lemma_xy_line(x: Number, y: Number, h: HeaderModel)
    requires
        x.den > 0,
        y.den > 0,
        scaled_round(x, 3) < pow10(17),
        scaled_round(y, 3) < pow10(17),
    ensures
        quiet(seq![keyed("XYID"@, "28992, "@ + fixed_text(x, 3) + ", "@ + fixed_text(y, 3))]),
        fold_lines(seq![keyed("XYID"@, "28992, "@ + fixed_text(x, 3) + ", "@ + fixed_text(y, 3))], h) == Some(
            set_xy(h, shown(x, 3), shown(y, 3)),
        ),
{
    lemma_read_keys();
    let val = "28992, "@ + fixed_text(x, 3) + ", "@ + fixed_text(y, 3);
    lemma_xy_value(x, y);
    lemma_fixed_part(x);
    lemma_fixed_part(y);
    lemma_quiet_keyed("XYID"@, val);
    lemma_fold_one(keyed("XYID"@, val), h);
    lemma_keyed_line(h, "XYID"@, val);
    reveal_strlit("TESTID");
    reveal_strlit("PROJECTID");
    reveal_strlit("PROJECTNAME");
    reveal_strlit("COMPANYID");
    reveal_strlit("FILEDATE");
    reveal_strlit("STARTDATE");
    reveal_strlit("XYID");
    assert(xyid_step(h, val) == Some(set_xy(h, shown(x, 3), shown(y, 3))));
}

proof fn lemma_xyz_piece(c: Cpt, h: HeaderModel)
    requires
        xyz_writable(c),
    ensures
        quiet(xyz_lines(c)),
        fold_lines(xyz_lines(c), h) == Some(with_xyz(c, h)),
{
    match c.position {
        Some(p) => {
            let xy = seq![keyed("XYID"@, "28992, "@ + fixed_text(p.x_rd, 3) + ", "@ + fixed_text(p.y_rd, 3))];
            lemma_xy_line(p.x_rd, p.y_rd, h);
            let h1 = set_xy(h, shown(p.x_rd, 3), shown(p.y_rd, 3));
            lemma_zid_piece(written_z(c), h1);
            lemma_quiet_add(xy, zid_lines(written_z(c)));
            lemma_fold_add(xy, zid_lines(written_z(c)), h);
        },
        None => {
            lemma_zid_piece(written_z(c), h);
        },
    }
}


/// The date the header of a written file gives back.
pub open spec fn written_date(c: Cpt) -> Option<crate::calendar::Date> {
    match c.metadata.date {
        Some(d) => date_value(ymd_text(d, ", "@)),
        None => None,
    }
}

/// The header the reader gets from a file the writer wrote for `c`.
pub open spec fn written_header(c: Cpt) -> HeaderModel {
    with_xyz(
        c,
        HeaderModel {
            test_id: Some(c.id@),
            project_id: Some(project_value(c)),
            project_name: None,
            company_id: opt_view(c.metadata.equipment),
            date: written_date(c),
            start_date: written_date(c),
            x_rd: None,
            y_rd: None,
            z_nap: None,
            columns: written_columns(),
            column_void: written_voids(),
        },
    )
}

proof fn lemma_info_key_not_eoh(k: Seq<char>)
    requires
        k == "COLUMNINFO"@ || k == "COLUMNVOID"@,
    ensures
        k != "EOH"@,
        upper_word(k),
        k.len() > 0,
{
    reveal_strlit("COLUMNINFO");
    reveal_strlit("COLUMNVOID");
    reveal_strlit("EOH");
    assert(upper_word("COLUMNINFO"@));
    assert(upper_word("COLUMNVOID"@));
    assert("COLUMNINFO"@.len() != "EOH"@.len());
    assert("COLUMNVOID"@.len() != "EOH"@.len());
}

proof fn lemma_head_no_eoh()
    ensures
        no_eoh(head_lines()),
{
    let ls = head_lines();
    assert forall|i: int| 0 <= i < ls.len() implies !is_eoh(#[trigger] trim(ls[i])) by {
        if i == 0 {
            lemma_passed_line(empty_model(), "GEFID"@, "1, 1, 0"@);
        }
        if i == 1 {
            lemma_passed_line(empty_model(), "COLUMN"@, "4"@);
        }
        if i == 2 {
            lemma_info_key_not_eoh("COLUMNINFO"@);
            lemma_keyed_line(empty_model(), "COLUMNINFO"@, "1, m, sondeertrajectlengte, 1"@);
        }
        if i == 3 {
            lemma_info_key_not_eoh("COLUMNINFO"@);
            lemma_keyed_line(empty_model(), "COLUMNINFO"@, "2, MPa, conusweerstand, 2"@);
        }
        if i == 4 {
            lemma_info_key_not_eoh("COLUMNINFO"@);
            lemma_keyed_line(empty_model(), "COLUMNINFO"@, "3, MPa, plaatselijke wrijving, 3"@);
        }
        if i == 5 {
            lemma_info_key_not_eoh("COLUMNINFO"@);
            lemma_keyed_line(empty_model(), "COLUMNINFO"@, "4, %, wrijvingsgetal, 4"@);
        }
        if i == 6 {
            lemma_passed_line(empty_model(), "COLUMNSEPARATOR"@, ";"@);
        }
        if i == 7 {
            lemma_passed_line(empty_model(), "COLUMNTEXT"@, "1, aan"@);
        }
        if i == 8 {
            lemma_info_key_not_eoh("COLUMNVOID"@);
            lemma_keyed_line(empty_model(), "COLUMNVOID"@, "1, 999.999"@);
        }
        if i == 9 {
            lemma_info_key_not_eoh("COLUMNVOID"@);
            lemma_keyed_line(empty_model(), "COLUMNVOID"@, "2, 999.999"@);
        }
        if i == 10 {
            lemma_info_key_not_eoh("COLUMNVOID"@);
            lemma_keyed_line(empty_model(), "COLUMNVOID"@, "3, 9.999"@);
        }
        if i == 11 {
            lemma_info_key_not_eoh("COLUMNVOID"@);
            lemma_keyed_line(empty_model(), "COLUMNVOID"@, "4, 999.9"@);
        }
    }
}

proof fn lemma_separator_piece(h: HeaderModel)
    ensures
        no_eoh(separator_lines()),
        fold_lines(separator_lines(), h) == Some(h),
{
    lemma_passed_line(h, "RECORDSEPARATOR"@, "!"@);
    lemma_passed_line(h, "REPORTCODE"@, "GEF-CPT-Report, 1, 1, 2"@);
    lemma_fold_two(keyed("RECORDSEPARATOR"@, "!"@), keyed("REPORTCODE"@, "GEF-CPT-Report, 1, 1, 2"@), h);
}


proof fn lemma_no_eoh_add(a: Seq<Seq<char>>, b: Seq<Seq<char>>)
    requires
        no_eoh(a),
        no_eoh(b),
    ensures
        no_eoh(a + b),
{
    assert forall|i: int| 0 <= i < (a + b).len() implies !is_eoh(#[trigger] trim((a + b)[i])) by {
        if i < a.len() {
            assert((a + b)[i] == a[i]);
        } else {
            assert((a + b)[i] == b[i - a.len()]);
        }
    }
}

/// What the header of a written CPT needs to read back.
pub open spec fn header_readable(c: Cpt) -> bool {
    &&& trim(c.id@) == c.id@
    &&& (opt_view(c.metadata.equipment) matches Some(e) ==> trim(e) == e && lacks(e, ','))
    &&& trim(project_value(c)) == project_value(c)
    &&& xyz_writable(c)
}

#[verifier::spinoff_prover]
#[verifier::rlimit(40)]
proof fn lemma_header_fold(c: Cpt)
    requires
        header_readable(c),
    ensures
        no_eoh(header_lines(c)),
        fold_lines(header_lines(c), empty_model()) == Some(written_header(c)),
{
    let m0 = empty_model();
    let m1 = HeaderModel { columns: m0.columns + written_columns(), column_void: m0.column_void + written_voids(), ..m0 };
    let m2 = match opt_view(c.metadata.equipment) {
        Some(e) => HeaderModel { company_id: Some(e), ..m1 },
        None => m1,
    };
    let m3 = match c.metadata.date {
        Some(d) => HeaderModel { date: date_value(ymd_text(d, ", "@)), ..m2 },
        None => m2,
    };
    let m8 = HeaderModel { project_id: Some(project_value(c)), ..m3 };
    let m10 = match c.metadata.date {
        Some(d) => HeaderModel { start_date: date_value(ymd_text(d, ", "@)), ..m8 },
        None => m8,
    };
    let m11 = HeaderModel { test_id: Some(c.id@), ..m10 };
    let m12 = with_xyz(c, m11);
    lemma_head_fold(m0);
    lemma_head_no_eoh();
    lemma_company_piece(c, m1);
    lemma_date_pieces(c, m2);
    lemma_owner_pieces(c, m3);
    lemma_mtext_piece(c, m3);
    lemma_mvar_piece(c, m3);
    lemma_value_pieces(c, m3);
    lemma_separator_piece(m8);
    lemma_date_pieces(c, m8);
    lemma_value_pieces(c, m10);
    lemma_xyz_piece(c, m11);
    lemma_fold_add(head_lines(), company_lines(c), m0);
    lemma_no_eoh_add(head_lines(), company_lines(c));
    lemma_fold_add(head_lines() + company_lines(c), filedate_lines(c), m0);
    lemma_no_eoh_add(head_lines() + company_lines(c), filedate_lines(c));
    lemma_fold_add(head_lines() + company_lines(c) + filedate_lines(c), owner_lines(c), m0);
    lemma_no_eoh_add(head_lines() + company_lines(c) + filedate_lines(c), owner_lines(c));
    lemma_fold_add(head_lines() + company_lines(c) + filedate_lines(c) + owner_lines(c), lastscan_lines(c), m0);
    lemma_no_eoh_add(head_lines() + company_lines(c) + filedate_lines(c) + owner_lines(c), lastscan_lines(c));
    lemma_fold_add(head_lines() + company_lines(c) + filedate_lines(c) + owner_lines(c) + lastscan_lines(c), mtext_lines(c), m0);
    lemma_no_eoh_add(head_lines() + company_lines(c) + filedate_lines(c) + owner_lines(c) + lastscan_lines(c), mtext_lines(c));
    lemma_fold_add(head_lines() + company_lines(c) + filedate_lines(c) + owner_lines(c) + lastscan_lines(c) + mtext_lines(c), mvar_lines(c), m0);
    lemma_no_eoh_add(head_lines() + company_lines(c) + filedate_lines(c) + owner_lines(c) + lastscan_lines(c) + mtext_lines(c), mvar_lines(c));
    lemma_fold_add(head_lines() + company_lines(c) + filedate_lines(c) + owner_lines(c) + lastscan_lines(c) + mtext_lines(c) + mvar_lines(c), project_lines(c), m0);
    lemma_no_eoh_add(head_lines() + company_lines(c) + filedate_lines(c) + owner_lines(c) + lastscan_lines(c) + mtext_lines(c) + mvar_lines(c), project_lines(c));
    lemma_fold_add(head_lines() + company_lines(c) + filedate_lines(c) + owner_lines(c) + lastscan_lines(c) + mtext_lines(c) + mvar_lines(c) + project_lines(c), separator_lines(), m0);
    lemma_no_eoh_add(head_lines() + company_lines(c) + filedate_lines(c) + owner_lines(c) + lastscan_lines(c) + mtext_lines(c) + mvar_lines(c) + project_lines(c), separator_lines());
    lemma_fold_add(head_lines() + company_lines(c) + filedate_lines(c) + owner_lines(c) + lastscan_lines(c) + mtext_lines(c) + mvar_lines(c) + project_lines(c) + separator_lines(), startdate_lines(c), m0);
    lemma_no_eoh_add(head_lines() + company_lines(c) + filedate_lines(c) + owner_lines(c) + lastscan_lines(c) + mtext_lines(c) + mvar_lines(c) + project_lines(c) + separator_lines(), startdate_lines(c));
    lemma_fold_add(head_lines() + company_lines(c) + filedate_lines(c) + owner_lines(c) + lastscan_lines(c) + mtext_lines(c) + mvar_lines(c) + project_lines(c) + separator_lines() + startdate_lines(c), testid_lines(c), m0);
    lemma_no_eoh_add(head_lines() + company_lines(c) + filedate_lines(c) + owner_lines(c) + lastscan_lines(c) + mtext_lines(c) + mvar_lines(c) + project_lines(c) + separator_lines() + startdate_lines(c), testid_lines(c));
    lemma_fold_add(head_lines() + company_lines(c) + filedate_lines(c) + owner_lines(c) + lastscan_lines(c) + mtext_lines(c) + mvar_lines(c) + project_lines(c) + separator_lines() + startdate_lines(c) + testid_lines(c), xyz_lines(c), m0);
    lemma_no_eoh_add(head_lines() + company_lines(c) + filedate_lines(c) + owner_lines(c) + lastscan_lines(c) + mtext_lines(c) + mvar_lines(c) + project_lines(c) + separator_lines() + startdate_lines(c) + testid_lines(c), xyz_lines(c));
    assert(m0.columns + written_columns() =~= written_columns());
    assert(m0.column_void + written_voids() =~= written_voids());
    assert(m12 == written_header(c));
}


proof fn lemma_data_no_separator(ps: Seq<crate::cpt::MeasurementPoint>)
    requires
        forall|i: int| 0 <= i < ps.len() ==> point_writable(#[trigger] ps[i]),
    ensures
        no_separator(data_lines(ps)),
        no_separator(seq!["#EOH="@]),
{
    reveal_strlit("#COLUMNSEPARATOR=");
    reveal_strlit("#RECORDSEPARATOR=");
    reveal_strlit("#EOH=");
    let d = data_lines(ps);
    assert forall|i: int| 0 <= i < d.len() implies !starts_with(#[trigger] trim(d[i]), "#COLUMNSEPARATOR="@)
        && !starts_with(trim(d[i]), "#RECORDSEPARATOR="@) by {
        assert(point_writable(ps[i]));
        lemma_data_line_shape(ps[i]);
        assert(d[i] == data_line(ps[i]));
        if starts_with(trim(d[i]), "#COLUMNSEPARATOR="@) {
            assert(trim(d[i]).take(17)[0] == d[i][0]);
        }
        if starts_with(trim(d[i]), "#RECORDSEPARATOR="@) {
            assert(trim(d[i]).take(17)[0] == d[i][0]);
        }
    }
    let e = "#EOH="@;
    lemma_trim_plain(e);
}

proof fn lemma_head_separators()
    ensures
        separators(head_lines().subrange(0, 7)) == (Some(';'), None::<char>),
        no_separator(head_lines().subrange(7, 12)),
{
    let ls = head_lines();
    let a = ls.subrange(0, 6);
    lemma_separator_prefixes();
    reveal_strlit("GEFID");
    reveal_strlit("COLUMN");
    reveal_strlit("COLUMNINFO");
    reveal_strlit("COLUMNTEXT");
    reveal_strlit("COLUMNVOID");
    reveal_strlit("COLUMNSEPARATOR");
    reveal_strlit("RECORDSEPARATOR");
    reveal_strlit(";");
    assert(upper_word("GEFID"@));
    assert(upper_word("COLUMN"@));
    assert(upper_word("COLUMNINFO"@));
    assert(upper_word("COLUMNTEXT"@));
    assert(upper_word("COLUMNVOID"@));
    assert("COLUMNTEXT"@[6] != "COLUMNSEPARATOR"@[6]);
    assert("COLUMNINFO"@.len() != "COLUMNSEPARATOR"@.len());
    lemma_keyed_no_separator("GEFID"@, "1, 1, 0"@);
    lemma_keyed_no_separator("COLUMN"@, "4"@);
    lemma_keyed_no_separator("COLUMNINFO"@, "1, m, sondeertrajectlengte, 1"@);
    lemma_keyed_no_separator("COLUMNINFO"@, "2, MPa, conusweerstand, 2"@);
    lemma_keyed_no_separator("COLUMNINFO"@, "3, MPa, plaatselijke wrijving, 3"@);
    lemma_keyed_no_separator("COLUMNINFO"@, "4, %, wrijvingsgetal, 4"@);
    lemma_keyed_no_separator("COLUMNTEXT"@, "1, aan"@);
    lemma_keyed_no_separator("COLUMNVOID"@, "1, 999.999"@);
    lemma_keyed_no_separator("COLUMNVOID"@, "2, 999.999"@);
    lemma_keyed_no_separator("COLUMNVOID"@, "3, 9.999"@);
    lemma_keyed_no_separator("COLUMNVOID"@, "4, 999.9"@);
    assert forall|i: int| 0 <= i < a.len() implies !starts_with(#[trigger] trim(a[i]), "#COLUMNSEPARATOR="@)
        && !starts_with(trim(a[i]), "#RECORDSEPARATOR="@) by {
        assert(a[i] == ls[i]);
        assert(no_separator(seq![ls[i]]));
        assert(seq![ls[i]][0] == ls[i]);
    }
    let b = ls.subrange(7, 12);
    assert forall|i: int| 0 <= i < b.len() implies !starts_with(#[trigger] trim(b[i]), "#COLUMNSEPARATOR="@)
        && !starts_with(trim(b[i]), "#RECORDSEPARATOR="@) by {
        assert(b[i] == ls[i + 7]);
        assert(no_separator(seq![ls[i + 7]]));
        assert(seq![ls[i + 7]][0] == ls[i + 7]);
    }
    lemma_separators_skip(Seq::<Seq<char>>::empty(), a);
    assert(Seq::<Seq<char>>::empty() + a =~= a);
    assert(separators(Seq::<Seq<char>>::empty()) == (None::<char>, None::<char>));
    let h6 = ls.subrange(0, 7);
    assert(h6.drop_last() =~= a);
    assert(h6.last() == keyed("COLUMNSEPARATOR"@, ";"@));
    lemma_keyed_prefix("COLUMNSEPARATOR"@, ";"@, "COLUMNSEPARATOR"@);
    lemma_keyed_line(empty_model(), "COLUMNSEPARATOR"@, ";"@);
    lemma_trim_plain(";"@);
}


proof fn lemma_company_piece_quiet(c: Cpt)
    ensures
        no_separator(company_lines(c)),
{
    lemma_read_keys();
    match opt_view(c.metadata.equipment) {
        Some(e) => {
            lemma_quiet_keyed("COMPANYID"@, e);
        },
        None => {
            assert(company_lines(c) =~= Seq::<Seq<char>>::empty());
        },
    }
}

proof fn lemma_value_pieces_quiet(c: Cpt)
    ensures
        no_separator(project_lines(c)),
        no_separator(testid_lines(c)),
{
    lemma_read_keys();
    lemma_quiet_keyed("PROJECTID"@, project_value(c));
    lemma_quiet_keyed("TESTID"@, c.id@);
}

proof fn lemma_xyz_quiet(c: Cpt)
    ensures
        no_separator(xyz_lines(c)),
{
    lemma_read_keys();
    let zl = zid_lines(written_z(c));
    match written_z(c) {
        Some(v) => {
            lemma_quiet_keyed("ZID"@, "31000, "@ + fixed_text(v, 3));
        },
        None => {
            assert(zl =~= Seq::<Seq<char>>::empty());
        },
    }
    match c.position {
        Some(p) => {
            let xy = seq![keyed("XYID"@, "28992, "@ + fixed_text(p.x_rd, 3) + ", "@ + fixed_text(p.y_rd, 3))];
            lemma_quiet_keyed("XYID"@, "28992, "@ + fixed_text(p.x_rd, 3) + ", "@ + fixed_text(p.y_rd, 3));
            lemma_no_separator_add(xy, zl);
        },
        None => {},
    }
}

proof fn lemma_record_separator_line(x: Seq<Seq<char>>)
    ensures
        separators(x.push(keyed("RECORDSEPARATOR"@, "!"@))) == (separators(x).0, Some('!')),
{
    lemma_separator_prefixes();
    reveal_strlit("RECORDSEPARATOR");
    reveal_strlit("COLUMNSEPARATOR");
    reveal_strlit("!");
    let l = keyed("RECORDSEPARATOR"@, "!"@);
    assert(x.push(l).drop_last() =~= x);
    assert(x.push(l).last() == l);
    assert("RECORDSEPARATOR"@[0] != "COLUMNSEPARATOR"@[0]);
    assert(upper_word("RECORDSEPARATOR"@));
    lemma_keyed_prefix("RECORDSEPARATOR"@, "!"@, "COLUMNSEPARATOR"@);
    lemma_keyed_prefix("RECORDSEPARATOR"@, "!"@, "RECORDSEPARATOR"@);
    lemma_keyed_line(empty_model(), "RECORDSEPARATOR"@, "!"@);
    lemma_trim_plain("!"@);
    assert(value_in("RECORDSEPARATOR"@, "!"@) == "!"@);
    assert(first_char("!"@) == Some('!'));
}

/// The separators a written file declares.
#[verifier::spinoff_prover]
#[verifier::rlimit(40)]
proof fn lemma_all_separators(c: Cpt)
    requires
        forall|i: int| 0 <= i < c.points@.len() ==> point_writable(#[trigger] c.points@[i]),
    ensures
        separators(all_lines(c)) == (Some(';'), Some('!')),
{
    let hl = head_lines();
    let h6 = hl.subrange(0, 7);
    let q1 = hl.subrange(7, 12) + company_lines(c) + filedate_lines(c) + owner_lines(c) + lastscan_lines(c)
        + mtext_lines(c) + mvar_lines(c) + project_lines(c);
    let rs = keyed("RECORDSEPARATOR"@, "!"@);
    let rc = keyed("REPORTCODE"@, "GEF-CPT-Report, 1, 1, 2"@);
    let q2 = seq![rc] + startdate_lines(c) + testid_lines(c) + xyz_lines(c) + seq!["#EOH="@] + data_lines(
        c.points@,
    );
    let m = empty_model();
    lemma_head_separators();
    lemma_company_piece_quiet(c);
    lemma_date_pieces(c, m);
    lemma_owner_pieces(c, m);
    lemma_mtext_piece(c, m);
    lemma_mvar_piece(c, m);
    lemma_value_pieces_quiet(c);
    lemma_xyz_quiet(c);
    lemma_data_no_separator(c.points@);
    lemma_passed_key("REPORTCODE"@);
    reveal_strlit("REPORTCODE");
    reveal_strlit("COLUMNSEPARATOR");
    reveal_strlit("RECORDSEPARATOR");
    lemma_keyed_no_separator("REPORTCODE"@, "GEF-CPT-Report, 1, 1, 2"@);
    lemma_no_separator_add(hl.subrange(7, 12), company_lines(c));
    lemma_no_separator_add(hl.subrange(7, 12) + company_lines(c), filedate_lines(c));
    lemma_no_separator_add(hl.subrange(7, 12) + company_lines(c) + filedate_lines(c), owner_lines(c));
    lemma_no_separator_add(hl.subrange(7, 12) + company_lines(c) + filedate_lines(c) + owner_lines(c), lastscan_lines(c));
    lemma_no_separator_add(
        hl.subrange(7, 12) + company_lines(c) + filedate_lines(c) + owner_lines(c) + lastscan_lines(c),
        mtext_lines(c),
    );
    lemma_no_separator_add(
        hl.subrange(7, 12) + company_lines(c) + filedate_lines(c) + owner_lines(c) + lastscan_lines(c) + mtext_lines(c),
        mvar_lines(c),
    );
    lemma_no_separator_add(
        hl.subrange(7, 12) + company_lines(c) + filedate_lines(c) + owner_lines(c) + lastscan_lines(c) + mtext_lines(c)
            + mvar_lines(c),
        project_lines(c),
    );
    lemma_no_separator_add(seq![rc], startdate_lines(c));
    lemma_no_separator_add(seq![rc] + startdate_lines(c), testid_lines(c));
    lemma_no_separator_add(seq![rc] + startdate_lines(c) + testid_lines(c), xyz_lines(c));
    lemma_no_separator_add(seq![rc] + startdate_lines(c) + testid_lines(c) + xyz_lines(c), seq!["#EOH="@]);
    lemma_no_separator_add(seq![rc] + startdate_lines(c) + testid_lines(c) + xyz_lines(c) + seq!["#EOH="@], data_lines(c.points@));
    lemma_separators_skip(h6, q1);
    lemma_record_separator_line(h6 + q1);
    lemma_separators_skip((h6 + q1).push(rs), q2);
    assert(separator_lines() =~= seq![rs, rc]);
    assert(hl =~= h6 + hl.subrange(7, 12));
    assert(all_lines(c) =~= (h6 + q1).push(rs) + q2);
}


proof fn lemma_lines_text_lacks(ls: Seq<Seq<char>>, ch: char)
    requires
        ch != '\n',
        forall|i: int| 0 <= i < ls.len() ==> lacks(#[trigger] ls[i], ch),
    ensures
        lacks(lines_text(ls), ch),
    decreases ls.len(),
{
    if ls.len() > 0 {
        let t = ls.drop_first();
        assert forall|i: int| 0 <= i < t.len() implies lacks(#[trigger] t[i], ch) by {
            assert(t[i] == ls[i + 1]);
        }
        lemma_lines_text_lacks(t, ch);
        let w = ls[0] + seq!['\n'] + lines_text(t);
        assert(lacks(ls[0], ch));
        assert forall|i: int| 0 <= i < w.len() implies #[trigger] w[i] != ch by {
            if i < ls[0].len() {
                assert(w[i] == ls[0][i]);
            } else if i > ls[0].len() {
                assert(w[i] == lines_text(t)[i - ls[0].len() - 1]);
            }
        }
    }
}

/// What a CPT needs for the GEF reader to give back what the writer wrote:
/// values that fit their text, depths that do not show the void value, and
/// texts that are trimmed and hold no line break (the equipment no comma).
pub open spec fn gef_readable(c: Cpt) -> bool {
    &&& cpt_ok(c)
    &&& forall|i: int| 0 <= i < c.points@.len() ==> point_writable(#[trigger] c.points@[i])
    &&& clean(c.id@)
    &&& (opt_view(c.metadata.equipment) matches Some(e) ==> clean(e))
    &&& clean(owner_value(c))
    &&& clean(project_value(c))
    &&& header_readable(c)
}

#[verifier::spinoff_prover]
#[verifier::rlimit(40)]
proof fn lemma_all_clean(c: Cpt)
    requires
        gef_readable(c),
    ensures
        all_clean(all_lines(c)),
{
    lemma_head_clean();
    lemma_literal_lines_clean(c);
    lemma_date_lines_clean(c);
    lemma_value_lines_clean(c);
    lemma_number_lines_clean(c);
    let d = data_lines(c.points@);
    assert forall|i: int| 0 <= i < d.len() implies clean(#[trigger] d[i]) by {
        assert(point_writable(c.points@[i]));
        lemma_data_line_shape(c.points@[i]);
    }
    lemma_all_clean_add(head_lines(), company_lines(c));
    lemma_all_clean_add(head_lines() + company_lines(c), filedate_lines(c));
    lemma_all_clean_add(head_lines() + company_lines(c) + filedate_lines(c), owner_lines(c));
    lemma_all_clean_add(head_lines() + company_lines(c) + filedate_lines(c) + owner_lines(c), lastscan_lines(c));
    lemma_all_clean_add(head_lines() + company_lines(c) + filedate_lines(c) + owner_lines(c) + lastscan_lines(c), mtext_lines(c));
    lemma_all_clean_add(head_lines() + company_lines(c) + filedate_lines(c) + owner_lines(c) + lastscan_lines(c) + mtext_lines(c), mvar_lines(c));
    lemma_all_clean_add(head_lines() + company_lines(c) + filedate_lines(c) + owner_lines(c) + lastscan_lines(c) + mtext_lines(c) + mvar_lines(c), project_lines(c));
    lemma_all_clean_add(head_lines() + company_lines(c) + filedate_lines(c) + owner_lines(c) + lastscan_lines(c) + mtext_lines(c) + mvar_lines(c) + project_lines(c), separator_lines());
    lemma_all_clean_add(head_lines() + company_lines(c) + filedate_lines(c) + owner_lines(c) + lastscan_lines(c) + mtext_lines(c) + mvar_lines(c) + project_lines(c) + separator_lines(), startdate_lines(c));
    lemma_all_clean_add(head_lines() + company_lines(c) + filedate_lines(c) + owner_lines(c) + lastscan_lines(c) + mtext_lines(c) + mvar_lines(c) + project_lines(c) + separator_lines() + startdate_lines(c), testid_lines(c));
    lemma_all_clean_add(head_lines() + company_lines(c) + filedate_lines(c) + owner_lines(c) + lastscan_lines(c) + mtext_lines(c) + mvar_lines(c) + project_lines(c) + separator_lines() + startdate_lines(c) + testid_lines(c), xyz_lines(c));
    lemma_all_clean_add(header_lines(c), seq!["#EOH="@]);
    lemma_all_clean_add(header_lines(c) + seq!["#EOH="@], data_lines(c.points@));
}

/// The GEF reader gives back what the GEF writer wrote: the header the
/// writer declares (its columns and void values, the test id, project and
/// equipment, the dates, the position and the level) and each point with
/// its values at the writer's precision, the values written as void absent,
/// and the friction ratio and level completed as for any file read.
pub proof fn law_gef_reads_back(c: Cpt)
    requires
        gef_readable(c),
    ensures
        gef_spec(gef_text(c)) == Ok::<(HeaderModel, Seq<crate::cpt::MeasurementPoint>), HeaderFailure>(
            (written_header(c), read_points(c.points@, written_header(c).z_nap)),
        ),
        written_header(c).date == c.metadata.date,
        written_header(c).start_date == c.metadata.date,
{
    match c.metadata.date {
        Some(d) => {
            lemma_date_reads_back(d);
        },
        None => {},
    }
    let ls = all_lines(c);
    let hl = header_lines(c);
    let w = written_header(c);
    let ps = c.points@;
    lemma_gef_lines(c);
    lemma_all_clean(c);
    assert forall|i: int| 0 <= i < ls.len() implies lacks(#[trigger] ls[i], '\n') by {
        assert(clean(ls[i]));
    }
    assert forall|i: int| 0 <= i < ls.len() implies lacks(#[trigger] ls[i], '\r') by {
        assert(clean(ls[i]));
    }
    lemma_lines_text_lacks(ls, '\r');
    lemma_normalize_plain(lines_text(ls));
    lemma_lines_of_text(ls);
    lemma_header_fold(c);
    assert(ls.subrange(0, hl.len() as int) =~= hl);
    lemma_scan_through(ls, 0, hl, empty_model());
    reveal_strlit("#EOH=");
    let e = "#EOH="@;
    lemma_trim_plain(e);
    assert(ls[hl.len() as int] == e);
    assert(is_eoh(trim(ls[hl.len() as int])));
    assert(header_spec(ls) == Ok::<(HeaderModel, int), HeaderFailure>((w, hl.len() as int + 1)));
    lemma_all_separators(c);
    assert(ls.subrange(hl.len() as int + 1, ls.len() as int) =~= data_lines(ps));
    lemma_data_records(ps);
    lemma_points_from_records(ps, w, 0, seq![]);
    assert(ps.subrange(0, ps.len() as int) =~= ps);
    assert(Seq::<crate::cpt::MeasurementPoint>::empty() + read_points(ps, w.z_nap) =~= read_points(ps, w.z_nap));
}


proof fn lemma_digits_int(s: Seq<char>, v: int)
    requires
        s.len() > 0,
        all_digits(s),
        digits_value(s) == v,
        v <= i32::MAX,
    ensures
        int_parse(s, true, i32::MIN as int, i32::MAX as int) == Some(v),
        int_parse(seq!['+'] + s, true, i32::MIN as int, i32::MAX as int) == Some(v),
        v > 0 && -v >= i32::MIN ==> int_parse(seq!['-'] + s, true, i32::MIN as int, i32::MAX as int) == Some(-v),
{
    crate::number::lemma_digits_value_nonneg(s);
    assert(is_digit(s[0]));
    assert(s.subrange(0, s.len() as int) =~= s);
    let sp = seq!['+'] + s;
    assert(sp.subrange(1, sp.len() as int) =~= s);
    let sm = seq!['-'] + s;
    assert(sm.subrange(1, sm.len() as int) =~= s);
}

proof fn lemma_year_int(y: int)
    requires
        year_in_range(y),
    ensures
        int_parse(year_text(y), true, i32::MIN as int, i32::MAX as int) == Some(y),
        year_text(y).len() > 0,
        lacks(year_text(y), ','),
        trim(year_text(y)) == year_text(y),
{
    assert(pow10(4) == 10000) by {
        reveal_with_fuel(pow10, 5);
    }
    let yt = year_text(y);
    if 0 <= y <= 9999 {
        lemma_padded(y as nat, 4);
        lemma_digits_int(yt, y);
        lemma_digits_clean(yt);
        assert(is_digit(yt[0]));
        assert(is_digit(yt.last()));
        lemma_trim_plain(yt);
    } else {
        let a = if y > 0 { y } else { -y };
        let sg: Seq<char> = if y > 0 { seq!['+'] } else { seq!['-'] };
        let ds = if a <= 9999 { padded(a as nat, 4) } else { nat_text(a as nat) };
        assert(yt =~= sg + ds);
        lemma_padded(a as nat, 4);
        lemma_nat_text(a as nat);
        assert(digits_value(ds) == a);
        lemma_digits_int(ds, a);
        lemma_digits_clean(ds);
        assert(yt[0] == sg[0]);
        assert(yt.last() == ds.last());
        assert(is_digit(ds.last()));
        lemma_trim_plain(yt);
        assert forall|i: int| 0 <= i < yt.len() implies #[trigger] yt[i] != ',' by {
            if i > 0 {
                assert(yt[i] == ds[i - 1]);
            }
        }
    }
}

proof fn lemma_two_digits_int(v: int)
    requires
        1 <= v <= 99,
    ensures
        int_parse(two_digits(v), true, i32::MIN as int, i32::MAX as int) == Some(v),
        two_digits(v).len() > 0,
        lacks(two_digits(v), ','),
        trim(two_digits(v)) == two_digits(v),
{
    assert(pow10(2) == 100) by {
        reveal_with_fuel(pow10, 3);
    }
    let t = two_digits(v);
    lemma_padded(v as nat, 2);
    lemma_digits_int(t, v);
    lemma_digits_clean(t);
    assert(is_digit(t[0]));
    assert(is_digit(t.last()));
    lemma_trim_plain(t);
}

/// A date written as `year, month, day` reads back as that date.
pub proof fn lemma_date_reads_back(d: crate::calendar::Date)
    requires
        valid_date(d.year as int, d.month as int, d.day as int),
    ensures
        date_value(ymd_text(d, ", "@)) == Some(d),
{
    reveal_strlit(", ");
    let y = year_text(d.year as int);
    let m = two_digits(d.month as int);
    let dd = two_digits(d.day as int);
    lemma_year_int(d.year as int);
    lemma_two_digits_int(d.month as int);
    lemma_two_digits_int(d.day as int);
    let ps = seq![y, m, dd];
    assert(plain_parts(ps));
    let p2 = seq![m, dd];
    assert(p2.drop_first() =~= seq![dd]);
    assert(comma_list(seq![dd]) == dd);
    assert(comma_list(p2) == m + seq![',', ' '] + dd);
    assert(ps.drop_first() =~= p2);
    assert(ymd_text(d, ", "@) =~= comma_list(ps));
    lemma_split_comma_list(ps);
    let sp = split_on(comma_list(ps), ',');
    lemma_trim_after_space(m);
    lemma_trim_after_space(dd);
    assert(sp =~= seq![y, seq![' '] + m, seq![' '] + dd]);
    assert(sp.drop_last() =~= seq![y, seq![' '] + m]);
    assert(sp.drop_last().drop_last() =~= seq![y]);
    assert(sp.drop_last().drop_last().drop_last() =~= Seq::<Seq<char>>::empty());
    let ip = int_parts(sp);
    assert(int_parts(seq![y]) == seq![d.year as int]) by {
        assert(seq![y].drop_last() =~= Seq::<Seq<char>>::empty());
        assert(int_parts(Seq::<Seq<char>>::empty()) == Seq::<int>::empty());
        assert(seq![y].last() == y);
        assert(int_parse(trim(y), true, i32::MIN as int, i32::MAX as int) == Some(d.year as int));
        assert(Seq::<int>::empty().push(d.year as int) =~= seq![d.year as int]);
    }
    assert(int_parts(seq![y, seq![' '] + m]) == seq![d.year as int, d.month as int]) by {
        assert(seq![y, seq![' '] + m].drop_last() =~= seq![y]);
        assert(seq![y, seq![' '] + m].last() == seq![' '] + m);
        assert(seq![d.year as int].push(d.month as int) =~= seq![d.year as int, d.month as int]);
    }
    assert(ip == seq![d.year as int, d.month as int, d.day as int]) by {
        assert(sp.last() == seq![' '] + dd);
        assert(seq![d.year as int, d.month as int].push(d.day as int) =~= seq![d.year as int, d.month as int, d.day as int]);
    }
}

} // verus!
