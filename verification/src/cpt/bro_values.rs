//! What the BRO reader gives back of the data block the BRO writer writes.

use vstd::prelude::*;

use crate::cpt::bro::{cell_value, near_void, cells_from, bro_point, block_from};
use crate::cpt::gef::data::complete_point;
use crate::number::{
    Number,
    fixed_text,
    numeral_char,
    shown,
    scaled_round,
    lemma_fixed_text_shape,
    law_fixed_text_reads_back,
    Parsed,
    decimal_reading,
    digits_value,
    is_nonfinite_word,
    parse_spec,
    pow10,
    lemma_pow_facts,
    representable,
    number_of,
    sign_len,
    span_digits,
};
use crate::cpt::MeasurementPoint;
use crate::cpt::round_trip::sep_text;
use crate::cpt::write::{bro_row_text, bro_rows, bro_void_text, void_or, writable};
use crate::text::{join, lacks, lemma_split_first, lemma_split_empty, lemma_trim_plain, split_on, trim, skip_ws, trim_end_at};

verus! {

/// The void value of the BRO data array as the writer writes it.
pub open spec fn void_cell() -> Seq<char> {
    "-999999"@
}

/// The void value reads back as no value.
#[verifier::spinoff_prover]
pub proof fn lemma_void_cell()
    ensures
        cell_value(void_cell()) == Ok::<Option<Number>, ()>(None),
{
    reveal_strlit("-999999");
    let s = void_cell();
    lemma_trim_plain(s);
    reveal_with_fuel(span_digits, 8);
    reveal_with_fuel(digits_value, 7);
    assert(span_digits(s, 1) == 7);
    let d = s.subrange(1, 7);
    assert(d =~= seq!['9', '9', '9', '9', '9', '9']);
    assert(digits_value(d) == 999999);
    assert(s.subrange(7, 7) =~= Seq::<char>::empty());
    assert(d + s.subrange(7, 7) =~= d);
    assert(sign_len(s, 0) == 1);
    assert(crate::number::sign_at(s, 0) == -1);
    assert(s.len() == 7);
    assert(s.subrange(1, 7) + s.subrange(7, 7) == d);
    assert(decimal_reading(s) == Some((-999999int, 0int)));
    assert(!is_nonfinite_word(s.subrange(1, 7)));
    assert(pow10(0) == 1);
    lemma_pow_facts();
    assert(sign_len(s, 0) == 1);
    assert(representable(-999999, 0));
    assert(number_of(-999999, 0) == (-999999int, 1int));
    assert(parse_spec(s) == Parsed::Finite(Number { num: -999999i128, den: 1i128 }));
    assert(near_void(Number { num: -999999i128, den: 1i128 }));
}


/// `k` void cells.
pub open spec fn voids(k: nat) -> Seq<Seq<char>> {
    Seq::new(k, |i: int| void_cell())
}

/// A value of the data array, or the void value.
pub open spec fn value_cell(o: Option<Number>) -> Seq<char> {
    void_or(o, 3, bro_void_text())
}

/// The 25 cells of the data row the writer writes for a point.
pub open spec fn bro_cells(p: MeasurementPoint) -> Seq<Seq<char>> {
    seq![fixed_text(p.depth, 3), fixed_text(p.depth, 3), void_cell(), value_cell(p.qc)] + voids(11) + seq![
        value_cell(p.inclination),
    ] + voids(2) + seq![value_cell(p.fs)] + voids(3) + seq![value_cell(p.u2), void_cell(), value_cell(p.rf)]
}

pub proof fn lemma_sep_text_add(a: Seq<Seq<char>>, b: Seq<Seq<char>>, c: char)
    ensures
        sep_text(a + b, c) == sep_text(a, c) + sep_text(b, c),
    decreases a.len(),
{
    if a.len() == 0 {
        assert(a + b =~= b);
        assert(sep_text(a, c) + sep_text(b, c) =~= sep_text(b, c));
    } else {
        assert((a + b).drop_first() =~= a.drop_first() + b);
        lemma_sep_text_add(a.drop_first(), b, c);
        assert((a + b)[0] == a[0]);
        assert(sep_text(a + b, c) =~= a[0] + seq![c] + (sep_text(a.drop_first(), c) + sep_text(b, c)));
    }
}

proof fn lemma_void_text_step(k: nat)
    ensures
        sep_text(voids(k + 1), ',') == void_cell() + seq![','] + sep_text(voids(k), ','),
{
    assert(voids(k + 1).drop_first() =~= voids(k));
    assert(voids(k + 1)[0] == void_cell());
}

proof fn lemma_void_texts_bro()
    ensures
        sep_text(voids(1), ',') == void_cell() + seq![','],
        ",-999999,"@ == seq![','] + sep_text(voids(1), ','),
        ",-999999,-999999,"@ == seq![','] + sep_text(voids(2), ','),
        ",-999999,-999999,-999999,"@ == seq![','] + sep_text(voids(3), ','),
        ",-999999,-999999,-999999,-999999,-999999,-999999,-999999,-999999,-999999,-999999,-999999,"@ == seq![',']
            + sep_text(voids(11), ','),
{
    reveal_strlit("-999999");
    reveal_strlit(",-999999,");
    reveal_strlit(",-999999,-999999,");
    reveal_strlit(",-999999,-999999,-999999,");
    reveal_strlit(",-999999,-999999,-999999,-999999,-999999,-999999,-999999,-999999,-999999,-999999,-999999,");
    assert(voids(0) =~= Seq::<Seq<char>>::empty());
    assert(sep_text(voids(0), ',') =~= Seq::<char>::empty());
    lemma_void_text_step(0);
    lemma_void_text_step(1);
    lemma_void_text_step(2);
    lemma_void_text_step(3);
    lemma_void_text_step(4);
    lemma_void_text_step(5);
    lemma_void_text_step(6);
    lemma_void_text_step(7);
    lemma_void_text_step(8);
    lemma_void_text_step(9);
    lemma_void_text_step(10);
    let v = void_cell();
    assert(",-999999,"@ =~= seq![','] + sep_text(voids(1), ','));
    assert(",-999999,-999999,"@ =~= seq![','] + sep_text(voids(2), ','));
    assert(",-999999,-999999,-999999,"@ =~= seq![','] + sep_text(voids(3), ','));
    assert(",-999999,-999999,-999999,-999999,-999999,-999999,-999999,-999999,-999999,-999999,-999999,"@
        =~= seq![','] + sep_text(voids(11), ','));
}

/// A data row with the given depth and values, as the writer lays it out.
pub open spec fn row_of(d: Seq<char>, q: Seq<char>, inc: Seq<char>, f: Seq<char>, u: Seq<char>, r: Seq<char>) -> Seq<char> {
    d + ","@ + d + ",-999999,"@ + q
        + ",-999999,-999999,-999999,-999999,-999999,-999999,-999999,-999999,-999999,-999999,-999999,"@ + inc
        + ",-999999,-999999,"@ + f + ",-999999,-999999,-999999,"@ + u + ",-999999,"@ + r
}

/// The cells of such a row.
pub open spec fn cells_of(d: Seq<char>, q: Seq<char>, inc: Seq<char>, f: Seq<char>, u: Seq<char>, r: Seq<char>) -> Seq<
    Seq<char>,
> {
    seq![d, d, void_cell(), q] + voids(11) + seq![inc] + voids(2) + seq![f] + voids(3) + seq![u, void_cell(), r]
}

#[verifier::spinoff_prover]
proof fn lemma_row_of(d: Seq<char>, q: Seq<char>, inc: Seq<char>, f: Seq<char>, u: Seq<char>, r: Seq<char>)
    ensures
        cells_of(d, q, inc, f, u, r).len() == 25,
        row_of(d, q, inc, f, u, r) == sep_text(cells_of(d, q, inc, f, u, r).drop_last(), ',') + r,
{
    lemma_void_texts_bro();
    reveal_strlit(",");
    let v = void_cell();
    let a1 = seq![d, d, v, q];
    let a3 = seq![inc];
    let a5 = seq![f];
    let a7 = seq![u, v];
    let cells = cells_of(d, q, inc, f, u, r);
    let init = a1 + voids(11) + a3 + voids(2) + a5 + voids(3) + a7;
    assert(cells =~= init.push(r));
    assert(cells.drop_last() =~= init);
    lemma_sep_text_add(a1, voids(11), ',');
    lemma_sep_text_add(a1 + voids(11), a3, ',');
    lemma_sep_text_add(a1 + voids(11) + a3, voids(2), ',');
    lemma_sep_text_add(a1 + voids(11) + a3 + voids(2), a5, ',');
    lemma_sep_text_add(a1 + voids(11) + a3 + voids(2) + a5, voids(3), ',');
    lemma_sep_text_add(a1 + voids(11) + a3 + voids(2) + a5 + voids(3), a7, ',');
    lemma_sep_text_add(seq![d], seq![d, v, q], ',');
    lemma_sep_text_add(seq![d], seq![v, q], ',');
    lemma_sep_text_add(seq![v], seq![q], ',');
    lemma_sep_text_add(seq![u], seq![v], ',');
    lemma_sep_one(d);
    lemma_sep_one(v);
    lemma_sep_one(q);
    lemma_sep_one(inc);
    lemma_sep_one(f);
    lemma_sep_one(u);
    assert(seq![d] + seq![d, v, q] =~= a1);
    assert(seq![d] + seq![v, q] =~= seq![d, v, q]);
    assert(seq![v] + seq![q] =~= seq![v, q]);
    assert(seq![u] + seq![v] =~= a7);
    let c = seq![','];
    let t11 = sep_text(voids(11), ',');
    let t2 = sep_text(voids(2), ',');
    let t3 = sep_text(voids(3), ',');
    assert(sep_text(a1, ',') == d + c + (d + c + (v + c + (q + c))));
    assert(sep_text(a7, ',') == u + c + (v + c));
    let flat = d + c + d + c + v + c + q + c + t11 + inc + c + t2 + f + c + t3 + u + c + v + c + r;
    assert(row_of(d, q, inc, f, u, r) =~= flat);
    assert(sep_text(init, ',') + r =~= flat);
}

proof fn lemma_sep_one(x: Seq<char>)
    ensures
        sep_text(seq![x], ',') == x + seq![','],
{
    assert(seq![x].drop_first() =~= Seq::<Seq<char>>::empty());
    assert(sep_text(Seq::<Seq<char>>::empty(), ',') =~= Seq::<char>::empty());
    assert(sep_text(seq![x], ',') =~= x + seq![','] + Seq::<char>::empty());
}

/// The row the writer writes: its first 24 cells each followed by a comma,
/// then the last.
pub proof fn lemma_bro_row(p: MeasurementPoint)
    ensures
        bro_cells(p).len() == 25,
        bro_row_text(p) == sep_text(bro_cells(p).drop_last(), ',') + bro_cells(p).last(),
{
    let d = fixed_text(p.depth, 3);
    let q = value_cell(p.qc);
    let inc = value_cell(p.inclination);
    let f = value_cell(p.fs);
    let u = value_cell(p.u2);
    let r = value_cell(p.rf);
    lemma_row_of(d, q, inc, f, u, r);
    assert(bro_row_text(p) == row_of(d, q, inc, f, u, r));
    assert(bro_cells(p) == cells_of(d, q, inc, f, u, r));
}


pub proof fn lemma_split_sep_rest(ps: Seq<Seq<char>>, c: char, rest: Seq<char>)
    requires
        forall|i: int| 0 <= i < ps.len() ==> lacks(#[trigger] ps[i], c),
    ensures
        split_on(sep_text(ps, c) + rest, c) == ps + split_on(rest, c),
    decreases ps.len(),
{
    if ps.len() == 0 {
        assert(sep_text(ps, c) + rest =~= rest);
        assert(ps + split_on(rest, c) =~= split_on(rest, c));
    } else {
        let t = ps.drop_first();
        assert forall|i: int| 0 <= i < t.len() implies lacks(#[trigger] t[i], c) by {
            assert(t[i] == ps[i + 1]);
        }
        lemma_split_sep_rest(t, c, rest);
        assert(lacks(ps[0], c));
        assert(sep_text(ps, c) + rest =~= ps[0] + seq![c] + (sep_text(t, c) + rest));
        lemma_split_first(ps[0], c, sep_text(t, c) + rest);
        assert(seq![ps[0]] + (t + split_on(rest, c)) =~= ps + split_on(rest, c));
    }
}

proof fn lemma_split_none_here(s: Seq<char>, c: char, k: int)
    requires
        lacks(s, c),
        0 <= k <= s.len(),
    ensures
        crate::text::find_char(s, c, k) == s.len(),
    decreases s.len() - k,
{
    if k < s.len() {
        lemma_split_none_here(s, c, k + 1);
    }
}

/// A text without `c` splits into itself.
pub proof fn lemma_split_whole(s: Seq<char>, c: char)
    requires
        lacks(s, c),
    ensures
        split_on(s, c) == seq![s],
{
    lemma_split_none_here(s, c, 0);
    assert(s.subrange(0, s.len() as int) =~= s);
}

/// Cells joined with `c` split back into the cells.
pub proof fn lemma_split_join(ps: Seq<Seq<char>>, c: char)
    requires
        ps.len() > 0,
        forall|i: int| 0 <= i < ps.len() ==> lacks(#[trigger] ps[i], c),
    ensures
        join(ps, c) == sep_text(ps.drop_last(), c) + ps.last(),
        split_on(join(ps, c), c) == ps,
    decreases ps.len(),
{
    let q = ps.drop_last();
    if ps.len() == 1 {
        assert(sep_text(q, c) =~= Seq::<char>::empty());
        assert(join(ps, c) =~= sep_text(q, c) + ps.last());
    } else {
        assert forall|i: int| 0 <= i < q.len() implies lacks(#[trigger] q[i], c) by {
            assert(q[i] == ps[i]);
        }
        lemma_split_join(q, c);
        lemma_sep_text_push_here(q.drop_last(), q.last(), c);
        assert(q.drop_last().push(q.last()) =~= q);
        assert(join(ps, c) =~= sep_text(q, c) + ps.last());
    }
    assert forall|i: int| 0 <= i < q.len() implies lacks(#[trigger] q[i], c) by {
        assert(q[i] == ps[i]);
    }
    lemma_split_sep_rest(q, c, ps.last());
    lemma_split_whole(ps.last(), c);
    assert(q + seq![ps.last()] =~= ps);
}

proof fn lemma_sep_text_push_here(ps: Seq<Seq<char>>, x: Seq<char>, c: char)
    ensures
        sep_text(ps.push(x), c) == sep_text(ps, c) + x + seq![c],
{
    lemma_sep_text_add(ps, seq![x], c);
    assert(ps.push(x) =~= ps + seq![x]);
    assert(seq![x].drop_first() =~= Seq::<Seq<char>>::empty());
    assert(sep_text(Seq::<Seq<char>>::empty(), c) =~= Seq::<char>::empty());
    assert(sep_text(seq![x], c) =~= x + seq![c]);
}


/// What the reader makes of a value written in the data array.
pub open spec fn bro_back(o: Option<Number>) -> Option<Number> {
    match o {
        Some(x) => if near_void(shown(x, 3)) {
            None
        } else {
            Some(shown(x, 3))
        },
        None => None,
    }
}

pub open spec fn cell_number(r: Result<Option<Number>, ()>) -> Option<Number> {
    match r {
        Ok(v) => v,
        Err(_) => None,
    }
}

/// A value cell: digits, sign and point only, and read back as `bro_back`.
pub proof fn lemma_value_cell(o: Option<Number>)
    requires
        writable(o, 3),
    ensures
        value_cell(o).len() > 0,
        forall|i: int| 0 <= i < value_cell(o).len() ==> numeral_char(#[trigger] value_cell(o)[i]),
        lacks(value_cell(o), ','),
        lacks(value_cell(o), ';'),
        cell_value(value_cell(o)) == Ok::<Option<Number>, ()>(bro_back(o)),
{
    lemma_pow_facts();
    match o {
        Some(x) => {
            lemma_fixed_text_shape(x, 3);
            law_fixed_text_reads_back(x, 3);
            let t = fixed_text(x, 3);
            assert(numeral_char(t[0]));
            lemma_trim_plain(t);
        },
        None => {
            lemma_void_cell();
            reveal_strlit("-999999");
            assert(bro_void_text() == void_cell());
        },
    }
    let t = value_cell(o);
    assert forall|i: int| 0 <= i < t.len() implies #[trigger] t[i] != ',' && t[i] != ';' by {
        assert(numeral_char(t[i]));
    }
}

pub proof fn lemma_cells_from_all(cs: Seq<Seq<char>>, i: int, acc: Seq<Option<Number>>)
    requires
        0 <= i <= cs.len(),
        forall|k: int| 0 <= k < cs.len() ==> #[trigger] cell_value(cs[k]) is Ok,
    ensures
        cells_from(cs, i, acc) == Some(
            acc + cs.subrange(i, cs.len() as int).map_values(|c: Seq<char>| cell_number(cell_value(c))),
        ),
    decreases cs.len() - i,
{
    let tail = cs.subrange(i, cs.len() as int).map_values(|c: Seq<char>| cell_number(cell_value(c)));
    if i == cs.len() {
        assert(acc + tail =~= acc);
    } else {
        assert(cell_value(cs[i]) is Ok);
        let v = cell_number(cell_value(cs[i]));
        lemma_cells_from_all(cs, i + 1, acc.push(v));
        assert(acc.push(v) + cs.subrange(i + 1, cs.len() as int).map_values(|c: Seq<char>| cell_number(cell_value(c)))
            =~= acc + tail);
    }
}

/// A point the BRO writer writes so that the reader gets it back.
pub open spec fn bro_writable(p: MeasurementPoint) -> bool {
    &&& p.depth.den > 0
    &&& scaled_round(p.depth, 3) < pow10(17)
    &&& writable(p.qc, 3)
    &&& writable(p.fs, 3)
    &&& writable(p.rf, 3)
    &&& writable(p.u2, 3)
    &&& writable(p.inclination, 3)
    &&& !near_void(shown(p.depth, 3))
}

/// What the reader makes of a written point, under the level `z`.
pub open spec fn bro_read(p: MeasurementPoint, z: Option<Number>) -> MeasurementPoint {
    complete_point(
        MeasurementPoint {
            depth: shown(p.depth, 3),
            depth_nap: None,
            qc: bro_back(p.qc),
            fs: bro_back(p.fs),
            rf: bro_back(p.rf),
            u2: bro_back(p.u2),
            inclination: bro_back(p.inclination),
        },
        z,
    )
}

#[verifier::spinoff_prover]
#[verifier::rlimit(30)]
proof fn lemma_row_cells(p: MeasurementPoint)
    requires
        bro_writable(p),
    ensures
        forall|k: int| 0 <= k < bro_cells(p).len() ==> lacks(#[trigger] bro_cells(p)[k], ','),
        forall|k: int| 0 <= k < bro_cells(p).len() ==> lacks(#[trigger] bro_cells(p)[k], ';'),
        forall|k: int| 0 <= k < bro_cells(p).len() ==> #[trigger] cell_value(bro_cells(p)[k]) is Ok,
        bro_cells(p).len() == 25,
        bro_cells(p)[0] == fixed_text(p.depth, 3),
        bro_cells(p)[1] == fixed_text(p.depth, 3),
        bro_cells(p)[3] == value_cell(p.qc),
        bro_cells(p)[15] == value_cell(p.inclination),
        bro_cells(p)[18] == value_cell(p.fs),
        bro_cells(p)[22] == value_cell(p.u2),
        bro_cells(p)[24] == value_cell(p.rf),
{
    let cs = bro_cells(p);
    lemma_value_cell(Some(p.depth));
    lemma_value_cell(None);
    lemma_value_cell(p.qc);
    lemma_value_cell(p.inclination);
    lemma_value_cell(p.fs);
    lemma_value_cell(p.u2);
    lemma_value_cell(p.rf);
    assert(value_cell(Some(p.depth)) == fixed_text(p.depth, 3));
    assert(value_cell(None) == void_cell()) by {
        reveal_strlit("-999999");
    }
    assert forall|k: int| 0 <= k < cs.len() implies lacks(#[trigger] cs[k], ',') && lacks(cs[k], ';')
        && cell_value(cs[k]) is Ok by {
        if k == 0 || k == 1 {
            assert(cs[k] == value_cell(Some(p.depth)));
        } else if k == 3 {
            assert(cs[k] == value_cell(p.qc));
        } else if k == 15 {
            assert(cs[k] == value_cell(p.inclination));
        } else if k == 18 {
            assert(cs[k] == value_cell(p.fs));
        } else if k == 22 {
            assert(cs[k] == value_cell(p.u2));
        } else if k == 24 {
            assert(cs[k] == value_cell(p.rf));
        } else {
            assert(cs[k] == value_cell(None));
        }
    }
}


proof fn lemma_sep_text_lacks(ps: Seq<Seq<char>>, c: char, ch: char)
    requires
        ch != c,
        forall|i: int| 0 <= i < ps.len() ==> lacks(#[trigger] ps[i], ch),
    ensures
        lacks(sep_text(ps, c), ch),
    decreases ps.len(),
{
    if ps.len() > 0 {
        let t = ps.drop_first();
        assert forall|i: int| 0 <= i < t.len() implies lacks(#[trigger] t[i], ch) by {
            assert(t[i] == ps[i + 1]);
        }
        lemma_sep_text_lacks(t, c, ch);
        let w = ps[0] + seq![c] + sep_text(t, c);
        assert(lacks(ps[0], ch));
        assert forall|i: int| 0 <= i < w.len() implies #[trigger] w[i] != ch by {
            if i < ps[0].len() {
                assert(w[i] == ps[0][i]);
            } else if i > ps[0].len() {
                assert(w[i] == sep_text(t, c)[i - ps[0].len() - 1]);
            }
        }
    }
}

proof fn lemma_sep_text_first(ps: Seq<Seq<char>>, c: char, rest: Seq<char>)
    requires
        ps.len() > 0,
        ps[0].len() > 0,
    ensures
        (sep_text(ps, c) + rest)[0] == ps[0][0],
{
    assert(sep_text(ps, c) == ps[0] + seq![c] + sep_text(ps.drop_first(), c));
}

/// A written row is trimmed, holds no `;`, and reads back as the point.
#[verifier::spinoff_prover]
#[verifier::rlimit(30)]
pub proof fn lemma_bro_row_point(p: MeasurementPoint, z: Option<Number>)
    requires
        bro_writable(p),
    ensures
        trim(bro_row_text(p)) == bro_row_text(p),
        lacks(bro_row_text(p), ';'),
        cells_from(split_on(bro_row_text(p), ','), 0, seq![]) matches Some(nums) && nums.len() == 25 && bro_point(
            nums,
            z,
        ) == Some(bro_read(p, z)),
{
    lemma_bro_row(p);
    lemma_row_cells(p);
    let cs = bro_cells(p);
    let init = cs.drop_last();
    let r = cs.last();
    assert forall|i: int| 0 <= i < init.len() implies lacks(#[trigger] init[i], ',') && lacks(init[i], ';') by {
        assert(init[i] == cs[i]);
    }
    assert(lacks(r, ','));
    lemma_split_sep_rest(init, ',', r);
    lemma_split_whole(r, ',');
    assert(init + seq![r] =~= cs);
    assert(split_on(bro_row_text(p), ',') == cs);
    lemma_cells_from_all(cs, 0, seq![]);
    let nums = cs.map_values(|c: Seq<char>| cell_number(cell_value(c)));
    assert(cs.subrange(0, 25) =~= cs);
    assert(Seq::<Option<Number>>::empty() + nums =~= nums);
    lemma_value_cell(Some(p.depth));
    lemma_value_cell(p.qc);
    lemma_value_cell(p.inclination);
    lemma_value_cell(p.fs);
    lemma_value_cell(p.u2);
    lemma_value_cell(p.rf);
    assert(value_cell(Some(p.depth)) == fixed_text(p.depth, 3));
    assert(nums[1] == Some(shown(p.depth, 3)));
    assert(nums[3] == bro_back(p.qc));
    assert(nums[15] == bro_back(p.inclination));
    assert(nums[18] == bro_back(p.fs));
    assert(nums[22] == bro_back(p.u2));
    assert(nums[24] == bro_back(p.rf));
    lemma_sep_text_lacks(init, ',', ';');
    let row = bro_row_text(p);
    assert forall|i: int| 0 <= i < row.len() implies #[trigger] row[i] != ';' by {
        if i < sep_text(init, ',').len() {
            assert(row[i] == sep_text(init, ',')[i]);
        } else {
            assert(row[i] == r[i - sep_text(init, ',').len()]);
        }
    }
    assert(init[0] == cs[0]);
    lemma_sep_text_first(init, ',', r);
    assert(numeral_char(cs[0][0]));
    assert(row.last() == r.last());
    assert(numeral_char(r[r.len() - 1]));
    lemma_trim_plain(row);
}


pub open spec fn bro_read_points(ps: Seq<MeasurementPoint>, z: Option<Number>) -> Seq<MeasurementPoint> {
    ps.map_values(|p: MeasurementPoint| bro_read(p, z))
}

proof fn lemma_block_rows(ps: Seq<MeasurementPoint>, z: Option<Number>, k: int, acc: Seq<MeasurementPoint>)
    requires
        forall|i: int| 0 <= i < ps.len() ==> bro_writable(#[trigger] ps[i]),
        0 <= k <= ps.len(),
    ensures
        block_from(bro_rows(ps), k, z, acc) == Some(acc + bro_read_points(ps.subrange(k, ps.len() as int), z)),
    decreases ps.len() - k,
{
    let tail = bro_read_points(ps.subrange(k, ps.len() as int), z);
    if k == ps.len() {
        assert(acc + tail =~= acc);
    } else {
        assert(bro_writable(ps[k]));
        lemma_bro_row_point(ps[k], z);
        assert(bro_rows(ps)[k] == bro_row_text(ps[k]));
        let rp = bro_read(ps[k], z);
        lemma_block_rows(ps, z, k + 1, acc.push(rp));
        assert(acc.push(rp) + bro_read_points(ps.subrange(k + 1, ps.len() as int), z) =~= acc + tail);
    }
}

/// The data block the BRO writer writes between `<cptcommon:values>` and
/// `</cptcommon:values>` reads back, row by row, as the points: each value
/// at three decimals, values written as void absent, and the friction ratio
/// and level completed as for any file read. (The reader then sorts the
/// points by depth.)
pub proof fn law_bro_block_reads_back(ps: Seq<MeasurementPoint>, z: Option<Number>)
    requires
        forall|i: int| 0 <= i < ps.len() ==> bro_writable(#[trigger] ps[i]),
    ensures
        block_from(split_on(join(bro_rows(ps), ';'), ';'), 0, z, seq![]) == Some(bro_read_points(ps, z)),
{
    if ps.len() == 0 {
        assert(bro_rows(ps) =~= Seq::<Seq<char>>::empty());
        lemma_split_empty(';');
        let e = Seq::<char>::empty();
        assert(trim(e) =~= e) by {
            assert(skip_ws(e, 0) == 0);
            assert(trim_end_at(e, 0) == 0);
        }
        let recs = seq![e];
        assert(block_from(recs, 1, z, seq![]) == Some(Seq::<MeasurementPoint>::empty()));
        assert(bro_read_points(ps, z) =~= Seq::<MeasurementPoint>::empty());
    } else {
        let rows = bro_rows(ps);
        assert forall|i: int| 0 <= i < rows.len() implies lacks(#[trigger] rows[i], ';') by {
            assert(bro_writable(ps[i]));
            lemma_bro_row_point(ps[i], z);
        }
        lemma_split_join(rows, ';');
        lemma_block_rows(ps, z, 0, seq![]);
        assert(ps.subrange(0, ps.len() as int) =~= ps);
        assert(Seq::<MeasurementPoint>::empty() + bro_read_points(ps, z) =~= bro_read_points(ps, z));
    }
}

} // verus!
