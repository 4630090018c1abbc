//! Exact decimal numbers.
//!
//! Measurements in GEF and BRO files are decimal text. The library keeps
//! them as exact rationals `num / den` read from that text, so comparisons,
//! void detection and classification are decided exactly.

use vstd::prelude::*;

verus! {

/// An exact rational value `num / den` with `den > 0`.
#[derive(Clone, Copy, Debug, PartialEq, Eq)]
pub struct Number {
    pub num: i128,
    pub den: i128,
}

/// The outcome of reading a numeric token written in the syntax Rust
/// accepts for an `f64`.
#[derive(Clone, Copy, Debug, PartialEq, Eq)]
pub enum Parsed {
    /// A finite decimal value that fits the exact representation.
    Finite(Number),
    /// `inf`, `infinity` or `nan` (any letter case, optional sign).
    NonFinite,
    /// A finite decimal too large or too precise to hold exactly.
    OutOfRange,
    /// Not a number.
    Invalid,
}

pub open spec fn pow10(n: nat) -> int
    decreases n,
{
    if n == 0 {
        1
    } else {
        10 * pow10((n - 1) as nat)
    }
}

pub proof fn lemma_pow10_pos(n: nat)
    ensures
        pow10(n) >= 1,
    decreases n,
{
    if n > 0 {
        lemma_pow10_pos((n - 1) as nat);
    }
}

pub proof fn lemma_pow10_mono(a: nat, b: nat)
    requires
        a <= b,
    ensures
        pow10(a) <= pow10(b),
    decreases b,
{
    lemma_pow10_pos(b);
    if a < b {
        lemma_pow10_mono(a, (b - 1) as nat);
        lemma_pow10_pos((b - 1) as nat);
    }
}

pub proof fn lemma_pow10_add(a: nat, b: nat)
    ensures
        pow10(a + b) == pow10(a) * pow10(b),
    decreases b,
{
    if b > 0 {
        lemma_pow10_add(a, (b - 1) as nat);
        assert(pow10(a + b) == 10 * pow10((a + b - 1) as nat));
        assert(pow10(a) * pow10(b) == pow10(a) * (10 * pow10((b - 1) as nat)));
        assert(pow10(a) * (10 * pow10((b - 1) as nat)) == 10 * (pow10(a) * pow10((b - 1) as nat)))
            by (nonlinear_arith);
    }
}

/// `10^k` for small `k`.
pub fn pow10_exec(k: u32) -> (r: i128)
    requires
        k <= 37,
    ensures
        r == pow10(k as nat),
{
    let mut r: i128 = 1;
    let mut i: u32 = 0;
    while i < k
        invariant
            i <= k <= 37,
            r == pow10(i as nat),
        decreases k - i,
    {
        proof {
            lemma_pow10_mono((i + 1) as nat, 37);
            assert(pow10((i + 1) as nat) == 10 * pow10(i as nat));
            lemma_pow_facts();
            lemma_pow10_pos(i as nat);
            assert(r * 10 <= 10000000000000000000000000000000000000);
        }
        r = r * 10;
        i = i + 1;
    }
    r
}

pub open spec fn is_digit(c: char) -> bool {
    '0' <= c && c <= '9'
}

pub open spec fn digit_of(c: char) -> int {
    c as int - '0' as int
}

pub open spec fn all_digits(s: Seq<char>) -> bool {
    forall|i: int| 0 <= i < s.len() ==> #[trigger] is_digit(s[i])
}

/// The value of a decimal digit string (most significant digit first).
pub open spec fn digits_value(s: Seq<char>) -> int
    decreases s.len(),
{
    if s.len() == 0 {
        0
    } else {
        digits_value(s.drop_last()) * 10 + digit_of(s.last())
    }
}

pub proof fn lemma_digits_value_nonneg(s: Seq<char>)
    requires
        all_digits(s),
    ensures
        digits_value(s) >= 0,
    decreases s.len(),
{
    if s.len() > 0 {
        assert(is_digit(s[s.len() - 1]));
        lemma_digits_value_nonneg(s.drop_last());
    }
}

/// Appending digits never makes a digit string smaller.
pub proof fn lemma_digits_value_grows(s: Seq<char>, t: Seq<char>)
    requires
        all_digits(s),
        all_digits(t),
    ensures
        digits_value(s + t) >= digits_value(s),
    decreases t.len(),
{
    lemma_digits_value_nonneg(s);
    if t.len() > 0 {
        let u = s + t;
        assert(u.drop_last() =~= s + t.drop_last());
        assert(is_digit(t[t.len() - 1]));
        lemma_digits_value_grows(s, t.drop_last());
        lemma_digits_value_nonneg(s + t.drop_last());
    }
}

/// First index at or after `k` that does not hold a digit.
pub open spec fn span_digits(s: Seq<char>, k: int) -> int
    decreases s.len() - k,
{
    if k < 0 || k >= s.len() || !is_digit(s[k]) {
        k
    } else {
        span_digits(s, k + 1)
    }
}

pub open spec fn lower_ascii(c: char) -> char {
    if 'A' <= c && c <= 'Z' {
        ((c as int) + 32) as char
    } else {
        c
    }
}

/// `inf`, `infinity` or `nan`, ignoring ASCII letter case.
pub open spec fn is_nonfinite_word(w: Seq<char>) -> bool {
    let l = w.map_values(|c: char| lower_ascii(c));
    l =~= seq!['i', 'n', 'f'] || l =~= seq!['n', 'a', 'n'] || l =~= seq![
        'i',
        'n',
        'f',
        'i',
        'n',
        'i',
        't',
        'y',
    ]
}

/// Length of an optional leading `+` or `-` at `k`.
pub open spec fn sign_len(s: Seq<char>, k: int) -> int {
    if 0 <= k < s.len() && (s[k] == '-' || s[k] == '+') {
        1
    } else {
        0
    }
}

pub open spec fn sign_at(s: Seq<char>, k: int) -> int {
    if 0 <= k < s.len() && s[k] == '-' {
        -1
    } else {
        1
    }
}

/// Exponent part `[eE][+-]?digits` occupying `s[k..]` exactly, if present.
pub open spec fn exponent_ok(s: Seq<char>, k: int) -> bool {
    let d = k + 1 + sign_len(s, k + 1);
    &&& k < s.len()
    &&& (s[k] == 'e' || s[k] == 'E')
    &&& d < s.len()
    &&& all_digits(s.subrange(d, s.len() as int))
}

pub open spec fn exponent_value(s: Seq<char>, k: int) -> int {
    let d = k + 1 + sign_len(s, k + 1);
    sign_at(s, k + 1) * digits_value(s.subrange(d, s.len() as int))
}

/// The decimal reading of `s`: `Some((m, e))` when `s` is a finite number
/// `m * 10^e` in the syntax Rust accepts for `f64`.
pub open spec fn decimal_reading(s: Seq<char>) -> Option<(int, int)> {
    let b = sign_len(s, 0);
    let i1 = span_digits(s, b);
    let has_point = i1 < s.len() && s[i1] == '.';
    let fs = if has_point {
        i1 + 1
    } else {
        i1
    };
    let i2 = if has_point {
        span_digits(s, i1 + 1)
    } else {
        i1
    };
    let digits = s.subrange(b, i1) + s.subrange(fs, i2);
    let m = sign_at(s, 0) * digits_value(digits);
    if digits.len() == 0 {
        None
    } else if i2 == s.len() {
        Some((m, -(i2 - fs)))
    } else if exponent_ok(s, i2) {
        Some((m, exponent_value(s, i2) - (i2 - fs)))
    } else {
        None
    }
}

/// `m * 10^e` fits the exact representation read from text.
pub open spec fn representable(m: int, e: int) -> bool {
    ||| m == 0
    ||| (e >= 0 && (if m < 0 {
        -m
    } else {
        m
    }) * pow10(e as nat) < pow10(17))
    ||| (e < 0 && -e <= 18 && (if m < 0 {
        -m
    } else {
        m
    }) < pow10(17))
}

pub open spec fn number_of(m: int, e: int) -> (int, int) {
    if m == 0 {
        (0, 1)
    } else if e >= 0 {
        (m * pow10(e as nat), 1)
    } else {
        (m, pow10((-e) as nat))
    }
}

/// How `s` reads as an `f64`-style number.
pub open spec fn parse_spec(s: Seq<char>) -> Parsed {
    if is_nonfinite_word(s.subrange(sign_len(s, 0), s.len() as int)) {
        Parsed::NonFinite
    } else {
        match decimal_reading(s) {
            Some((m, e)) => if representable(m, e) {
                Parsed::Finite(
                    Number { num: number_of(m, e).0 as i128, den: number_of(m, e).1 as i128 },
                )
            } else {
                Parsed::OutOfRange
            },
            None => Parsed::Invalid,
        }
    }
}

/// A number read from text: `|num| < 10^17` and `0 < den <= 10^18`.
pub open spec fn simple(n: Number) -> bool {
    &&& 0 < n.den <= pow10(18)
    &&& -pow10(17) < n.num < pow10(17)
}

/// A number small enough to compare with small constants and to format.
pub open spec fn bounded(n: Number) -> bool {
    &&& 0 < n.den <= pow10(36)
    &&& -pow10(37) <= n.num <= pow10(37)
}

/// A ratio of two numbers read from text, like `100 * fs / qc`.
pub open spec fn ratio(n: Number) -> bool {
    bounded(n) && n.den <= pow10(35)
}

pub proof fn lemma_pow_facts()
    ensures
        pow10(17) == 100000000000000000,
        pow10(18) == 1000000000000000000,
        pow10(30) == 1000000000000000000000000000000,
        pow10(35) == 100000000000000000000000000000000000,
        pow10(36) == 1000000000000000000000000000000000000,
        pow10(37) == 10000000000000000000000000000000000000,
{
    reveal_with_fuel(pow10, 38);
}

pub proof fn lemma_parse_simple(s: Seq<char>)
    ensures
        parse_spec(s) matches Parsed::Finite(n) ==> simple(n),
{
    lemma_pow_facts();
    if !is_nonfinite_word(s.subrange(sign_len(s, 0), s.len() as int)) {
        if let Some((m, e)) = decimal_reading(s) {
            if representable(m, e) {
                let am = if m < 0 {
                    -m
                } else {
                    m
                };
                if m == 0 {
                } else if e >= 0 {
                    lemma_pow10_pos(e as nat);
                    assert(am * pow10(e as nat) >= am) by (nonlinear_arith)
                        requires
                            pow10(e as nat) >= 1,
                            am >= 0,
                    ;
                    assert(-pow10(17) < m * pow10(e as nat) < pow10(17)) by (nonlinear_arith)
                        requires
                            am * pow10(e as nat) < pow10(17),
                            am == (if m < 0 {
                                -m
                            } else {
                                m
                            }),
                            pow10(e as nat) >= 1,
                    ;
                } else {
                    lemma_pow10_pos((-e) as nat);
                    lemma_pow10_mono((-e) as nat, 18);
                }
            }
        }
    }
}

fn is_digit_exec(c: char) -> (r: bool)
    ensures
        r == is_digit(c),
{
    '0' <= c && c <= '9'
}

pub fn lower_ascii_exec(c: char) -> (r: char)
    ensures
        r == lower_ascii(c),
{
    if 'A' <= c && c <= 'Z' {
        ((c as u8) + 32) as char
    } else {
        c
    }
}

/// Whether `s[b..]` is one of the non-finite words.
fn nonfinite_word_exec(s: &[char], b: usize) -> (r: bool)
    requires
        b <= s@.len(),
    ensures
        r == is_nonfinite_word(s@.subrange(b as int, s@.len() as int)),
{
    let w = Ghost(s@.subrange(b as int, s@.len() as int));
    let n = s.len() - b;
    if n != 3 && n != 8 {
        proof {
            let l = w@.map_values(|c: char| lower_ascii(c));
            assert(l.len() == n);
        }
        return false;
    }
    let mut low: Vec<char> = Vec::new();
    let mut i = b;
    while i < s.len()
        invariant
            b <= i <= s@.len(),
            w@ == s@.subrange(b as int, s@.len() as int),
            low@ == w@.take(i - b).map_values(|c: char| lower_ascii(c)),
        decreases s@.len() - i,
    {
        let c = lower_ascii_exec(s[i]);
        proof {
            assert(w@.take(i + 1 - b) =~= w@.take(i - b).push(s@[i as int]));
        }
        low.push(c);
        i = i + 1;
        proof {
            assert(low@ =~= w@.take(i - b).map_values(|c: char| lower_ascii(c)));
        }
    }
    proof {
        assert(w@.take(w@.len() as int) =~= w@);
    }
    let r = if n == 3 {
        (low[0] == 'i' && low[1] == 'n' && low[2] == 'f') || (low[0] == 'n' && low[1] == 'a'
            && low[2] == 'n')
    } else {
        low[0] == 'i' && low[1] == 'n' && low[2] == 'f' && low[3] == 'i' && low[4] == 'n'
            && low[5] == 'i' && low[6] == 't' && low[7] == 'y'
    };
    proof {
        let l = w@.map_values(|c: char| lower_ascii(c));
        assert(l == low@);
        if r {
            if n == 3 {
                assert(l =~= seq!['i', 'n', 'f'] || l =~= seq!['n', 'a', 'n']);
            } else {
                assert(l =~= seq!['i', 'n', 'f', 'i', 'n', 'i', 't', 'y']);
            }
        } else {
            if l =~= seq!['i', 'n', 'f'] {
                assert(l[0] == 'i' && l[1] == 'n' && l[2] == 'f');
            }
            if l =~= seq!['n', 'a', 'n'] {
                assert(l[0] == 'n' && l[1] == 'a' && l[2] == 'n');
            }
            if l =~= seq!['i', 'n', 'f', 'i', 'n', 'i', 't', 'y'] {
                assert(l[3] == 'i');
            }
        }
    }
    r
}

/// Index of the first non-digit at or after `k`.
fn span_digits_exec(s: &[char], k: usize) -> (r: usize)
    requires
        k <= s@.len(),
    ensures
        r == span_digits(s@, k as int),
        k <= r <= s@.len(),
        r < s@.len() ==> !is_digit(s@[r as int]),
        all_digits(s@.subrange(k as int, r as int)),
{
    let mut j = k;
    while j < s.len() && is_digit_exec(s[j])
        invariant
            k <= j <= s@.len(),
            span_digits(s@, k as int) == span_digits(s@, j as int),
            all_digits(s@.subrange(k as int, j as int)),
        decreases s@.len() - j,
    {
        proof {
            assert forall|t: int| 0 <= t < j + 1 - k implies #[trigger] is_digit(
                s@.subrange(k as int, j + 1)[t],
            ) by {
                if t < j - k {
                    assert(s@.subrange(k as int, j + 1)[t] == s@.subrange(k as int, j as int)[t]);
                }
            }
        }
        j = j + 1;
    }
    j
}

/// Accumulates the digits `s[from..to]` onto `m` (capped: once the value
/// reaches `10^17` only the flag is kept).
fn accumulate_digits(s: &[char], from: usize, to: usize, m0: i128, big0: bool, Ghost(
    prefix,
): Ghost<Seq<char>>) -> (r: (i128, bool))
    requires
        from <= to <= s@.len(),
        all_digits(s@.subrange(from as int, to as int)),
        all_digits(prefix),
        big0 ==> digits_value(prefix) >= pow10(17),
        !big0 ==> m0 == digits_value(prefix) && 0 <= m0 < pow10(17),
    ensures
        ({
            let full = prefix + s@.subrange(from as int, to as int);
            &&& r.1 ==> digits_value(full) >= pow10(17)
            &&& !r.1 ==> r.0 == digits_value(full) && 0 <= r.0 < pow10(17)
        }),
{
    proof {
        lemma_pow_facts();
    }
    let mut m = m0;
    let mut big = big0;
    let mut j = from;
    while j < to
        invariant
            from <= j <= to <= s@.len(),
            all_digits(s@.subrange(from as int, to as int)),
            all_digits(prefix),
            pow10(17) == 100000000000000000,
            ({
                let cur = prefix + s@.subrange(from as int, j as int);
                &&& all_digits(cur)
                &&& big ==> digits_value(cur) >= pow10(17)
                &&& !big ==> m == digits_value(cur) && 0 <= m < pow10(17)
            }),
        decreases to - j,
    {
        let ghost cur = prefix + s@.subrange(from as int, j as int);
        let ghost next = prefix + s@.subrange(from as int, j + 1);
        proof {
            assert(s@.subrange(from as int, to as int)[j - from] == s@[j as int]);
            assert(is_digit(s@[j as int]));
            assert(next.drop_last() =~= cur);
            assert(next.last() == s@[j as int]);
            assert forall|t: int| 0 <= t < next.len() implies #[trigger] is_digit(next[t]) by {
                if t < cur.len() {
                    assert(next[t] == cur[t]);
                }
            }
        }
        let d = (s[j] as u32 - '0' as u32) as i128;
        if !big {
            m = m * 10 + d;
            if m >= 100000000000000000 {
                big = true;
            }
        } else {
            proof {
                lemma_digits_value_grows(cur, seq![s@[j as int]]);
                assert(cur + seq![s@[j as int]] =~= next);
            }
        }
        j = j + 1;
    }
    (m, big)
}

/// Reads `s` the way Rust reads an `f64`, keeping the value exact.
pub fn parse_number(s: &[char]) -> (r: Parsed)
    ensures
        r == parse_spec(s@),
{
    proof {
        lemma_pow_facts();
    }
    let n = s.len();
    let b: usize = if n > 0 && (s[0] == '-' || s[0] == '+') {
        1
    } else {
        0
    };
    let sg: i128 = if n > 0 && s[0] == '-' {
        -1
    } else {
        1
    };
    if nonfinite_word_exec(s, b) {
        return Parsed::NonFinite;
    }
    let i1 = span_digits_exec(s, b);
    let has_point = i1 < n && s[i1] == '.';
    let fs = if has_point {
        i1 + 1
    } else {
        i1
    };
    let i2 = if has_point {
        span_digits_exec(s, i1 + 1)
    } else {
        i1
    };
    let ghost digits = s@.subrange(b as int, i1 as int) + s@.subrange(fs as int, i2 as int);
    if (i1 - b) + (i2 - fs) == 0 {
        proof {
            assert(digits.len() == 0);
        }
        return Parsed::Invalid;
    }
    let ghost empty: Seq<char> = seq![];
    proof {
        assert(empty + s@.subrange(b as int, i1 as int) =~= s@.subrange(b as int, i1 as int));
    }
    let (m1, big1) = accumulate_digits(s, b, i1, 0, false, Ghost(empty));
    let (m, big) = accumulate_digits(s, fs, i2, m1, big1, Ghost(s@.subrange(b as int, i1 as int)));
    let nfrac = (i2 - fs) as i128;
    let (es, x, xbig) = if i2 < n {
        match read_exponent(s, i2) {
            Some(t) => t,
            None => {
                return Parsed::Invalid;
            },
        }
    } else {
        (1, 0, false)
    };
    proof {
        lemma_digits_value_nonneg(digits);
        if i2 < n {
            assert(exponent_ok(s@, i2 as int));
        }
    }
    let ghost ev: int = if i2 < n {
        exponent_value(s@, i2 as int)
    } else {
        0
    };
    let r = finish_number(sg, m, big, nfrac, es, x, xbig, Ghost(digits_value(digits)), Ghost(ev));
    r
}

/// Reads `[eE][+-]?digits` filling `s[k..]`; the value saturates at `10^30`.
fn read_exponent(s: &[char], k: usize) -> (r: Option<(i128, i128, bool)>)
    requires
        k < s@.len(),
    ensures
        r is Some <==> exponent_ok(s@, k as int),
        r matches Some((es, x, xbig)) ==> {
            let ev = exponent_value(s@, k as int);
            &&& es == 1 || es == -1
            &&& xbig ==> es * ev >= pow10(30)
            &&& !xbig ==> 0 <= x < pow10(30) && ev == es * x
        },
{
    proof {
        lemma_pow_facts();
    }
    let n = s.len();
    if s[k] != 'e' && s[k] != 'E' {
        return None;
    }
    let mut es: i128 = 1;
    let mut j = k + 1;
    if j < n && (s[j] == '-' || s[j] == '+') {
        if s[j] == '-' {
            es = -1;
        }
        j = j + 1;
    }
    if j >= n {
        return None;
    }
    let d0 = j;
    let kend = span_digits_exec(s, j);
    if kend < n {
        proof {
            if all_digits(s@.subrange(d0 as int, n as int)) {
                assert(is_digit(s@.subrange(d0 as int, n as int)[kend - d0]));
                assert(s@.subrange(d0 as int, n as int)[kend - d0] == s@[kend as int]);
            }
        }
        return None;
    }
    let mut x: i128 = 0;
    let mut xbig = false;
    while j < n
        invariant
            d0 <= j <= n == s@.len(),
            all_digits(s@.subrange(d0 as int, n as int)),
            pow10(30) == 1000000000000000000000000000000,
            xbig ==> digits_value(s@.subrange(d0 as int, j as int)) >= pow10(30),
            !xbig ==> x == digits_value(s@.subrange(d0 as int, j as int)) && 0 <= x < pow10(30),
        decreases n - j,
    {
        let ghost cur = s@.subrange(d0 as int, j as int);
        let ghost next = s@.subrange(d0 as int, j + 1);
        proof {
            assert(s@.subrange(d0 as int, n as int)[j - d0] == s@[j as int]);
            assert(is_digit(s@.subrange(d0 as int, n as int)[j - d0]));
            assert(is_digit(s@[j as int]));
            assert(next.drop_last() =~= cur);
            assert(next.last() == s@[j as int]);
            assert(all_digits(cur)) by {
                assert forall|t: int| 0 <= t < cur.len() implies #[trigger] is_digit(cur[t]) by {
                    assert(cur[t] == s@.subrange(d0 as int, n as int)[t]);
                }
            }
        }
        let d = (s[j] as u32 - '0' as u32) as i128;
        if !xbig {
            x = x * 10 + d;
            if x >= 1000000000000000000000000000000 {
                xbig = true;
            }
        } else {
            proof {
                lemma_digits_value_grows(cur, seq![s@[j as int]]);
                assert(cur + seq![s@[j as int]] =~= next);
            }
        }
        j = j + 1;
    }
    proof {
        assert(s@.subrange(d0 as int, n as int) == s@.subrange(d0 as int, j as int));
        assert(d0 == k + 1 + sign_len(s@, k + 1));
        assert(es == sign_at(s@, k + 1));
        let dv = digits_value(s@.subrange(d0 as int, n as int));
        if es == -1 {
            assert(es * (es * dv) == dv);
        } else {
            assert(es * (es * dv) == dv);
        }
    }
    Some((es, x, xbig))
}

proof fn lemma_not_representable(m: int, e: int)
    requires
        m != 0,
        e >= 17 || e < -18,
    ensures
        !representable(m, e),
{
    lemma_pow_facts();
    if e >= 17 {
        lemma_pow10_mono(17, e as nat);
        let am = if m < 0 {
            -m
        } else {
            m
        };
        assert(am * pow10(e as nat) >= pow10(e as nat)) by (nonlinear_arith)
            requires
                am >= 1,
                pow10(e as nat) >= 1,
        ;
    }
}

/// Builds the exact value `sign * m * 10^(es * x - nfrac)` when it fits.
fn finish_number(
    sg: i128,
    m: i128,
    big: bool,
    nfrac: i128,
    es: i128,
    x: i128,
    xbig: bool,
    Ghost(dv): Ghost<int>,
    Ghost(ev): Ghost<int>,
) -> (r: Parsed)
    requires
        sg == 1 || sg == -1,
        es == 1 || es == -1,
        dv >= 0,
        0 <= nfrac <= usize::MAX,
        big ==> dv >= pow10(17),
        !big ==> m == dv && 0 <= m < pow10(17),
        xbig ==> es * ev >= pow10(30),
        !xbig ==> 0 <= x < pow10(30) && ev == es * x,
    ensures
        r == (if representable(sg * dv, ev - nfrac) {
            Parsed::Finite(
                Number {
                    num: number_of(sg * dv, ev - nfrac).0 as i128,
                    den: number_of(sg * dv, ev - nfrac).1 as i128,
                },
            )
        } else {
            Parsed::OutOfRange
        }),
{
    proof {
        lemma_pow_facts();
    }
    let ghost ee = ev - nfrac;
    if !big && m == 0 {
        return Parsed::Finite(Number { num: 0, den: 1 });
    }
    if big {
        proof {
            if ee >= 0 {
                lemma_pow10_pos(ee as nat);
                assert(dv * pow10(ee as nat) >= dv) by (nonlinear_arith)
                    requires
                        dv >= 0,
                        pow10(ee as nat) >= 1,
                ;
            }
        }
        return Parsed::OutOfRange;
    }
    if xbig {
        proof {
            if es > 0 {
                assert(ev >= pow10(30));
            } else {
                assert(-ev >= pow10(30));
            }
            assert(sg * dv != 0);
            lemma_not_representable(sg * dv, ee);
        }
        return Parsed::OutOfRange;
    }
    let e: i128 = es * x - nfrac;
    if e >= 0 {
        if e > 16 {
            proof {
                assert(sg * dv != 0);
                lemma_not_representable(sg * dv, ee);
            }
            return Parsed::OutOfRange;
        }
        let p = pow10_exec(e as u32);
        proof {
            lemma_pow10_mono(e as nat, 16);
            lemma_pow10_pos(e as nat);
            assert(pow10(16) == 10000000000000000) by {
                reveal_with_fuel(pow10, 17);
            }
            assert(m * p <= 100000000000000000 * 10000000000000000) by (nonlinear_arith)
                requires
                    0 <= m < 100000000000000000,
                    0 < p <= 10000000000000000,
            ;
        }
        let v = m * p;
        if v >= 100000000000000000 {
            return Parsed::OutOfRange;
        }
        proof {
            assert(sg * m * p == sg * v) by (nonlinear_arith)
                requires
                    v == m * p,
            ;
        }
        Parsed::Finite(Number { num: sg * v, den: 1 })
    } else {
        if e < -18 {
            return Parsed::OutOfRange;
        }
        let p = pow10_exec((-e) as u32);
        Parsed::Finite(Number { num: sg * m, den: p })
    }
}


pub open spec fn abs(x: int) -> int {
    if x < 0 {
        -x
    } else {
        x
    }
}

pub open spec fn digit_char(d: int) -> char {
    (d + 48) as char
}

/// Decimal digits of `v` without leading zeros (`"0"` for zero).
pub open spec fn nat_text(v: nat) -> Seq<char>
    decreases v,
{
    if v < 10 {
        seq![digit_char(v as int)]
    } else {
        nat_text(v / 10).push(digit_char((v % 10) as int))
    }
}

/// The last `k` decimal digits of `v`, zero-padded.
pub open spec fn padded(v: nat, k: nat) -> Seq<char>
    decreases k,
{
    if k == 0 {
        seq![]
    } else {
        padded(v / 10, (k - 1) as nat).push(digit_char((v % 10) as int))
    }
}

/// `|n| * 10^k` rounded to the nearest integer, halves away from zero.
pub open spec fn scaled_round(n: Number, k: nat) -> int {
    let a = abs(n.num as int);
    let d = n.den as int;
    let t = (a % d) * pow10(k);
    (a / d) * pow10(k) + t / d + (if 2 * (t % d) >= d {
        1int
    } else {
        0
    })
}

/// `n` written with exactly `k` decimals, like `format!("{:.k$}", n)`.
///
/// The rounding is that of the exact decimal: a value exactly halfway
/// rounds away from zero. Formatting an `f64` rounds the binary value
/// nearest the decimal instead, so on such halfway values the two can
/// differ in the last digit (`2.0625` gives `2.063` here; the `f64` nearest
/// to it, which is exactly `2.0625`, is written `2.062`).
pub open spec fn fixed_text(n: Number, k: nat) -> Seq<char> {
    let q = scaled_round(n, k);
    let p = pow10(k);
    (if n.num < 0 {
        seq!['-']
    } else {
        seq![]
    }) + nat_text((q / p) as nat) + (if k == 0 {
        seq![]
    } else {
        seq!['.'] + padded((q % p) as nat, k)
    })
}

/// Decimal digits of `v`.
pub fn nat_chars(v: u128) -> (r: Vec<char>)
    ensures
        r@ == nat_text(v as nat),
    decreases v,
{
    let d = (v % 10) as u8;
    let c = (d + 48) as char;
    if v < 10 {
        let mut r: Vec<char> = Vec::new();
        r.push(c);
        r
    } else {
        let mut r = nat_chars(v / 10);
        r.push(c);
        r
    }
}

/// The last `k` decimal digits of `v`, zero-padded.
pub fn padded_chars(v: u128, k: u32) -> (r: Vec<char>)
    ensures
        r@ == padded(v as nat, k as nat),
    decreases k,
{
    if k == 0 {
        Vec::new()
    } else {
        let d = (v % 10) as u8;
        let mut r = padded_chars(v / 10, k - 1);
        r.push((d + 48) as char);
        r
    }
}

/// `|x|` as an unsigned integer (`i128::MIN` included).
fn magnitude(x: i128) -> (r: u128)
    ensures
        r as int == abs(x as int),
{
    if x < 0 {
        ((-(x + 1)) as u128) + 1
    } else {
        x as u128
    }
}

/// `(10 * r) / d` and `(10 * r) % d` for `r < d`, computed without overflow.
fn times_ten_divmod(r: u128, d: u128) -> (res: (u128, u128))
    requires
        r < d,
    ensures
        res.0 * d + res.1 == 10 * r,
        res.1 < d,
        res.0 < 10,
{
    let mut acc: u128 = 0;
    let mut q: u128 = 0;
    let mut i: u32 = 0;
    while i < 10
        invariant
            i <= 10,
            r < d,
            acc < d,
            q <= i,
            q * d + acc == i * r,
        decreases 10 - i,
    {
        if acc >= d - r {
            proof {
                assert((q + 1) * d + (acc - (d - r)) == (i + 1) * r) by (nonlinear_arith)
                    requires
                        q * d + acc == i * r,
                ;
            }
            acc = acc - (d - r);
            q = q + 1;
        } else {
            proof {
                assert(q * d + (acc + r) == (i + 1) * r) by (nonlinear_arith)
                    requires
                        q * d + acc == i * r,
                ;
            }
            acc = acc + r;
        }
        i = i + 1;
    }
    proof {
        assert(q < 10) by (nonlinear_arith)
            requires
                q * d + acc == 10 * r,
                r < d,
                acc >= 0,
        ;
    }
    (q, acc)
}

/// Writes `n` with exactly `k` decimals (rounding halves away from zero).
pub fn fixed_chars(n: Number, k: u32) -> (r: Vec<char>)
    requires
        n.den > 0,
        k <= 3,
    ensures
        r@ == fixed_text(n, k as nat),
{
    let a = magnitude(n.num);
    let d = n.den as u128;
    let ip = a / d;
    let rem0 = a % d;
    let mut f: u128 = 0;
    let mut rem: u128 = rem0;
    let mut j: u32 = 0;
    proof {
        reveal_with_fuel(pow10, 4);
    }
    while j < k
        invariant
            j <= k <= 3,
            d == n.den,
            d > 0,
            rem < d,
            rem0 < d,
            f < pow10(j as nat),
            f * d + rem == rem0 * pow10(j as nat),
            pow10(3) == 1000,
        decreases k - j,
    {
        let (dq, dr) = times_ten_divmod(rem, d);
        proof {
            let pj = pow10(j as nat);
            assert(pow10((j + 1) as nat) == 10 * pj);
            assert((f * 10 + dq) * d + dr == rem0 * (10 * pj)) by (nonlinear_arith)
                requires
                    f * d + rem == rem0 * pj,
                    dq * d + dr == 10 * rem,
            ;
            assert(f * 10 + dq < 10 * pj) by (nonlinear_arith)
                requires
                    f < pj,
                    dq < 10,
            ;
            lemma_pow10_mono((j + 1) as nat, 3);
        }
        f = f * 10 + dq;
        rem = dr;
        j = j + 1;
    }
    let ghost p = pow10(k as nat);
    proof {
        lemma_pow10_pos(k as nat);
        vstd::arithmetic::div_mod::lemma_fundamental_div_mod_converse(
            (rem0 * p) as int,
            d as int,
            f as int,
            rem as int,
        );
    }
    let up: u128 = if rem >= d - rem {
        1
    } else {
        0
    };
    let g = f + up;
    let pk = pow10_u(k);
    let (ip2, g2) = if g == pk {
        (ip + 1, 0)
    } else {
        (ip, g)
    };
    proof {
        let q = scaled_round(n, k as nat);
        assert(q == ip * p + f + up);
        assert(g <= p);
        if g == p {
            assert(q == (ip + 1) * p) by (nonlinear_arith)
                requires
                    q == ip * p + f + up,
                    g == f + up,
                    g == p,
            ;
        }
        vstd::arithmetic::div_mod::lemma_fundamental_div_mod_converse(q, p, ip2 as int, g2 as int);
    }
    let mut r: Vec<char> = Vec::new();
    if n.num < 0 {
        r.push('-');
    }
    let mut ds = nat_chars(ip2);
    r.append(&mut ds);
    if k > 0 {
        r.push('.');
        let mut fr = padded_chars(g2, k);
        r.append(&mut fr);
    }
    proof {
        assert(r@ =~= fixed_text(n, k as nat));
    }
    r
}

/// `10^k` for `k <= 3`.
fn pow10_u(k: u32) -> (r: u128)
    requires
        k <= 3,
    ensures
        r == pow10(k as nat),
{
    proof {
        reveal_with_fuel(pow10, 4);
    }
    if k == 0 {
        1
    } else if k == 1 {
        10
    } else if k == 2 {
        100
    } else {
        1000
    }
}

/// How Rust's integer `FromStr` reads `s`: an optional `+` (or `-` when
/// `signed`), then one or more ASCII digits and nothing else.
pub open spec fn int_reading(s: Seq<char>, signed: bool) -> Option<int> {
    let b: int = if s.len() > 0 && (s[0] == '+' || (signed && s[0] == '-')) {
        1
    } else {
        0
    };
    let d = s.subrange(b, s.len() as int);
    if d.len() > 0 && all_digits(d) {
        Some(
            if b == 1 && s[0] == '-' {
                -digits_value(d)
            } else {
                digits_value(d)
            },
        )
    } else {
        None
    }
}

/// `s.parse()` into an integer type with range `lo..=hi`.
pub open spec fn int_parse(s: Seq<char>, signed: bool, lo: int, hi: int) -> Option<int> {
    match int_reading(s, signed) {
        Some(v) => if lo <= v <= hi {
            Some(v)
        } else {
            None
        },
        None => None,
    }
}

proof fn lemma_digits_prefix(d: Seq<char>, k: int)
    requires
        0 <= k < d.len(),
    ensures
        d.subrange(0, k + 1).drop_last() =~= d.subrange(0, k),
        d.subrange(0, k + 1).last() == d[k],
{
}

fn read_int(s: &[char], signed: bool, lo: i128, hi: i128) -> (r: Option<i128>)
    requires
        -0x1_0000_0000_0000_0000 <= lo <= 0 < hi <= 0x1_0000_0000_0000_0000,
    ensures
        match r {
            Some(v) => int_parse(s@, signed, lo as int, hi as int) == Some(v as int),
            None => int_parse(s@, signed, lo as int, hi as int) is None,
        },
{
    let n = s.len();
    let b: usize = if n > 0 && (s[0] == '+' || (signed && s[0] == '-')) {
        1
    } else {
        0
    };
    let neg = b == 1 && s[0] == '-';
    let ghost d = s@.subrange(b as int, n as int);
    if b >= n {
        return None;
    }
    let cap: i128 = if neg {
        -lo
    } else {
        hi
    };
    let mut acc: i128 = 0;
    let mut k: usize = b;
    while k < n
        invariant
            n == s@.len(),
            b as int == (if s@.len() > 0 && (s@[0] == '+' || (signed && s@[0] == '-')) {
                1int
            } else {
                0int
            }),
            neg == (b == 1 && s@[0] == '-'),
            cap == (if neg {
                -lo
            } else {
                hi as int
            }),
            -0x1_0000_0000_0000_0000 <= lo <= 0 < hi <= 0x1_0000_0000_0000_0000,
            b <= k <= n,
            d == s@.subrange(b as int, n as int),
            0 <= acc <= cap <= 0x1_0000_0000_0000_0000,
            all_digits(d.subrange(0, k - b)),
            acc == digits_value(d.subrange(0, k - b)),
        decreases n - k,
    {
        let c = s[k];
        if !('0' <= c && c <= '9') {
            proof {
                assert(d[k - b] == c);
                assert(!is_digit(d[k - b]));
                assert(!all_digits(d));
                assert(int_reading(s@, signed) is None);
            }
            return None;
        }
        let dig = (c as u32 - '0' as u32) as i128;
        proof {
            lemma_digits_prefix(d, k - b);
            assert(is_digit(d[k - b]));
        }
        let next = acc * 10 + dig;
        if next > cap {
            proof {
                let pre = d.subrange(0, k - b + 1);
                assert(all_digits(pre));
                assert(digits_value(pre) == next);
                if all_digits(d) {
                    let rest = d.subrange(k - b + 1, d.len() as int);
                    assert(pre + rest =~= d);
                    lemma_digits_value_grows(pre, rest);
                    assert(digits_value(d) > cap);
                    assert(int_reading(s@, signed) == Some(if neg { -digits_value(d) } else { digits_value(d) }));
                }
            }
            return None;
        }
        acc = next;
        k = k + 1;
        proof {
            assert(all_digits(d.subrange(0, k - b)));
        }
    }
    proof {
        assert(d.subrange(0, n - b) =~= d);
    }
    if neg {
        Some(-acc)
    } else {
        Some(acc)
    }
}

/// `s.parse::<i32>()`.
pub fn parse_i32(s: &[char]) -> (r: Option<i32>)
    ensures
        match r {
            Some(v) => int_parse(s@, true, i32::MIN as int, i32::MAX as int) == Some(v as int),
            None => int_parse(s@, true, i32::MIN as int, i32::MAX as int) is None,
        },
{
    match read_int(s, true, i32::MIN as i128, i32::MAX as i128) {
        Some(v) => Some(v as i32),
        None => None,
    }
}

/// `s.parse::<u32>()`.
pub fn parse_u32(s: &[char]) -> (r: Option<u32>)
    ensures
        match r {
            Some(v) => int_parse(s@, false, 0, u32::MAX as int) == Some(v as int),
            None => int_parse(s@, false, 0, u32::MAX as int) is None,
        },
{
    match read_int(s, false, 0, u32::MAX as i128) {
        Some(v) => Some(v as u32),
        None => None,
    }
}

/// `s.parse::<usize>()`.
pub fn parse_usize(s: &[char]) -> (r: Option<usize>)
    ensures
        match r {
            Some(v) => int_parse(s@, false, 0, usize::MAX as int) == Some(v as int),
            None => int_parse(s@, false, 0, usize::MAX as int) is None,
        },
{
    match read_int(s, false, 0, usize::MAX as i128) {
        Some(v) => Some(v as usize),
        None => None,
    }
}

pub proof fn lemma_digit_char(d: int)
    requires
        0 <= d < 10,
    ensures
        is_digit(digit_char(d)),
        digit_of(digit_char(d)) == d,
{
}

proof fn lemma_digits_concat(a: Seq<char>, b: Seq<char>)
    ensures
        digits_value(a + b) == digits_value(a) * pow10(b.len()) + digits_value(b),
    decreases b.len(),
{
    if b.len() == 0 {
        assert(a + b =~= a);
    } else {
        lemma_digits_concat(a, b.drop_last());
        assert((a + b).drop_last() =~= a + b.drop_last());
        assert((a + b).last() == b.last());
        let x = digits_value(a);
        let p = pow10((b.len() - 1) as nat);
        let y = digits_value(b.drop_last());
        assert((x * p + y) * 10 + digit_of(b.last()) == x * (10 * p) + (y * 10 + digit_of(b.last())))
            by (nonlinear_arith);
    }
}

pub proof fn lemma_nat_text(v: nat)
    ensures
        all_digits(nat_text(v)),
        nat_text(v).len() >= 1,
        digits_value(nat_text(v)) == v,
    decreases v,
{
    if v < 10 {
        lemma_digit_char(v as int);
        let t = seq![digit_char(v as int)];
        assert(t.drop_last() =~= Seq::<char>::empty());
        assert(t.last() == digit_char(v as int));
        assert(digits_value(t.drop_last()) == 0);
        assert(digits_value(t) == digits_value(t.drop_last()) * 10 + digit_of(t.last()));
    } else {
        lemma_nat_text(v / 10);
        lemma_digit_char((v % 10) as int);
        let t = nat_text(v);
        assert(t.drop_last() =~= nat_text(v / 10));
        assert(t.last() == digit_char((v % 10) as int));
        assert(digits_value(t) == digits_value(nat_text(v / 10)) * 10 + digit_of(t.last()));
        assert(v == (v / 10) * 10 + v % 10);
        assert forall|i: int| 0 <= i < t.len() implies #[trigger] is_digit(t[i]) by {
            if i < t.len() - 1 {
                assert(t[i] == nat_text(v / 10)[i]);
            }
        }
    }
}

pub proof fn lemma_padded(v: nat, k: nat)
    ensures
        padded(v, k).len() == k,
        all_digits(padded(v, k)),
        digits_value(padded(v, k)) == (v as int) % pow10(k),
    decreases k,
{
    if k > 0 {
        lemma_padded(v / 10, (k - 1) as nat);
        lemma_digit_char((v % 10) as int);
        let t = padded(v, k);
        assert(t.drop_last() =~= padded(v / 10, (k - 1) as nat));
        assert forall|i: int| 0 <= i < t.len() implies #[trigger] is_digit(t[i]) by {
            if i < t.len() - 1 {
                assert(t[i] == padded(v / 10, (k - 1) as nat)[i]);
            }
        }
        let p = pow10((k - 1) as nat);
        lemma_pow10_pos((k - 1) as nat);
        let vi = v as int;
        vstd::arithmetic::div_mod::lemma_mod_breakdown(vi, 10, p);
        assert(10 * p == pow10(k));
    }
}

/// `span_digits` over a run of digits stops right after it.
proof fn lemma_span_over(s: Seq<char>, k: int, n: int)
    requires
        0 <= k,
        k + n <= s.len(),
        n >= 0,
        forall|i: int| k <= i < k + n ==> #[trigger] is_digit(s[i]),
        k + n == s.len() || !is_digit(s[k + n]),
    ensures
        span_digits(s, k) == k + n,
    decreases n,
{
    if n > 0 {
        lemma_span_over(s, k + 1, n - 1);
    }
}

/// The value `fixed_text(n, k)` shows, as a reader gives it back.
pub open spec fn shown(n: Number, k: nat) -> Number {
    if scaled_round(n, k) == 0 {
        Number { num: 0, den: 1 }
    } else {
        Number {
            num: (if n.num < 0 { -scaled_round(n, k) } else { scaled_round(n, k) }) as i128,
            den: pow10(k) as i128,
        }
    }
}

/// Characters a written decimal is made of.
pub open spec fn numeral_char(c: char) -> bool {
    is_digit(c) || c == '-' || c == '.'
}

/// A decimal written with `k >= 1` decimals is not empty, is made of digits,
/// a sign and a point, and ends in a digit.
pub proof fn lemma_fixed_text_shape(n: Number, k: nat)
    requires
        k >= 1,
        n.den > 0,
    ensures
        fixed_text(n, k).len() > 0,
        forall|i: int| 0 <= i < fixed_text(n, k).len() ==> numeral_char(#[trigger] fixed_text(n, k)[i]),
        is_digit(fixed_text(n, k).last()),
{
    let q = scaled_round(n, k);
    let p = pow10(k);
    lemma_pow10_pos(k);
    let sg: Seq<char> = if n.num < 0 { seq!['-'] } else { seq![] };
    let ia = nat_text((q / p) as nat);
    let fb = padded((q % p) as nat, k);
    let s = fixed_text(n, k);
    assert(s =~= sg + ia + (seq!['.'] + fb));
    lemma_nat_text((q / p) as nat);
    lemma_padded((q % p) as nat, k);
    assert forall|i: int| 0 <= i < s.len() implies numeral_char(#[trigger] s[i]) by {
        if i < sg.len() {
        } else if i < sg.len() + ia.len() {
            assert(s[i] == ia[i - sg.len()]);
        } else if i == sg.len() + ia.len() {
        } else {
            assert(s[i] == fb[i - sg.len() - ia.len() - 1]);
        }
    }
    assert(s.last() == fb.last());
}

/// A decimal written with `k` decimals (`k` from 1 to 18) reads back as
/// the rounded value it shows.
pub proof fn law_fixed_text_reads_back(n: Number, k: nat)
    requires
        1 <= k <= 18,
        n.den > 0,
        scaled_round(n, k) < pow10(17),
    ensures
        parse_spec(fixed_text(n, k)) == Parsed::Finite(shown(n, k)),
{
    let q = scaled_round(n, k);
    let p = pow10(k);
    lemma_pow10_pos(k);
    let a = abs(n.num as int);
    let d = n.den as int;
    let t0 = (a % d) * p;
    assert(a / d >= 0 && t0 >= 0 && t0 / d >= 0) by (nonlinear_arith)
        requires
            a >= 0,
            d > 0,
            p >= 1,
            t0 == (a % d) * p,
    ;
    assert(q >= 0) by (nonlinear_arith)
        requires
            q == (a / d) * p + t0 / d + (if 2 * (t0 % d) >= d { 1int } else { 0 }),
            a / d >= 0,
            t0 / d >= 0,
            p >= 1,
    ;
    let sg: Seq<char> = if n.num < 0 { seq!['-'] } else { seq![] };
    let ia = nat_text((q / p) as nat);
    let fb = padded((q % p) as nat, k);
    let s = fixed_text(n, k);
    assert(s =~= sg + ia + (seq!['.'] + fb));
    lemma_nat_text((q / p) as nat);
    lemma_padded((q % p) as nat, k);
    let b = sign_len(s, 0);
    assert(b == sg.len()) by {
        if n.num >= 0 {
            assert(s[0] == ia[0]);
            assert(is_digit(ia[0]));
        }
    }
    let i1 = b + ia.len();
    assert forall|i: int| b <= i < i1 implies #[trigger] is_digit(s[i]) by {
        assert(s[i] == ia[i - b]);
    }
    assert(s[i1] == '.');
    lemma_span_over(s, b, ia.len() as int);
    let fs = i1 + 1;
    assert forall|i: int| fs <= i < fs + k implies #[trigger] is_digit(s[i]) by {
        assert(s[i] == fb[i - fs]);
    }
    assert(fs + k == s.len());
    lemma_span_over(s, fs, k as int);
    assert(s.subrange(b, i1) =~= ia);
    assert(s.subrange(fs, fs + k) =~= fb);
    lemma_digits_concat(ia, fb);
    assert((q / p) * p + q % p == q) by (nonlinear_arith)
        requires
            p >= 1,
    ;
    let r = q % p;
    assert(0 <= r < p);
    assert(r % p == r) by (nonlinear_arith)
        requires
            0 <= r < p,
    ;
    assert(((q % p) as nat as int) % p == q % p);
    assert(digits_value(ia) == q / p);
    assert(digits_value(fb) == q % p);
    assert(fb.len() == k);
    assert(digits_value(ia + fb) == (q / p) * p + q % p);
    assert(digits_value(ia + fb) == q);
    let w = s.subrange(b, s.len() as int);
    assert(w[0] == ia[0]);
    assert(!is_nonfinite_word(w)) by {
        let l = w.map_values(|c: char| lower_ascii(c));
        assert(l[0] == lower_ascii(ia[0]));
        assert(is_digit(ia[0]));
    }
    assert(sign_at(s, 0) == (if n.num < 0 { -1int } else { 1 }));
    lemma_pow_facts();
    lemma_pow10_mono(k, 18);
}



/// The void texts of a written GEF file show their void values.
pub proof fn lemma_void_texts()
    ensures
        fixed_text(Number { num: 999999, den: 1000 }, 3) == "999.999"@,
        fixed_text(Number { num: 9999, den: 1000 }, 3) == "9.999"@,
        fixed_text(Number { num: 9999, den: 10 }, 1) == "999.9"@,
        scaled_round(Number { num: 999999, den: 1000 }, 3) == 999999,
        scaled_round(Number { num: 9999, den: 1000 }, 3) == 9999,
        scaled_round(Number { num: 9999, den: 10 }, 1) == 9999,
        pow10(3) == 1000,
        pow10(1) == 10,
{
    reveal_strlit("999.999");
    reveal_strlit("9.999");
    reveal_strlit("999.9");
    lemma_pow_facts();
    assert(pow10(3) == 1000) by {
        reveal_with_fuel(pow10, 4);
    }
    assert(pow10(1) == 10) by {
        reveal_with_fuel(pow10, 2);
    }
    assert(nat_text(9) == seq!['9']);
    assert(nat_text(99) == seq!['9', '9']);
    assert(nat_text(999) == seq!['9', '9', '9']);
    assert(padded(999, 0) == Seq::<char>::empty());
    assert(padded(0, 0) == Seq::<char>::empty());
    assert(padded(9, 1) == seq!['9']);
    assert(padded(99, 2) == seq!['9', '9']);
    assert(padded(999, 3) == seq!['9', '9', '9']);
    assert(scaled_round(Number { num: 999999, den: 1000 }, 3) == 999999);
    assert(fixed_text(Number { num: 999999, den: 1000 }, 3) =~= "999.999"@);
    assert(scaled_round(Number { num: 9999, den: 1000 }, 3) == 9999);
    assert(fixed_text(Number { num: 9999, den: 1000 }, 3) =~= "9.999"@);
    assert(scaled_round(Number { num: 9999, den: 10 }, 1) == 9999);
    assert(fixed_text(Number { num: 9999, den: 10 }, 1) =~= "999.9"@);
}

} // verus!
