//! Character-sequence helpers shared by the parsers and writers.

use vstd::prelude::*;

verus! {

/// The characters that `char::is_whitespace` accepts (Unicode `White_Space`).
pub open spec fn is_ws(c: char) -> bool {
    ||| c == ' '
    ||| ('\t' <= c && c <= '\r')
    ||| c == '\u{85}'
    ||| c == '\u{a0}'
    ||| c == '\u{1680}'
    ||| ('\u{2000}' <= c && c <= '\u{200a}')
    ||| c == '\u{2028}'
    ||| c == '\u{2029}'
    ||| c == '\u{202f}'
    ||| c == '\u{205f}'
    ||| c == '\u{3000}'
}

pub fn is_whitespace(c: char) -> (r: bool)
    ensures
        r == is_ws(c),
{
    c == ' ' || ('\t' <= c && c <= '\r') || c == '\u{85}' || c == '\u{a0}' || c == '\u{1680}'
        || ('\u{2000}' <= c && c <= '\u{200a}') || c == '\u{2028}' || c == '\u{2029}' || c
        == '\u{202f}' || c == '\u{205f}' || c == '\u{3000}'
}

/// The characters of a string slice, in order.
pub fn chars_of(s: &str) -> (v: Vec<char>)
    ensures
        v@ == s@,
{
    broadcast use vstd::string::group_string_axioms;

    let mut v: Vec<char> = Vec::new();
    for c in iter: s.chars()
        invariant
            v@ == iter.seq().take(iter.index()),
            iter.seq() == s@,
    {
        v.push(c);
    }
    v
}

} // verus!

verus! {

/// Calls `Iterator::collect` on the characters into a `String`, which holds
/// them in order.
#[verifier::external_body]
pub(crate) fn string_of(v: &[char]) -> (s: String)
    ensures
        s@ == v@,
{
    v.iter().collect()
}

/// First index at or after `k` holding `c`, or the length.
pub open spec fn find_char(s: Seq<char>, c: char, k: int) -> int
    decreases s.len() - k,
{
    if k < 0 || k >= s.len() {
        s.len() as int
    } else if s[k] == c {
        k
    } else {
        find_char(s, c, k + 1)
    }
}

/// The pieces of `s[k..]` between occurrences of `c` (like `str::split`).
pub open spec fn pieces(s: Seq<char>, c: char, k: int) -> Seq<Seq<char>>
    decreases s.len() - k,
{
    let j = find_char(s, c, k);
    if k < 0 || k > s.len() || j >= s.len() {
        seq![s.subrange(k, s.len() as int)]
    } else {
        proof {
            lemma_find_char_bounds(s, c, k);
        }
        seq![s.subrange(k, j)] + pieces(s, c, j + 1)
    }
}

pub open spec fn split_on(s: Seq<char>, c: char) -> Seq<Seq<char>> {
    pieces(s, c, 0)
}

pub proof fn lemma_find_char_bounds(s: Seq<char>, c: char, k: int)
    requires
        0 <= k <= s.len(),
    ensures
        k <= find_char(s, c, k) <= s.len(),
        find_char(s, c, k) < s.len() ==> s[find_char(s, c, k)] == c,
        forall|i: int| k <= i < find_char(s, c, k) ==> s[i] != c,
    decreases s.len() - k,
{
    if k < s.len() && s[k] != c {
        lemma_find_char_bounds(s, c, k + 1);
    }
}

/// Index of the first `c` at or after `k`.
pub fn find_char_exec(s: &[char], c: char, k: usize) -> (r: usize)
    requires
        k <= s@.len(),
    ensures
        r == find_char(s@, c, k as int),
        k <= r <= s@.len(),
        r < s@.len() ==> s@[r as int] == c,
        forall|i: int| k <= i < r ==> s@[i] != c,
{
    proof {
        lemma_find_char_bounds(s@, c, k as int);
    }
    let mut j = k;
    while j < s.len() && s[j] != c
        invariant
            k <= j <= s@.len(),
            find_char(s@, c, k as int) == find_char(s@, c, j as int),
            forall|i: int| k <= i < j ==> s@[i] != c,
        decreases s@.len() - j,
    {
        j = j + 1;
    }
    j
}

pub open spec fn views(v: Seq<Vec<char>>) -> Seq<Seq<char>> {
    v.map_values(|x: Vec<char>| x@)
}

/// Copies `s[a..b]`.
pub fn slice_vec(s: &[char], a: usize, b: usize) -> (r: Vec<char>)
    requires
        a <= b <= s@.len(),
    ensures
        r@ == s@.subrange(a as int, b as int),
{
    let mut r: Vec<char> = Vec::new();
    let mut i = a;
    while i < b
        invariant
            a <= i <= b <= s@.len(),
            r@ == s@.subrange(a as int, i as int),
        decreases b - i,
    {
        r.push(s[i]);
        i = i + 1;
        proof {
            assert(r@ =~= s@.subrange(a as int, i as int));
        }
    }
    r
}

/// `s` split at every `c`, like `str::split(c)`.
pub fn split_chars(s: &[char], c: char) -> (r: Vec<Vec<char>>)
    ensures
        views(r@) == split_on(s@, c),
{
    let mut out: Vec<Vec<char>> = Vec::new();
    let mut start: usize = 0;
    loop
        invariant
            start <= s@.len(),
            views(out@) + pieces(s@, c, start as int) == split_on(s@, c),
        decreases s@.len() - start,
    {
        let j = find_char_exec(s, c, start);
        let piece = slice_vec(s, start, j);
        if j >= s.len() {
            proof {
                assert(pieces(s@, c, start as int) == seq![s@.subrange(start as int, s@.len() as int)]);
            }
            let ghost before = views(out@);
            out.push(piece);
            proof {
                assert(views(out@) =~= before.push(piece@));
                assert(before + pieces(s@, c, start as int) =~= views(out@));
            }
            return out;
        }
        proof {
            assert(pieces(s@, c, start as int) == seq![s@.subrange(start as int, j as int)]
                + pieces(s@, c, j + 1));
        }
        let ghost before = views(out@);
        out.push(piece);
        proof {
            assert(views(out@) =~= before.push(piece@));
            assert(before + pieces(s@, c, start as int) =~= views(out@) + pieces(s@, c, j + 1));
        }
        start = j + 1;
    }
}

} // verus!

verus! {

/// First index at or after `k` that is not whitespace.
pub open spec fn skip_ws(s: Seq<char>, k: int) -> int
    decreases s.len() - k,
{
    if k < 0 || k >= s.len() || !is_ws(s[k]) {
        k
    } else {
        skip_ws(s, k + 1)
    }
}

/// First index at or after `k` that is whitespace.
pub open spec fn span_non_ws(s: Seq<char>, k: int) -> int
    decreases s.len() - k,
{
    if k < 0 || k >= s.len() || is_ws(s[k]) {
        k
    } else {
        span_non_ws(s, k + 1)
    }
}

pub proof fn lemma_skip_ws(s: Seq<char>, k: int)
    requires
        0 <= k <= s.len(),
    ensures
        k <= skip_ws(s, k) <= s.len(),
        skip_ws(s, k) < s.len() ==> !is_ws(s[skip_ws(s, k)]),
        forall|i: int| k <= i < skip_ws(s, k) ==> is_ws(s[i]),
    decreases s.len() - k,
{
    if k < s.len() && is_ws(s[k]) {
        lemma_skip_ws(s, k + 1);
    }
}

pub proof fn lemma_span_non_ws(s: Seq<char>, k: int)
    requires
        0 <= k <= s.len(),
    ensures
        k <= span_non_ws(s, k) <= s.len(),
        span_non_ws(s, k) < s.len() ==> is_ws(s[span_non_ws(s, k)]),
        forall|i: int| k <= i < span_non_ws(s, k) ==> !is_ws(s[i]),
    decreases s.len() - k,
{
    if k < s.len() && !is_ws(s[k]) {
        lemma_span_non_ws(s, k + 1);
    }
}

/// Whitespace-separated tokens of `s[k..]` (like `str::split_whitespace`).
pub open spec fn ws_tokens(s: Seq<char>, k: int) -> Seq<Seq<char>>
    decreases s.len() - k,
{
    let a = skip_ws(s, k);
    if k < 0 || k > s.len() || a >= s.len() {
        seq![]
    } else {
        proof {
            lemma_skip_ws(s, k);
            lemma_span_non_ws(s, a);
        }
        let b = span_non_ws(s, a);
        seq![s.subrange(a, b)] + ws_tokens(s, b)
    }
}

pub open spec fn split_ws(s: Seq<char>) -> Seq<Seq<char>> {
    ws_tokens(s, 0)
}

/// End of `s[..k]` with trailing whitespace removed.
pub open spec fn trim_end_at(s: Seq<char>, k: int) -> int
    decreases k,
{
    if k <= 0 || k > s.len() || !is_ws(s[k - 1]) {
        k
    } else {
        trim_end_at(s, k - 1)
    }
}

/// `s` without leading and trailing whitespace (like `str::trim`).
pub open spec fn trim(s: Seq<char>) -> Seq<char> {
    let a = skip_ws(s, 0);
    let b = trim_end_at(s, s.len() as int);
    if b <= a {
        seq![]
    } else {
        s.subrange(a, b)
    }
}

/// `s` without leading whitespace (like `str::trim_start`).
pub open spec fn trim_start(s: Seq<char>) -> Seq<char> {
    s.subrange(skip_ws(s, 0), s.len() as int)
}

pub open spec fn starts_with(s: Seq<char>, p: Seq<char>) -> bool {
    p.len() <= s.len() && s.take(p.len() as int) == p
}

pub fn skip_ws_exec(s: &[char], k: usize) -> (r: usize)
    requires
        k <= s@.len(),
    ensures
        r == skip_ws(s@, k as int),
        k <= r <= s@.len(),
{
    proof {
        lemma_skip_ws(s@, k as int);
    }
    let mut j = k;
    while j < s.len() && is_whitespace(s[j])
        invariant
            k <= j <= s@.len(),
            skip_ws(s@, k as int) == skip_ws(s@, j as int),
        decreases s@.len() - j,
    {
        j = j + 1;
    }
    j
}

pub fn span_non_ws_exec(s: &[char], k: usize) -> (r: usize)
    requires
        k <= s@.len(),
    ensures
        r == span_non_ws(s@, k as int),
        k <= r <= s@.len(),
{
    proof {
        lemma_span_non_ws(s@, k as int);
    }
    let mut j = k;
    while j < s.len() && !is_whitespace(s[j])
        invariant
            k <= j <= s@.len(),
            span_non_ws(s@, k as int) == span_non_ws(s@, j as int),
        decreases s@.len() - j,
    {
        j = j + 1;
    }
    j
}

/// Whitespace-separated tokens, like `str::split_whitespace`.
pub fn split_ws_chars(s: &[char]) -> (r: Vec<Vec<char>>)
    ensures
        views(r@) == split_ws(s@),
{
    let mut out: Vec<Vec<char>> = Vec::new();
    let mut k: usize = 0;
    loop
        invariant
            k <= s@.len(),
            views(out@) + ws_tokens(s@, k as int) == split_ws(s@),
        decreases s@.len() - k,
    {
        let a = skip_ws_exec(s, k);
        if a >= s.len() {
            proof {
                assert(ws_tokens(s@, k as int) == Seq::<Seq<char>>::empty());
                assert(views(out@) + Seq::<Seq<char>>::empty() =~= views(out@));
            }
            return out;
        }
        let b = span_non_ws_exec(s, a);
        proof {
            lemma_skip_ws(s@, k as int);
            lemma_span_non_ws(s@, a as int);
            if !is_ws(s@[a as int]) {
                assert(b > a);
            }
            assert(ws_tokens(s@, k as int) == seq![s@.subrange(a as int, b as int)] + ws_tokens(
                s@,
                b as int,
            ));
        }
        let tok = slice_vec(s, a, b);
        let ghost before = views(out@);
        out.push(tok);
        proof {
            assert(views(out@) =~= before.push(tok@));
            assert(before + ws_tokens(s@, k as int) =~= views(out@) + ws_tokens(s@, b as int));
        }
        k = b;
    }
}

proof fn lemma_trim_end_at(s: Seq<char>, k: int)
    requires
        0 <= k <= s.len(),
    ensures
        0 <= trim_end_at(s, k) <= k,
        trim_end_at(s, k) > 0 ==> !is_ws(s[trim_end_at(s, k) - 1]),
    decreases k,
{
    if k > 0 && is_ws(s[k - 1]) {
        lemma_trim_end_at(s, k - 1);
    }
}

/// `s` without surrounding whitespace, like `str::trim`.
pub fn trim_chars(s: &[char]) -> (r: Vec<char>)
    ensures
        r@ == trim(s@),
{
    let a = skip_ws_exec(s, 0);
    let mut b = s.len();
    proof {
        lemma_trim_end_at(s@, s@.len() as int);
    }
    while b > 0 && is_whitespace(s[b - 1])
        invariant
            b <= s@.len(),
            trim_end_at(s@, s@.len() as int) == trim_end_at(s@, b as int),
        decreases b,
    {
        b = b - 1;
    }
    if b <= a {
        Vec::new()
    } else {
        slice_vec(s, a, b)
    }
}

/// `s` without leading whitespace, like `str::trim_start`.
pub fn trim_start_chars(s: &[char]) -> (r: Vec<char>)
    ensures
        r@ == trim_start(s@),
{
    let a = skip_ws_exec(s, 0);
    slice_vec(s, a, s.len())
}

pub fn starts_with_chars(s: &[char], p: &[char]) -> (r: bool)
    ensures
        r == starts_with(s@, p@),
{
    if p.len() > s.len() {
        return false;
    }
    let mut i: usize = 0;
    while i < p.len()
        invariant
            p@.len() <= s@.len(),
            i <= p@.len(),
            forall|t: int| 0 <= t < i ==> s@[t] == p@[t],
        decreases p@.len() - i,
    {
        if s[i] != p[i] {
            proof {
                assert(s@.take(p@.len() as int)[i as int] != p@[i as int]);
            }
            return false;
        }
        i = i + 1;
    }
    proof {
        assert(s@.take(p@.len() as int) =~= p@);
    }
    true
}

pub fn eq_chars(a: &[char], b: &[char]) -> (r: bool)
    ensures
        r == (a@ == b@),
{
    if a.len() != b.len() {
        return false;
    }
    let ok = starts_with_chars(a, b);
    proof {
        assert(a@.take(b@.len() as int) =~= a@);
        if a@ == b@ {
            assert(starts_with(a@, b@));
        }
    }
    ok
}

/// `s` with every `"\r\n"` and then every remaining `'\r'` turned into `'\n'`.
pub open spec fn normalize_newlines(s: Seq<char>) -> Seq<char>
    decreases s.len(),
{
    if s.len() == 0 {
        seq![]
    } else if s[0] == '\r' && s.len() > 1 && s[1] == '\n' {
        seq!['\n'] + normalize_newlines(s.subrange(2, s.len() as int))
    } else if s[0] == '\r' {
        seq!['\n'] + normalize_newlines(s.subrange(1, s.len() as int))
    } else {
        seq![s[0]] + normalize_newlines(s.subrange(1, s.len() as int))
    }
}

pub fn normalize_newlines_chars(s: &[char]) -> (r: Vec<char>)
    ensures
        r@ == normalize_newlines(s@),
{
    let mut r: Vec<char> = Vec::new();
    let mut i: usize = 0;
    proof {
        assert(s@.subrange(0, s@.len() as int) =~= s@);
        assert(r@ + normalize_newlines(s@) =~= normalize_newlines(s@));
    }
    while i < s.len()
        invariant
            i <= s@.len(),
            r@ + normalize_newlines(s@.subrange(i as int, s@.len() as int)) == normalize_newlines(
                s@,
            ),
        decreases s@.len() - i,
    {
        let ghost rest = s@.subrange(i as int, s@.len() as int);
        if s[i] == '\r' && i + 1 < s.len() && s[i + 1] == '\n' {
            proof {
                assert(rest.subrange(2, rest.len() as int) =~= s@.subrange(i + 2, s@.len() as int));
                assert(r@.push('\n') + normalize_newlines(s@.subrange(i + 2, s@.len() as int))
                    =~= r@ + normalize_newlines(rest));
            }
            r.push('\n');
            i = i + 2;
        } else {
            let c = if s[i] == '\r' {
                '\n'
            } else {
                s[i]
            };
            proof {
                assert(rest.subrange(1, rest.len() as int) =~= s@.subrange(i + 1, s@.len() as int));
                assert(r@.push(c) + normalize_newlines(s@.subrange(i + 1, s@.len() as int))
                    =~= r@ + normalize_newlines(rest));
            }
            r.push(c);
            i = i + 1;
        }
    }
    proof {
        assert(s@.subrange(s@.len() as int, s@.len() as int) =~= Seq::<char>::empty());
        assert(r@ + Seq::<char>::empty() =~= r@);
    }
    r
}

/// The lines of `s` split at `'\n'`, a final empty line dropped (what
/// `str::lines` gives for text without `'\r'`).
pub open spec fn lines_of(s: Seq<char>) -> Seq<Seq<char>> {
    let p = split_on(s, '\n');
    if p.len() > 0 && p.last().len() == 0 {
        p.drop_last()
    } else {
        p
    }
}

pub fn lines_chars(s: &[char]) -> (r: Vec<Vec<char>>)
    ensures
        views(r@) == lines_of(s@),
{
    let mut p = split_chars(s, '\n');
    let n = p.len();
    if n > 0 && p[n - 1].len() == 0 {
        let ghost before = views(p@);
        p.pop();
        proof {
            assert(views(p@) =~= before.drop_last());
        }
    }
    p
}

/// The lines joined with `sep` between them.
pub open spec fn join(ls: Seq<Seq<char>>, sep: char) -> Seq<char>
    decreases ls.len(),
{
    if ls.len() == 0 {
        seq![]
    } else if ls.len() == 1 {
        ls[0]
    } else {
        join(ls.drop_last(), sep).push(sep) + ls.last()
    }
}

/// `ls[a..]` joined with `sep`, like `[&str]::join`.
pub fn join_from(ls: &Vec<Vec<char>>, a: usize, sep: char) -> (r: Vec<char>)
    requires
        a <= ls@.len(),
    ensures
        r@ == join(views(ls@).subrange(a as int, ls@.len() as int), sep),
{
    let mut r: Vec<char> = Vec::new();
    let mut i = a;
    while i < ls.len()
        invariant
            a <= i <= ls@.len(),
            r@ == join(views(ls@).subrange(a as int, i as int), sep),
        decreases ls@.len() - i,
    {
        let ghost prev = views(ls@).subrange(a as int, i as int);
        let ghost next = views(ls@).subrange(a as int, i + 1);
        proof {
            assert(next.drop_last() =~= prev);
            assert(next.last() == ls@[i as int]@);
        }
        if i > a {
            r.push(sep);
        }
        let mut j: usize = 0;
        let ghost base = r@;
        while j < ls[i].len()
            invariant
                i < ls@.len(),
                j <= ls@[i as int]@.len(),
                r@ == base + ls@[i as int]@.subrange(0, j as int),
            decreases ls@[i as int]@.len() - j,
        {
            r.push(ls[i][j]);
            j = j + 1;
            proof {
                assert(r@ =~= base + ls@[i as int]@.subrange(0, j as int));
            }
        }
        proof {
            assert(ls@[i as int]@.subrange(0, j as int) =~= ls@[i as int]@);
            if i == a {
                assert(prev =~= Seq::<Seq<char>>::empty());
                assert(r@ =~= next[0]);
            } else {
                assert(r@ =~= join(prev, sep).push(sep) + next.last());
            }
        }
        i = i + 1;
    }
    r
}

/// Appends the characters of `s`.
pub fn push_str(out: &mut Vec<char>, s: &str)
    ensures
        final(out)@ == old(out)@ + s@,
{
    let c = chars_of(s);
    push_all(out, &c);
}

/// Appends `s`.
pub fn push_all(out: &mut Vec<char>, s: &[char])
    ensures
        final(out)@ == old(out)@ + s@,
{
    let ghost start = out@;
    for i in 0..s.len()
        invariant
            out@ == start + s@.take(i as int),
    {
        out.push(s[i]);
        proof {
            assert(out@ =~= start + s@.take(i + 1));
        }
    }
    proof {
        assert(s@.take(s@.len() as int) =~= s@);
    }
}

pub proof fn lemma_find_char_shift(pre: Seq<char>, s: Seq<char>, c: char, k: int)
    requires
        0 <= k <= s.len(),
    ensures
        find_char(pre + s, c, pre.len() + k) == pre.len() + find_char(s, c, k),
    decreases s.len() - k,
{
    let t = pre + s;
    if k < s.len() {
        assert(t[pre.len() + k] == s[k]);
        if s[k] != c {
            lemma_find_char_shift(pre, s, c, k + 1);
        }
    }
}

pub proof fn lemma_pieces_shift(pre: Seq<char>, s: Seq<char>, c: char, k: int)
    requires
        0 <= k <= s.len(),
    ensures
        pieces(pre + s, c, pre.len() + k) == pieces(s, c, k),
    decreases s.len() - k,
{
    let t = pre + s;
    let p = pre.len() as int;
    lemma_find_char_shift(pre, s, c, k);
    lemma_find_char_bounds(s, c, k);
    let j = find_char(s, c, k);
    if j >= s.len() {
        assert(t.subrange(p + k, t.len() as int) =~= s.subrange(k, s.len() as int));
    } else {
        assert(t.subrange(p + k, p + j) =~= s.subrange(k, j));
        lemma_pieces_shift(pre, s, c, j + 1);
    }
}

/// Splitting at the first separator: the piece before it, then the pieces
/// of what follows.
pub proof fn lemma_split_first(a: Seq<char>, c: char, rest: Seq<char>)
    requires
        forall|i: int| 0 <= i < a.len() ==> #[trigger] a[i] != c,
    ensures
        split_on(a + seq![c] + rest, c) == seq![a] + split_on(rest, c),
{
    let pre = a + seq![c];
    let t = pre + rest;
    assert forall|i: int| 0 <= i < a.len() implies #[trigger] t[i] != c by {
        assert(t[i] == a[i]);
    }
    assert(t[a.len() as int] == c);
    lemma_find_char_upto(t, c, 0, a.len() as int);
    assert(t.subrange(0, a.len() as int) =~= a);
    lemma_pieces_shift(pre, rest, c, 0);
    assert(pre.len() + 0 == a.len() + 1);
}

pub proof fn lemma_find_char_upto(t: Seq<char>, c: char, k: int, j: int)
    requires
        0 <= k <= j < t.len(),
        t[j] == c,
        forall|i: int| k <= i < j ==> #[trigger] t[i] != c,
    ensures
        find_char(t, c, k) == j,
    decreases j - k,
{
    if k < j {
        lemma_find_char_upto(t, c, k + 1, j);
    }
}

/// A text that starts and ends with other characters than whitespace is
/// its own trimmed form.
pub proof fn lemma_trim_plain(s: Seq<char>)
    requires
        s.len() > 0,
        !is_ws(s[0]),
        !is_ws(s.last()),
    ensures
        trim(s) == s,
{
    assert(skip_ws(s, 0) == 0);
    assert(trim_end_at(s, s.len() as int) == s.len());
    assert(s.subrange(0, s.len() as int) =~= s);
}


/// No character of `s` is `c`.
pub open spec fn lacks(s: Seq<char>, c: char) -> bool {
    forall|i: int| 0 <= i < s.len() ==> #[trigger] s[i] != c
}

/// The lines, each followed by `'\n'`.
pub open spec fn lines_text(ls: Seq<Seq<char>>) -> Seq<char>
    decreases ls.len(),
{
    if ls.len() == 0 {
        seq![]
    } else {
        ls[0] + seq!['\n'] + lines_text(ls.drop_first())
    }
}

pub proof fn lemma_split_empty(c: char)
    ensures
        split_on(Seq::<char>::empty(), c) == seq![Seq::<char>::empty()],
{
    let e = Seq::<char>::empty();
    assert(find_char(e, c, 0) == 0);
    assert(e.subrange(0, 0) =~= e);
}

pub proof fn lemma_lines_text_add(a: Seq<Seq<char>>, b: Seq<Seq<char>>)
    ensures
        lines_text(a + b) == lines_text(a) + lines_text(b),
    decreases a.len(),
{
    if a.len() == 0 {
        assert(a + b =~= b);
        assert(lines_text(a) + lines_text(b) =~= lines_text(b));
    } else {
        assert((a + b).drop_first() =~= a.drop_first() + b);
        lemma_lines_text_add(a.drop_first(), b);
        assert((a + b)[0] == a[0]);
        assert(lines_text(a + b) =~= a[0] + seq!['\n'] + (lines_text(a.drop_first()) + lines_text(b)));
    }
}

proof fn lemma_split_lines_text(ls: Seq<Seq<char>>)
    requires
        forall|i: int| 0 <= i < ls.len() ==> lacks(#[trigger] ls[i], '\n'),
    ensures
        split_on(lines_text(ls), '\n') == ls.push(Seq::<char>::empty()),
    decreases ls.len(),
{
    if ls.len() == 0 {
        lemma_split_empty('\n');
        assert(ls.push(Seq::<char>::empty()) =~= seq![Seq::<char>::empty()]);
    } else {
        let t = ls.drop_first();
        assert forall|i: int| 0 <= i < t.len() implies lacks(#[trigger] t[i], '\n') by {
            assert(t[i] == ls[i + 1]);
        }
        lemma_split_lines_text(t);
        assert(lacks(ls[0], '\n'));
        lemma_split_first(ls[0], '\n', lines_text(t));
        assert(seq![ls[0]] + t.push(Seq::<char>::empty()) =~= ls.push(Seq::<char>::empty()));
    }
}

/// Lines without `'\n'`, each written with a `'\n'` after it, read back
/// as the same lines.
pub proof fn lemma_lines_of_text(ls: Seq<Seq<char>>)
    requires
        forall|i: int| 0 <= i < ls.len() ==> lacks(#[trigger] ls[i], '\n'),
    ensures
        lines_of(lines_text(ls)) == ls,
{
    lemma_split_lines_text(ls);
    assert(ls.push(Seq::<char>::empty()).drop_last() =~= ls);
}

/// Text without `'\r'` is its own normalized form.
pub proof fn lemma_normalize_plain(s: Seq<char>)
    requires
        lacks(s, '\r'),
    ensures
        normalize_newlines(s) == s,
    decreases s.len(),
{
    if s.len() > 0 {
        let t = s.subrange(1, s.len() as int);
        assert(s[0] != '\r');
        assert forall|i: int| 0 <= i < t.len() implies #[trigger] t[i] != '\r' by {
            assert(t[i] == s[i + 1]);
        }
        lemma_normalize_plain(t);
        assert(seq![s[0]] + t =~= s);
    }
}

/// The end of `s[..k]` with trailing whitespace removed is past any
/// earlier character that is not whitespace.
pub proof fn lemma_trim_end_past(s: Seq<char>, k: int, j: int)
    requires
        0 <= j < k <= s.len(),
        !is_ws(s[j]),
    ensures
        j < trim_end_at(s, k) <= k,
    decreases k,
{
    if is_ws(s[k - 1]) {
        lemma_trim_end_past(s, k - 1, j);
    }
}

/// Trimming a text that starts with a non-whitespace prefix keeps the
/// prefix.
pub proof fn lemma_trim_keeps_prefix(p: Seq<char>, v: Seq<char>)
    requires
        p.len() > 0,
        !is_ws(p[0]),
        !is_ws(p.last()),
    ensures
        trim(p + v).len() >= p.len(),
        trim(p + v).subrange(0, p.len() as int) == p,
        trim(p + v) == (p + v).subrange(0, trim(p + v).len() as int),
{
    let t = p + v;
    assert(t[0] == p[0]);
    assert(t[p.len() - 1] == p.last());
    lemma_trim_end_past(t, t.len() as int, p.len() - 1);
    assert(skip_ws(t, 0) == 0);
    assert(t.subrange(0, trim_end_at(t, t.len() as int)).subrange(0, p.len() as int) =~= p);
}

/// A trimmed text after one space trims to itself.
pub proof fn lemma_trim_after_space(v: Seq<char>)
    requires
        trim(v) == v,
    ensures
        trim(seq![' '] + v) == v,
{
    let t = seq![' '] + v;
    if v.len() == 0 {
        assert(skip_ws(t, 1) == 1);
        assert(skip_ws(t, 0) == 1);
        assert(trim_end_at(t, 0) == 0);
        assert(trim_end_at(t, 1) == 0);
    } else {
        lemma_skip_ws(v, 0);
        lemma_trim_end_bound(v, v.len() as int);
        let a = skip_ws(v, 0);
        let b = trim_end_at(v, v.len() as int);
        assert(b > a);
        assert(v.subrange(a, b).len() == v.len());
        assert(a == 0 && b == v.len());
        assert(!is_ws(v[0]));
        assert(!is_ws(v.last())) by {
            if is_ws(v.last()) {
                assert(trim_end_at(v, v.len() as int) == trim_end_at(v, v.len() - 1));
                lemma_trim_end_bound(v, v.len() - 1);
            }
        }
        assert(t[1] == v[0]);
        assert(skip_ws(t, 1) == 1);
        assert(skip_ws(t, 0) == 1);
        assert(t.last() == v.last());
        assert(trim_end_at(t, t.len() as int) == t.len());
        assert(t.subrange(1, t.len() as int) =~= v);
    }
}

proof fn lemma_trim_end_bound(s: Seq<char>, k: int)
    requires
        0 <= k <= s.len(),
    ensures
        trim_end_at(s, k) <= k,
    decreases k,
{
    if k > 0 && is_ws(s[k - 1]) {
        lemma_trim_end_bound(s, k - 1);
    }
}

} // verus!
