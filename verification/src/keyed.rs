//! A string-keyed map kept in ascending key order.
//!
//! Keys are compared character by character (the order `String` has), so
//! iteration yields entries in ascending key order and every key occurs at
//! most once.

use vstd::prelude::*;

use crate::text::{chars_of, eq_chars};

verus! {

/// Index of the first position where `a` and `b` differ (or where one ends),
/// searching from `k`.
pub open spec fn first_diff(a: Seq<char>, b: Seq<char>, k: int) -> int
    decreases a.len() - k,
{
    if k < 0 || k >= a.len() || k >= b.len() || a[k] != b[k] {
        k
    } else {
        first_diff(a, b, k + 1)
    }
}

/// Strict lexicographic order on character sequences (the order of `String`).
pub open spec fn key_lt(a: Seq<char>, b: Seq<char>) -> bool {
    let i = first_diff(a, b, 0);
    if i >= a.len() {
        i < b.len()
    } else if i >= b.len() {
        false
    } else {
        a[i] < b[i]
    }
}

pub proof fn lemma_first_diff(a: Seq<char>, b: Seq<char>, k: int)
    requires
        0 <= k <= a.len(),
        k <= b.len(),
    ensures
        k <= first_diff(a, b, k) <= a.len(),
        first_diff(a, b, k) <= b.len(),
        forall|t: int| k <= t < first_diff(a, b, k) ==> a[t] == b[t],
        first_diff(a, b, k) < a.len() && first_diff(a, b, k) < b.len() ==> a[first_diff(
            a,
            b,
            k,
        )] != b[first_diff(a, b, k)],
        first_diff(a, b, k) == first_diff(b, a, k),
    decreases a.len() - k,
{
    if k < a.len() && k < b.len() && a[k] == b[k] {
        lemma_first_diff(a, b, k + 1);
    }
}

/// Distinct keys are ordered one way or the other, never both.
pub proof fn lemma_key_order(a: Seq<char>, b: Seq<char>)
    ensures
        !(key_lt(a, b) && key_lt(b, a)),
        a != b ==> key_lt(a, b) || key_lt(b, a),
        !key_lt(a, a),
{
    lemma_first_diff(a, b, 0);
    lemma_first_diff(a, a, 0);
    let i = first_diff(a, b, 0);
    if a != b && i >= a.len() && i >= b.len() {
        assert(a =~= b);
    }
    if i < a.len() && i < b.len() {
        assert(a[i] != b[i]);
    }
}

proof fn lemma_first_diff_at(a: Seq<char>, b: Seq<char>, k: int, m: int)
    requires
        0 <= k <= m,
        m <= a.len(),
        m <= b.len(),
        forall|t: int| k <= t < m ==> a[t] == b[t],
        m == a.len() || m == b.len() || a[m] != b[m],
    ensures
        first_diff(a, b, k) == m,
    decreases m - k,
{
    if k < m {
        lemma_first_diff_at(a, b, k + 1, m);
    }
}

/// The key order is transitive.
pub proof fn lemma_key_lt_trans(a: Seq<char>, b: Seq<char>, c: Seq<char>)
    requires
        key_lt(a, b),
        key_lt(b, c),
    ensures
        key_lt(a, c),
{
    lemma_first_diff(a, b, 0);
    lemma_first_diff(b, c, 0);
    let i = first_diff(a, b, 0);
    let j = first_diff(b, c, 0);
    let m = if i < j {
        i
    } else {
        j
    };
    assert forall|t: int| 0 <= t < m implies a[t] == c[t] by {
        assert(a[t] == b[t]);
        assert(b[t] == c[t]);
    }
    if i < j {
        lemma_first_diff_at(a, c, 0, i);
    } else if j < i {
        lemma_first_diff_at(a, c, 0, j);
    } else {
        if i < a.len() {
            assert(a[i] < b[i]);
        }
        lemma_first_diff_at(a, c, 0, i);
    }
}

/// The value stored under `k` in `entries`, if any (first match).
pub open spec fn lookup<V>(entries: Seq<(Seq<char>, V)>, k: Seq<char>) -> Option<V>
    decreases entries.len(),
{
    if entries.len() == 0 {
        None
    } else if entries[0].0 == k {
        Some(entries[0].1)
    } else {
        lookup(entries.drop_first(), k)
    }
}

/// Keys strictly ascending, each following its predecessor.
pub open spec fn ascending<V>(entries: Seq<(Seq<char>, V)>) -> bool {
    &&& forall|i: int| 0 <= i < entries.len() - 1 ==> key_lt(#[trigger] entries[i].0, entries[i + 1].0)
    &&& forall|i: int, j: int| 0 <= i < j < entries.len() ==> #[trigger] entries[i].0 != #[trigger] entries[j].0
}

/// In ascending entries every key orders before each later one.
pub proof fn lemma_ascending_pair<V>(entries: Seq<(Seq<char>, V)>, i: int, j: int)
    requires
        ascending(entries),
        0 <= i < j < entries.len(),
    ensures
        key_lt(entries[i].0, entries[j].0),
    decreases j - i,
{
    if j > i + 1 {
        lemma_ascending_pair(entries, i, j - 1);
        assert(key_lt(entries[j - 1].0, entries[j].0));
        lemma_key_lt_trans(entries[i].0, entries[j - 1].0, entries[j].0);
    } else {
        assert(key_lt(entries[i].0, entries[i + 1].0));
    }
}

pub proof fn lemma_lookup_at<V>(entries: Seq<(Seq<char>, V)>, i: int)
    requires
        0 <= i < entries.len(),
        forall|a: int, b: int| 0 <= a < b < entries.len() ==> #[trigger] entries[a].0 != #[trigger] entries[b].0,
    ensures
        lookup(entries, entries[i].0) == Some(entries[i].1),
    decreases entries.len(),
{
    if i > 0 {
        assert(entries[0].0 != entries[i].0);
        let rest = entries.drop_first();
        assert forall|a: int, b: int| 0 <= a < b < rest.len() implies #[trigger] rest[a].0 != #[trigger] rest[b].0 by {
            assert(rest[a] == entries[a + 1]);
            assert(rest[b] == entries[b + 1]);
        }
        lemma_lookup_at(rest, i - 1);
    }
}

pub proof fn lemma_lookup_absent<V>(entries: Seq<(Seq<char>, V)>, k: Seq<char>)
    requires
        forall|i: int| 0 <= i < entries.len() ==> #[trigger] entries[i].0 != k,
    ensures
        lookup(entries, k) is None,
    decreases entries.len(),
{
    if entries.len() > 0 {
        assert(entries[0].0 != k);
        let rest = entries.drop_first();
        assert forall|i: int| 0 <= i < rest.len() implies #[trigger] rest[i].0 != k by {
            assert(rest[i] == entries[i + 1]);
        }
        lemma_lookup_absent(rest, k);
    }
}

/// `lookup` finds `k` exactly when some entry holds it.
pub proof fn lemma_lookup_some<V>(entries: Seq<(Seq<char>, V)>, k: Seq<char>)
    ensures
        lookup(entries, k) is Some <==> exists|i: int| 0 <= i < entries.len() && #[trigger] entries[i].0 == k,
    decreases entries.len(),
{
    if entries.len() > 0 {
        let rest = entries.drop_first();
        lemma_lookup_some(rest, k);
        if entries[0].0 != k {
            if exists|i: int| 0 <= i < entries.len() && #[trigger] entries[i].0 == k {
                let i = choose|i: int| 0 <= i < entries.len() && #[trigger] entries[i].0 == k;
                assert(rest[i - 1] == entries[i]);
            }
            if exists|i: int| 0 <= i < rest.len() && #[trigger] rest[i].0 == k {
                let i = choose|i: int| 0 <= i < rest.len() && #[trigger] rest[i].0 == k;
                assert(rest[i] == entries[i + 1]);
            }
        }
    }
}

/// `lookup` on distinct keys: the value at the unique index holding `k`.
pub proof fn lemma_lookup_distinct<V>(entries: Seq<(Seq<char>, V)>, k: Seq<char>)
    requires
        forall|a: int, b: int| 0 <= a < b < entries.len() ==> #[trigger] entries[a].0 != #[trigger] entries[b].0,
    ensures
        forall|i: int| 0 <= i < entries.len() && #[trigger] entries[i].0 == k ==> lookup(entries, k) == Some(entries[i].1),
        (forall|i: int| 0 <= i < entries.len() ==> #[trigger] entries[i].0 != k) ==> lookup(entries, k) is None,
{
    assert forall|i: int| 0 <= i < entries.len() && #[trigger] entries[i].0 == k implies lookup(entries, k) == Some(entries[i].1) by {
        lemma_lookup_at(entries, i);
    }
    if forall|i: int| 0 <= i < entries.len() ==> #[trigger] entries[i].0 != k {
        lemma_lookup_absent(entries, k);
    }
}

/// Whether `a` orders strictly before `b`.
pub fn key_less(a: &[char], b: &[char]) -> (r: bool)
    ensures
        r == key_lt(a@, b@),
{
    proof {
        lemma_first_diff(a@, b@, 0);
    }
    let mut i: usize = 0;
    while i < a.len() && i < b.len() && a[i] == b[i]
        invariant
            i <= a@.len(),
            i <= b@.len(),
            first_diff(a@, b@, 0) == first_diff(a@, b@, i as int),
        decreases a@.len() - i,
    {
        i = i + 1;
    }
    if i >= a.len() {
        i < b.len()
    } else if i >= b.len() {
        false
    } else {
        a[i] < b[i]
    }
}

/// Replacing the value of an existing key keeps the map well ordered.
proof fn lemma_update_entry<V>(e0: Seq<(Seq<char>, V)>, i: int, k: Seq<char>, v: V)
    requires
        ascending(e0),
        0 <= i < e0.len(),
        e0[i].0 == k,
    ensures
        ascending(e0.update(i, (k, v))),
        lookup(e0.update(i, (k, v)), k) == Some(v),
        forall|k2: Seq<char>| k2 != k ==> lookup(e0.update(i, (k, v)), k2) == lookup(e0, k2),
{
    let e1 = e0.update(i, (k, v));
    assert forall|a: int, b: int| 0 <= a < b < e1.len() implies #[trigger] e1[a].0 != #[trigger] e1[b].0 by {
        assert(e1[a].0 == e0[a].0);
        assert(e1[b].0 == e0[b].0);
    }
    assert forall|t: int| 0 <= t < e1.len() - 1 implies key_lt(#[trigger] e1[t].0, e1[t + 1].0) by {
        assert(e1[t].0 == e0[t].0);
        assert(e1[t + 1].0 == e0[t + 1].0);
    }
    lemma_lookup_distinct(e1, k);
    assert(e1[i].0 == k);
    assert forall|k2: Seq<char>| k2 != k implies lookup(e1, k2) == lookup(e0, k2) by {
        lemma_lookup_distinct(e1, k2);
        lemma_lookup_distinct(e0, k2);
        if exists|j: int| 0 <= j < e0.len() && #[trigger] e0[j].0 == k2 {
            let j = choose|j: int| 0 <= j < e0.len() && #[trigger] e0[j].0 == k2;
            assert(e1[j] == e0[j]);
        } else {
            assert forall|j: int| 0 <= j < e1.len() implies #[trigger] e1[j].0 != k2 by {
                if j != i {
                    assert(e1[j] == e0[j]);
                }
            }
        }
    }
}

proof fn lemma_insert_distinct<V>(e0: Seq<(Seq<char>, V)>, p: int, k: Seq<char>, v: V)
    requires
        ascending(e0),
        0 <= p <= e0.len(),
        forall|t: int| 0 <= t < e0.len() ==> #[trigger] e0[t].0 != k,
    ensures
        forall|a: int, b: int| 0 <= a < b < e0.insert(p, (k, v)).len() ==> #[trigger] e0.insert(p, (k, v))[a].0 != #[trigger] e0.insert(p, (k, v))[b].0,
{
    let e1 = e0.insert(p, (k, v));
    assert forall|a: int, b: int| 0 <= a < b < e1.len() implies #[trigger] e1[a].0 != #[trigger] e1[b].0 by {
        if a < p && b < p {
            assert(e1[a] == e0[a] && e1[b] == e0[b]);
        } else if a < p && b == p {
            assert(e1[a] == e0[a]);
        } else if a < p {
            assert(e1[a] == e0[a] && e1[b] == e0[b - 1]);
        } else if a == p {
            assert(e1[b] == e0[b - 1]);
        } else {
            assert(e1[a] == e0[a - 1] && e1[b] == e0[b - 1]);
        }
    }
}

proof fn lemma_insert_ordered<V>(e0: Seq<(Seq<char>, V)>, p: int, k: Seq<char>, v: V)
    requires
        ascending(e0),
        0 <= p <= e0.len(),
        forall|t: int| 0 <= t < e0.len() ==> #[trigger] e0[t].0 != k,
        forall|t: int| 0 <= t < p ==> !key_lt(k, #[trigger] e0[t].0),
        p < e0.len() ==> key_lt(k, e0[p].0),
    ensures
        forall|t: int| 0 <= t < e0.insert(p, (k, v)).len() - 1 ==> key_lt(#[trigger] e0.insert(p, (k, v))[t].0, e0.insert(p, (k, v))[t + 1].0),
{
    let e1 = e0.insert(p, (k, v));
    assert forall|t: int| 0 <= t < e1.len() - 1 implies key_lt(#[trigger] e1[t].0, e1[t + 1].0) by {
        if t + 1 < p {
            assert(e1[t] == e0[t] && e1[t + 1] == e0[t + 1]);
        } else if t + 1 == p {
            assert(e1[t] == e0[t]);
            lemma_key_order(k, e0[t].0);
        } else if t == p {
            assert(e1[t + 1] == e0[t]);
        } else {
            assert(e1[t] == e0[t - 1] && e1[t + 1] == e0[t]);
        }
    }
}

/// Inserting a new key at its ordered position keeps the map well ordered.
#[verifier::spinoff_prover]
proof fn lemma_insert_entry<V>(e0: Seq<(Seq<char>, V)>, p: int, k: Seq<char>, v: V)
    requires
        ascending(e0),
        0 <= p <= e0.len(),
        forall|t: int| 0 <= t < e0.len() ==> #[trigger] e0[t].0 != k,
        forall|t: int| 0 <= t < p ==> !key_lt(k, #[trigger] e0[t].0),
        p < e0.len() ==> key_lt(k, e0[p].0),
    ensures
        ascending(e0.insert(p, (k, v))),
        lookup(e0.insert(p, (k, v)), k) == Some(v),
        forall|k2: Seq<char>| k2 != k ==> lookup(e0.insert(p, (k, v)), k2) == lookup(e0, k2),
{
    let e1 = e0.insert(p, (k, v));
    lemma_insert_distinct(e0, p, k, v);
    lemma_insert_ordered(e0, p, k, v);
    lemma_lookup_distinct(e1, k);
    assert(e1[p].0 == k);
    assert forall|k2: Seq<char>| k2 != k implies lookup(e1, k2) == lookup(e0, k2) by {
        lemma_lookup_distinct(e1, k2);
        lemma_lookup_distinct(e0, k2);
        if exists|j: int| 0 <= j < e0.len() && #[trigger] e0[j].0 == k2 {
            let j = choose|j: int| 0 <= j < e0.len() && #[trigger] e0[j].0 == k2;
            if j < p {
                assert(e1[j] == e0[j]);
            } else {
                assert(e1[j + 1] == e0[j]);
            }
        } else {
            assert forall|j: int| 0 <= j < e1.len() implies #[trigger] e1[j].0 != k2 by {
                if j < p {
                    assert(e1[j] == e0[j]);
                } else if j > p {
                    assert(e1[j] == e0[j - 1]);
                }
            }
        }
    }
}

/// Removing the entry at `i` keeps the map well ordered.
proof fn lemma_remove_entry<V>(e0: Seq<(Seq<char>, V)>, i: int, k: Seq<char>)
    requires
        ascending(e0),
        0 <= i < e0.len(),
        e0[i].0 == k,
    ensures
        ascending(e0.remove(i)),
        lookup(e0.remove(i), k) is None,
        forall|k2: Seq<char>| k2 != k ==> lookup(e0.remove(i), k2) == lookup(e0, k2),
{
    let e1 = e0.remove(i);
    assert forall|a: int, b: int| 0 <= a < b < e1.len() implies #[trigger] e1[a].0 != #[trigger] e1[b].0 by {
        if b < i {
            assert(e1[a] == e0[a] && e1[b] == e0[b]);
        } else if a < i {
            assert(e1[a] == e0[a] && e1[b] == e0[b + 1]);
        } else {
            assert(e1[a] == e0[a + 1] && e1[b] == e0[b + 1]);
        }
    }
    assert forall|t: int| 0 <= t < e1.len() - 1 implies key_lt(#[trigger] e1[t].0, e1[t + 1].0) by {
        if t + 1 < i {
            assert(e1[t] == e0[t] && e1[t + 1] == e0[t + 1]);
        } else if t + 1 == i {
            assert(e1[t] == e0[t] && e1[t + 1] == e0[t + 2]);
            lemma_key_lt_trans(e0[t].0, e0[t + 1].0, e0[t + 2].0);
        } else {
            assert(e1[t] == e0[t + 1] && e1[t + 1] == e0[t + 2]);
        }
    }
    lemma_lookup_distinct(e1, k);
    assert forall|j: int| 0 <= j < e1.len() implies #[trigger] e1[j].0 != k by {
        if j < i {
            assert(e1[j] == e0[j]);
        } else {
            assert(e1[j] == e0[j + 1]);
        }
    }
    assert forall|k2: Seq<char>| k2 != k implies lookup(e1, k2) == lookup(e0, k2) by {
        lemma_lookup_distinct(e1, k2);
        lemma_lookup_distinct(e0, k2);
        if exists|j: int| 0 <= j < e0.len() && #[trigger] e0[j].0 == k2 {
            let j = choose|j: int| 0 <= j < e0.len() && #[trigger] e0[j].0 == k2;
            if j < i {
                assert(e1[j] == e0[j]);
            } else {
                assert(j != i);
                assert(e1[j - 1] == e0[j]);
            }
        } else {
            assert forall|j: int| 0 <= j < e1.len() implies #[trigger] e1[j].0 != k2 by {
                if j < i {
                    assert(e1[j] == e0[j]);
                } else {
                    assert(e1[j] == e0[j + 1]);
                }
            }
        }
    }
}

/// Puts `(k, v)` at `i`, returning the value it held.
fn replace_entry<V>(entries: &mut Vec<(String, V)>, i: usize, k: String, v: V) -> (r: V)
    requires
        i < old(entries)@.len(),
    ensures
        final(entries)@ == old(entries)@.update(i as int, (k, v)),
        r == old(entries)@[i as int].1,
{
    let (_, old_v) = entries.remove(i);
    entries.insert(i, (k, v));
    proof {
        assert(entries@ =~= old(entries)@.update(i as int, (k, v)));
    }
    old_v
}

/// Position of the entry holding `k`.
fn find_key<V>(entries: &Vec<(String, V)>, k: &[char]) -> (r: Option<usize>)
    ensures
        r matches Some(i) ==> i < entries@.len() && entry_views(entries@)[i as int].0 == k@,
        r is None ==> forall|i: int| 0 <= i < entries@.len() ==> #[trigger] entry_views(entries@)[i].0 != k@,
{
    let mut i: usize = 0;
    while i < entries.len()
        invariant
            i <= entries@.len(),
            forall|t: int| 0 <= t < i ==> #[trigger] entry_views(entries@)[t].0 != k@,
        decreases entries@.len() - i,
    {
        let key = chars_of(entries[i].0.as_str());
        if eq_chars(&key, k) {
            return Some(i);
        }
        i = i + 1;
    }
    None
}

/// First position whose key orders after `k`.
fn insertion_point<V>(entries: &Vec<(String, V)>, k: &[char]) -> (p: usize)
    ensures
        p <= entries@.len(),
        forall|t: int| 0 <= t < p ==> !key_lt(k@, #[trigger] entry_views(entries@)[t].0),
        p < entries@.len() ==> key_lt(k@, entry_views(entries@)[p as int].0),
{
    let mut p: usize = 0;
    while p < entries.len()
        invariant
            p <= entries@.len(),
            forall|t: int| 0 <= t < p ==> !key_lt(k@, #[trigger] entry_views(entries@)[t].0),
        decreases entries@.len() - p,
    {
        let key = chars_of(entries[p].0.as_str());
        if key_less(k, &key) {
            return p;
        }
        p = p + 1;
    }
    p
}

/// A string-keyed map whose entries stay in ascending key order.
#[derive(Debug)]
pub struct KeyedVec<V> {
    entries: Vec<(String, V)>,
}

pub open spec fn entry_views<V>(v: Seq<(String, V)>) -> Seq<(Seq<char>, V)> {
    v.map_values(|e: (String, V)| (e.0@, e.1))
}

impl<V> KeyedVec<V> {
    /// The entries in ascending key order.
    pub closed spec fn entries(&self) -> Seq<(Seq<char>, V)> {
        entry_views(self.entries@)
    }

    #[verifier::type_invariant]
    closed spec fn inv(&self) -> bool {
        ascending(self.entries())
    }

    /// The value stored under `k`, if any.
    pub open spec fn get_spec(&self, k: Seq<char>) -> Option<V> {
        lookup(self.entries(), k)
    }

    /// An empty map.
    pub fn new() -> (r: Self)
        ensures
            r.entries() == Seq::<(Seq<char>, V)>::empty(),
    {
        let r = KeyedVec { entries: Vec::new() };
        proof {
            assert(entry_views(r.entries@) =~= Seq::<(Seq<char>, V)>::empty());
        }
        r
    }

    pub fn len(&self) -> (r: usize)
        ensures
            r == self.entries().len(),
            ascending(self.entries()),
    {
        proof {
            use_type_invariant(self);
        }
        self.entries.len()
    }

    /// The key of the entry at `i`.
    pub fn key_at(&self, i: usize) -> (r: &String)
        requires
            i < self.entries().len(),
        ensures
            r@ == self.entries()[i as int].0,
    {
        &self.entries[i].0
    }

    /// The value of the entry at `i`.
    pub fn value_at(&self, i: usize) -> (r: &V)
        requires
            i < self.entries().len(),
        ensures
            *r == self.entries()[i as int].1,
            self.get_spec(self.entries()[i as int].0) == Some(*r),
    {
        proof {
            use_type_invariant(self);
            lemma_lookup_at(self.entries(), i as int);
        }
        &self.entries[i].1
    }

    /// Position of the entry holding `k`.
    pub fn position(&self, k: &[char]) -> (r: Option<usize>)
        ensures
            r matches Some(i) ==> i < self.entries().len() && self.entries()[i as int].0 == k@,
            r is None ==> forall|i: int| 0 <= i < self.entries().len() ==> #[trigger] self.entries()[i].0 != k@,
            r is None <==> self.get_spec(k@) is None,
    {
        let r = find_key(&self.entries, k);
        proof {
            lemma_lookup_some(self.entries(), k@);
            if r is None {
                lemma_lookup_absent(self.entries(), k@);
            }
        }
        r
    }

    /// The value stored under `k`, if any.
    pub fn get(&self, k: &[char]) -> (r: Option<&V>)
        ensures
            r matches Some(v) ==> self.get_spec(k@) == Some(*v),
            r is None ==> self.get_spec(k@) is None,
    {
        proof {
            use_type_invariant(self);
        }
        match self.position(k) {
            Some(i) => {
                proof {
                    lemma_lookup_at(self.entries(), i as int);
                }
                Some(&self.entries[i].1)
            },
            None => None,
        }
    }

    /// Stores `v` under `k`; returns the value it replaces.
    pub fn insert(&mut self, k: String, v: V) -> (r: Option<V>)
        ensures
            r == old(self).get_spec(k@),
            final(self).get_spec(k@) == Some(v),
            forall|k2: Seq<char>| k2 != k@ ==> final(self).get_spec(k2) == old(self).get_spec(k2),
            old(self).get_spec(k@) is Some ==> final(self).entries().len() == old(self).entries().len(),
            old(self).get_spec(k@) is None ==> final(self).entries().len() == old(self).entries().len() + 1,
    {
        proof {
            use_type_invariant(&*self);
        }
        let kc = chars_of(k.as_str());
        let ghost e0 = self.entries();
        let mut entries: Vec<(String, V)> = Vec::new();
        std::mem::swap(&mut entries, &mut self.entries);
        proof {
            assert(entry_views(entries@) == e0);
            lemma_lookup_distinct(e0, k@);
        }
        let pos = find_key(&entries, &kc);
        if let Some(i) = pos {
            let old_v = replace_entry(&mut entries, i, k, v);
            proof {
                assert(entry_views(entries@) =~= e0.update(i as int, (kc@, v)));
                assert(e0[i as int].0 == kc@);
                assert(lookup(e0, k@) == Some(e0[i as int].1));
                lemma_update_entry(e0, i as int, kc@, v);
            }
            self.entries = entries;
            Some(old_v)
        } else {
            let p = insertion_point(&entries, &kc);
            entries.insert(p, (k, v));
            proof {
                assert(lookup(e0, k@) is None);
            }
            proof {
                assert(entry_views(entries@) =~= e0.insert(p as int, (kc@, v)));
                lemma_insert_entry(e0, p as int, kc@, v);
            }
            self.entries = entries;
            None
        }
    }

    /// Removes the entry under `k`, returning its value.
    pub fn remove(&mut self, k: &[char]) -> (r: Option<V>)
        ensures
            r == old(self).get_spec(k@),
            final(self).get_spec(k@) is None,
            forall|k2: Seq<char>| k2 != k@ ==> final(self).get_spec(k2) == old(self).get_spec(k2),
    {
        proof {
            use_type_invariant(&*self);
        }
        let ghost e0 = self.entries();
        proof {
            lemma_lookup_distinct(e0, k@);
        }
        match self.position(k) {
            None => None,
            Some(i) => {
                let mut entries: Vec<(String, V)> = Vec::new();
                std::mem::swap(&mut entries, &mut self.entries);
                proof {
                    assert(entry_views(entries@) == e0);
                }
                let (_, v) = entries.remove(i);
                proof {
                    assert(entry_views(entries@) =~= e0.remove(i as int));
                    assert(lookup(e0, k@) == Some(e0[i as int].1));
                    lemma_remove_entry(e0, i as int, k@);
                }
                self.entries = entries;
                Some(v)
            },
        }
    }

    pub fn contains_key(&self, k: &[char]) -> (r: bool)
        ensures
            r == self.get_spec(k@) is Some,
    {
        self.position(k).is_some()
    }
}

proof fn lemma_absorb_step<V>(
    e: Seq<(Seq<char>, V)>,
    start: KeyedVec<V>,
    before: KeyedVec<V>,
    after: KeyedVec<V>,
    m: int,
    n: int,
    kv: Seq<char>,
    value: V,
)
    requires
        0 <= m < n,
        e.len() == n,
        e[m] == (kv, value),
        lookup(e, kv) == Some(value),
        after.get_spec(kv) == Some(value),
        forall|k: Seq<char>| k != kv ==> #[trigger] after.get_spec(k) == before.get_spec(k),
        forall|k: Seq<char>| #[trigger] before.get_spec(k) == (if exists|j: int| m + 1 <= j < n && e[j].0 == k {
            lookup(e, k)
        } else {
            start.get_spec(k)
        }),
    ensures
        forall|k: Seq<char>| #[trigger] after.get_spec(k) == (if exists|j: int| m <= j < n && e[j].0 == k {
            lookup(e, k)
        } else {
            start.get_spec(k)
        }),
{
    assert forall|k: Seq<char>| #[trigger] after.get_spec(k) == (if exists|j: int| m <= j < n && e[j].0 == k {
        lookup(e, k)
    } else {
        start.get_spec(k)
    }) by {
        if k == kv {
            assert(e[m].0 == k);
        } else {
            assert(after.get_spec(k) == before.get_spec(k));
            if exists|j: int| m <= j < n && e[j].0 == k {
                let j = choose|j: int| m <= j < n && e[j].0 == k;
                assert(j != m);
                assert(m + 1 <= j < n && e[j].0 == k);
            }
        }
    }
}

impl<V> KeyedVec<V> {
    /// Moves every entry of `other` in; its values replace those under the
    /// same keys.
    pub fn absorb(&mut self, other: KeyedVec<V>)
        ensures
            forall|k: Seq<char>| #[trigger] final(self).get_spec(k) == (match other.get_spec(k) {
                Some(v) => Some(v),
                None => old(self).get_spec(k),
            }),
    {
        proof {
            use_type_invariant(&other);
        }
        let ghost e = other.entries();
        let ghost start = *self;
        let KeyedVec { entries: mut pairs } = other;
        let ghost n = pairs@.len();
        proof {
            assert(entry_views(pairs@) =~= e.take(n as int));
        }
        while pairs.len() > 0
            invariant
                ascending(e),
                e.len() == n,
                pairs@.len() <= n,
                entry_views(pairs@) == e.take(pairs@.len() as int),
                forall|k: Seq<char>| #[trigger] self.get_spec(k) == (if exists|j: int| pairs@.len() <= j < n && e[j].0 == k {
                    lookup(e, k)
                } else {
                    start.get_spec(k)
                }),
            decreases pairs@.len(),
        {
            let ghost m = pairs@.len();
            let ghost p0 = pairs@;
            let (key, value) = pairs.pop().unwrap();
            proof {
                assert(entry_views(p0)[m - 1] == (key@, value));
                assert(e.take(m as int)[m - 1] == e[m - 1]);
                lemma_lookup_at(e, m - 1);
                assert(entry_views(pairs@) =~= entry_views(p0).drop_last());
                assert(e.take(m as int).drop_last() =~= e.take(m - 1));
            }
            let ghost before = *self;
            let ghost kv = key@;
            self.insert(key, value);
            proof {
                lemma_absorb_step(e, start, before, *self, m - 1, n as int, kv, value);
            }
        }
        proof {
            assert forall|k: Seq<char>| #[trigger] self.get_spec(k) == (match other.get_spec(k) {
                Some(v) => Some(v),
                None => start.get_spec(k),
            }) by {
                lemma_lookup_some(e, k);
            }
        }
    }
}

impl KeyedVec<String> {
    /// A copy with the same entries.
    pub fn copy(&self) -> (r: Self)
        ensures
            r.entries() == self.entries(),
    {
        proof {
            use_type_invariant(self);
        }
        let mut out: Vec<(String, String)> = Vec::new();
        for i in 0..self.entries.len()
            invariant
                entry_views(out@) == entry_views(self.entries@).take(i as int),
        {
            let k = self.entries[i].0.clone();
            let v = self.entries[i].1.clone();
            let ghost before = entry_views(out@);
            out.push((k, v));
            proof {
                assert(entry_views(out@) =~= before.push((k@, v)));
                assert(entry_views(self.entries@).take(i + 1) =~= entry_views(self.entries@).take(i as int).push(
                    (self.entries@[i as int].0@, self.entries@[i as int].1),
                ));
            }
        }
        proof {
            assert(entry_views(self.entries@).take(self.entries@.len() as int) =~= entry_views(self.entries@));
        }
        KeyedVec { entries: out }
    }

    /// Inserts every entry of `other`; its values replace those under the
    /// same keys.
    pub fn extend_from(&mut self, other: &KeyedVec<String>)
        ensures
            forall|k: Seq<char>| #[trigger] final(self).get_spec(k) == (match other.get_spec(k) {
                Some(v) => Some(v),
                None => old(self).get_spec(k),
            }),
    {
        proof {
            use_type_invariant(other);
        }
        let ghost e = other.entries();
        let ghost start = *self;
        for i in 0..other.entries.len()
            invariant
                e == other.entries(),
                ascending(e),
                e.len() == other.entries@.len(),
                forall|k: Seq<char>| #[trigger] self.get_spec(k) == (if exists|j: int| 0 <= j < i && e[j].0 == k {
                    lookup(e, k)
                } else {
                    start.get_spec(k)
                }),
        {
            let key = other.entries[i].0.clone();
            let value = other.entries[i].1.clone();
            proof {
                assert(e[i as int] == (other.entries@[i as int].0@, other.entries@[i as int].1));
                lemma_lookup_at(e, i as int);
            }
            let ghost before = *self;
            self.insert(key, value);
            proof {
                assert forall|k: Seq<char>| #[trigger] self.get_spec(k) == (if exists|j: int| 0 <= j < i + 1 && e[j].0 == k {
                    lookup(e, k)
                } else {
                    start.get_spec(k)
                }) by {
                    if k == e[i as int].0 {
                        assert(e[i as int].0 == k);
                    } else {
                        assert(self.get_spec(k) == before.get_spec(k));
                        if exists|j: int| 0 <= j < i + 1 && e[j].0 == k {
                            let j = choose|j: int| 0 <= j < i + 1 && e[j].0 == k;
                            assert(j < i);
                        }
                    }
                }
            }
        }
        proof {
            assert forall|k: Seq<char>| #[trigger] self.get_spec(k) == (match other.get_spec(k) {
                Some(v) => Some(v),
                None => start.get_spec(k),
            }) by {
                lemma_lookup_some(e, k);
            }
        }
    }
}

impl<V: Clone> Clone for KeyedVec<V> {
    /// A copy with the same keys in the same order, each value cloned.
    fn clone(&self) -> (r: Self)
        ensures
            r.entries().len() == self.entries().len(),
            forall|i: int|
                0 <= i < r.entries().len() ==> #[trigger] r.entries()[i].0 == self.entries()[i].0
                    && cloned::<V>(self.entries()[i].1, r.entries()[i].1),
    {
        proof {
            use_type_invariant(self);
        }
        let mut out: Vec<(String, V)> = Vec::new();
        let n = self.entries.len();
        let mut i: usize = 0;
        while i < n
            invariant
                n == self.entries@.len(),
                out@.len() == i,
                i <= n,
                forall|j: int|
                    0 <= j < i ==> #[trigger] out@[j].0@ == self.entries@[j].0@ && cloned::<V>(
                        self.entries@[j].1,
                        out@[j].1,
                    ),
            decreases n - i,
        {
            let k = self.entries[i].0.clone();
            let v = self.entries[i].1.clone();
            out.push((k, v));
            i = i + 1;
        }
        proof {
            assert(entry_views(out@).len() == entry_views(self.entries@).len());
            assert forall|i: int| 0 <= i < entry_views(out@).len() implies #[trigger] entry_views(out@)[i].0
                == entry_views(self.entries@)[i].0 by {}
        }
        KeyedVec { entries: out }
    }
}

/// Removing a key that an insertion added gives back the map before it.
pub proof fn law_remove_undoes_insert<V>(
    before: KeyedVec<V>,
    inserted: KeyedVec<V>,
    removed: KeyedVec<V>,
    k: Seq<char>,
    v: V,
)
    requires
        before.get_spec(k) is None,
        inserted.get_spec(k) == Some(v),
        forall|k2: Seq<char>| k2 != k ==> #[trigger] inserted.get_spec(k2) == before.get_spec(k2),
        removed.get_spec(k) is None,
        forall|k2: Seq<char>| k2 != k ==> #[trigger] removed.get_spec(k2) == inserted.get_spec(k2),
    ensures
        forall|k2: Seq<char>| #[trigger] removed.get_spec(k2) == before.get_spec(k2),
{
    assert forall|k2: Seq<char>| #[trigger] removed.get_spec(k2) == before.get_spec(k2) by {
        if k2 != k {
            assert(inserted.get_spec(k2) == before.get_spec(k2));
        }
    }
}

} // verus!
