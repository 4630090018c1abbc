//! The leaves of a BRO XML document: every element without child elements,
//! with its slash-separated path of local names and its trimmed text, and
//! the attributes of every element by path.

use vstd::prelude::*;

use crate::bro::{BroError, BroFailure, last_segment};
use crate::text::{chars_of, eq_chars, join, join_from, push_all, string_of, trim, trim_chars, views};
use crate::xml::{AttrItem, Element, Token, Tokens, XmlEvent, lossy_text, utf8_lossy};

verus! {

/// The bytes after the last `:` of a qualified name.
pub open spec fn local_bytes(b: Seq<u8>) -> Seq<u8>
    decreases b.len(),
{
    if b.len() == 0 {
        b
    } else if b.last() == 58u8 {
        seq![]
    } else {
        local_bytes(b.drop_last()).push(b.last())
    }
}

/// The local part of a qualified name, as text.
pub open spec fn local_name_spec(b: Seq<u8>) -> Seq<char> {
    lossy_text(local_bytes(b))
}

pub fn local_name(b: &[u8]) -> (r: Vec<char>)
    ensures
        r@ == local_name_spec(b@),
{
    let mut k = b.len();
    proof {
        assert(b@.take(k as int) =~= b@);
        assert(local_bytes(b@) + b@.subrange(k as int, b@.len() as int) =~= local_bytes(b@));
    }
    while k > 0 && b[k - 1] != 58u8
        invariant
            k <= b@.len(),
            local_bytes(b@) == local_bytes(b@.take(k as int)) + b@.subrange(k as int, b@.len() as int),
        decreases k,
    {
        proof {
            let t = b@.take(k as int);
            assert(t.drop_last() =~= b@.take(k - 1));
            assert(t.last() == b@[k - 1]);
            assert(local_bytes(b@.take(k - 1)).push(b@[k - 1]) + b@.subrange(k as int, b@.len() as int)
                =~= local_bytes(b@.take(k - 1)) + b@.subrange(k - 1, b@.len() as int));
        }
        k = k - 1;
    }
    proof {
        let t = b@.take(k as int);
        assert(local_bytes(t) == Seq::<u8>::empty());
        assert(Seq::<u8>::empty() + b@.subrange(k as int, b@.len() as int) =~= b@.subrange(
            k as int,
            b@.len() as int,
        ));
    }
    let mut tail: Vec<u8> = Vec::new();
    let mut j = k;
    while j < b.len()
        invariant
            k <= j <= b@.len(),
            tail@ == b@.subrange(k as int, j as int),
        decreases b@.len() - j,
    {
        tail.push(b[j]);
        j = j + 1;
        proof {
            assert(tail@ =~= b@.subrange(k as int, j as int));
        }
    }
    utf8_lossy(&tail)
}

/// The leaves and attributes of a document.
#[derive(Debug)]
pub struct CollectedXml {
    /// (path, trimmed text) of every element without child elements, in
    /// the order the elements close.
    pub leaves: Vec<(Vec<char>, Vec<char>)>,
    /// (path, attributes) of every element with attributes, in document
    /// order; a later entry for a path replaces an earlier one.
    pub attributes: Vec<(Vec<char>, Vec<(Vec<char>, Vec<char>)>)>,
    /// The local name of the root element.
    pub root: Option<Vec<char>>,
}

pub open spec fn pair_views(s: Seq<(Vec<char>, Vec<char>)>) -> Seq<(Seq<char>, Seq<char>)> {
    s.map_values(|p: (Vec<char>, Vec<char>)| (p.0@, p.1@))
}

pub open spec fn attr_views(s: Seq<(Vec<char>, Vec<(Vec<char>, Vec<char>)>)>) -> Seq<
    (Seq<char>, Seq<(Seq<char>, Seq<char>)>),
> {
    s.map_values(|p: (Vec<char>, Vec<(Vec<char>, Vec<char>)>)| (p.0@, pair_views(p.1@)))
}

pub open spec fn opt_chars(o: Option<Vec<char>>) -> Option<Seq<char>> {
    match o {
        Some(v) => Some(v@),
        None => None,
    }
}

/// The collected document as plain values.
#[verifier::ext_equal]
pub struct CollectModel {
    pub stack: Seq<Seq<char>>,
    pub text: Seq<Seq<char>>,
    pub has_child: Seq<bool>,
    pub leaves: Seq<(Seq<char>, Seq<char>)>,
    pub attrs: Seq<(Seq<char>, Seq<(Seq<char>, Seq<char>)>)>,
    pub root: Option<Seq<char>>,
}

pub open spec fn empty_collect() -> CollectModel {
    CollectModel { stack: seq![], text: seq![], has_child: seq![], leaves: seq![], attrs: seq![], root: None }
}

/// The attributes of an element, or the first error reading them.
pub open spec fn attr_list(items: Seq<AttrItem>) -> Result<Seq<(Seq<char>, Seq<char>)>, Seq<char>>
    decreases items.len(),
{
    if items.len() == 0 {
        Ok(seq![])
    } else {
        match attr_list(items.drop_last()) {
            Err(m) => Err(m),
            Ok(l) => match items.last() {
                AttrItem::Attr { key, value, .. } => match value {
                    Ok(v) => Ok(l.push((local_name_spec(key@), v@))),
                    Err(m) => Err(m@),
                },
                AttrItem::Bad(m) => Err(m@),
            },
        }
    }
}

pub open spec fn mark_parent(hc: Seq<bool>) -> Seq<bool> {
    if hc.len() > 0 {
        hc.update(hc.len() - 1, true)
    } else {
        hc
    }
}

pub open spec fn with_root(root: Option<Seq<char>>, l: Seq<char>) -> Option<Seq<char>> {
    match root {
        Some(r) => Some(r),
        None => Some(l),
    }
}

pub open spec fn add_attrs(
    attrs: Seq<(Seq<char>, Seq<(Seq<char>, Seq<char>)>)>,
    path: Seq<char>,
    l: Seq<(Seq<char>, Seq<char>)>,
) -> Seq<(Seq<char>, Seq<(Seq<char>, Seq<char>)>)> {
    if l.len() > 0 {
        attrs.push((path, l))
    } else {
        attrs
    }
}

pub enum Step {
    Next(CollectModel),
    Done(CollectModel),
    Fail(u64, Seq<char>),
}

/// What one event does to the collection.
pub open spec fn collect_step(m: CollectModel, t: Token) -> Step {
    match t.event {
        XmlEvent::Start(e) => {
            let l = local_name_spec(e.name@);
            let stack = m.stack.push(l);
            match attr_list(e.attrs@) {
                Err(msg) => Step::Fail(t.pos, msg),
                Ok(al) => Step::Next(
                    CollectModel {
                        stack: stack,
                        text: m.text.push(seq![]),
                        has_child: mark_parent(m.has_child).push(false),
                        attrs: add_attrs(m.attrs, join(stack, '/'), al),
                        root: with_root(m.root, l),
                        ..m
                    },
                ),
            }
        },
        XmlEvent::Empty(e) => {
            let l = local_name_spec(e.name@);
            let path = join(m.stack.push(l), '/');
            match attr_list(e.attrs@) {
                Err(msg) => Step::Fail(t.pos, msg),
                Ok(al) => Step::Next(
                    CollectModel {
                        has_child: mark_parent(m.has_child),
                        attrs: add_attrs(m.attrs, path, al),
                        leaves: m.leaves.push((path, seq![])),
                        root: with_root(m.root, l),
                        ..m
                    },
                ),
            }
        },
        XmlEvent::Text(r) => if m.text.len() > 0 {
            match r {
                Err(msg) => Step::Fail(t.pos, msg@),
                Ok(s) => Step::Next(
                    CollectModel { text: m.text.update(m.text.len() - 1, m.text.last() + s@), ..m },
                ),
            }
        } else {
            Step::Next(m)
        },
        XmlEvent::End => {
            let is_leaf = m.has_child.len() > 0 && !m.has_child.last();
            let value = if m.text.len() > 0 {
                trim(m.text.last())
            } else {
                seq![]
            };
            Step::Next(
                CollectModel {
                    has_child: if m.has_child.len() > 0 {
                        m.has_child.drop_last()
                    } else {
                        m.has_child
                    },
                    text: if m.text.len() > 0 {
                        m.text.drop_last()
                    } else {
                        m.text
                    },
                    leaves: if is_leaf {
                        m.leaves.push((join(m.stack, '/'), value))
                    } else {
                        m.leaves
                    },
                    stack: if m.stack.len() > 0 {
                        m.stack.drop_last()
                    } else {
                        m.stack
                    },
                    ..m
                },
            )
        },
        XmlEvent::Eof => Step::Done(m),
        XmlEvent::Other => Step::Next(m),
    }
}

/// Collection of the events from `i` on.
pub open spec fn collect_from(evs: Seq<Token>, err: Option<(u64, Vec<char>)>, i: int, m: CollectModel) -> Result<
    CollectModel,
    (u64, Seq<char>),
>
    decreases evs.len() - i,
{
    if i < 0 || i >= evs.len() {
        match err {
            Some((p, msg)) => Err((p, msg@)),
            None => Ok(m),
        }
    } else {
        match collect_step(m, evs[i]) {
            Step::Next(m2) => collect_from(evs, err, i + 1, m2),
            Step::Done(m2) => Ok(m2),
            Step::Fail(p, msg) => Err((p, msg)),
        }
    }
}

pub open spec fn collect_spec(toks: Tokens) -> Result<CollectModel, (u64, Seq<char>)> {
    collect_from(toks.events@, toks.error, 0, empty_collect())
}

/// The collected document matches the model's output.
pub open spec fn collected_as(c: CollectedXml, m: CollectModel) -> bool {
    &&& pair_views(c.leaves@) == m.leaves
    &&& attr_views(c.attributes@) == m.attrs
    &&& opt_chars(c.root) == m.root
}

struct CollectState {
    stack: Vec<Vec<char>>,
    text: Vec<Vec<char>>,
    has_child: Vec<bool>,
    out: CollectedXml,
}

spec fn state_model(s: CollectState) -> CollectModel {
    CollectModel {
        stack: views(s.stack@),
        text: views(s.text@),
        has_child: s.has_child@,
        leaves: pair_views(s.out.leaves@),
        attrs: attr_views(s.out.attributes@),
        root: opt_chars(s.out.root),
    }
}

fn read_attr_list(items: &Vec<AttrItem>) -> (r: Result<Vec<(Vec<char>, Vec<char>)>, Vec<char>>)
    ensures
        match r {
            Ok(l) => attr_list(items@) == Ok::<Seq<(Seq<char>, Seq<char>)>, Seq<char>>(pair_views(l@)),
            Err(m) => attr_list(items@) == Err::<Seq<(Seq<char>, Seq<char>)>, Seq<char>>(m@),
        },
{
    let mut l: Vec<(Vec<char>, Vec<char>)> = Vec::new();
    proof {
        assert(items@.take(0) =~= Seq::<AttrItem>::empty());
        assert(pair_views(l@) =~= Seq::<(Seq<char>, Seq<char>)>::empty());
    }
    for i in 0..items.len()
        invariant
            attr_list(items@.take(i as int)) == Ok::<Seq<(Seq<char>, Seq<char>)>, Seq<char>>(
                pair_views(l@),
            ),
    {
        proof {
            assert(items@.take(i + 1).drop_last() =~= items@.take(i as int));
            assert(items@.take(i + 1).last() == items@[i as int]);
        }
        match &items[i] {
            AttrItem::Attr { key, value, .. } => match value {
                Ok(v) => {
                    let k = local_name(key);
                    let ghost before = pair_views(l@);
                    l.push((k, v.clone()));
                    proof {
                        assert(pair_views(l@) =~= before.push((k@, v@)));
                    }
                },
                Err(m) => {
                    proof {
                        lemma_attr_list_err(items@, i as int);
                    }
                    return Err(m.clone());
                },
            },
            AttrItem::Bad(m) => {
                proof {
                    lemma_attr_list_err(items@, i as int);
                }
                return Err(m.clone());
            },
        }
    }
    proof {
        assert(items@.take(items@.len() as int) =~= items@);
    }
    Ok(l)
}

/// An error at item `i` is the error of the whole list when the items
/// before it read without error.
proof fn lemma_attr_list_err(items: Seq<AttrItem>, i: int)
    requires
        0 <= i < items.len(),
        attr_list(items.take(i)) is Ok,
        attr_list(items.take(i + 1)) is Err,
    ensures
        attr_list(items) == attr_list(items.take(i + 1)),
    decreases items.len() - i,
{
    if i + 1 < items.len() {
        lemma_attr_list_err_prefix(items, i + 1);
    } else {
        assert(items.take(i + 1) =~= items);
    }
}

/// Once a prefix fails, every longer prefix fails with the same error.
proof fn lemma_attr_list_err_prefix(items: Seq<AttrItem>, k: int)
    requires
        0 < k <= items.len(),
        attr_list(items.take(k)) is Err,
    ensures
        attr_list(items) == attr_list(items.take(k)),
    decreases items.len() - k,
{
    if k == items.len() {
        assert(items.take(k) =~= items);
    } else {
        assert(items.take(k + 1).drop_last() =~= items.take(k));
        lemma_attr_list_err_prefix(items, k + 1);
    }
}

fn stack_path(stack: &Vec<Vec<char>>) -> (r: Vec<char>)
    ensures
        r@ == join(views(stack@), '/'),
{
    let r = join_from(stack, 0, '/');
    proof {
        assert(views(stack@).subrange(0, stack@.len() as int) =~= views(stack@));
    }
    r
}

fn open_element(st: &mut CollectState, e: &Element, empty: bool) -> (r: Result<(), Vec<char>>)
    ensures
        match r {
            Ok(()) => match collect_step(
                state_model(*old(st)),
                Token { event: if empty { XmlEvent::Empty(*e) } else { XmlEvent::Start(*e) }, pos: 0 },
            ) {
                Step::Next(m2) => state_model(*final(st)) == m2,
                _ => false,
            },
            Err(msg) => attr_list(e.attrs@) == Err::<Seq<(Seq<char>, Seq<char>)>, Seq<char>>(msg@),
        },
{
    let ghost m = state_model(*st);
    let l = local_name(&e.name);
    let al = match read_attr_list(&e.attrs) {
        Ok(al) => al,
        Err(msg) => {
            return Err(msg);
        },
    };
    let n = st.has_child.len();
    if n > 0 {
        st.has_child.set(n - 1, true);
    }
    if st.out.root.is_none() {
        st.out.root = Some(l.clone());
    }
    let ghost stack0 = views(st.stack@);
    st.stack.push(l.clone());
    proof {
        assert(views(st.stack@) =~= stack0.push(l@));
    }
    let path = stack_path(&st.stack);
    if al.len() > 0 {
        let ghost a0 = attr_views(st.out.attributes@);
        st.out.attributes.push((path.clone(), al));
        proof {
            assert(attr_views(st.out.attributes@) =~= a0.push((path@, pair_views(al@))));
        }
    }
    if empty {
        let ghost l0 = pair_views(st.out.leaves@);
        st.out.leaves.push((path, Vec::new()));
        proof {
            assert(pair_views(st.out.leaves@) =~= l0.push((join(stack0.push(l@), '/'), seq![])));
        }
        let ghost s1 = views(st.stack@);
        st.stack.pop();
        proof {
            assert(views(st.stack@) =~= s1.drop_last());
            assert(views(st.stack@) =~= stack0);
        }
    } else {
        let ghost t0 = views(st.text@);
        st.text.push(Vec::new());
        proof {
            assert(views(st.text@) =~= t0.push(seq![]));
        }
        st.has_child.push(false);
    }
    proof {
        let m2 = state_model(*st);
        if empty {
            assert(m2.has_child =~= mark_parent(m.has_child));
        } else {
            assert(m2.has_child =~= mark_parent(m.has_child).push(false));
        }
    }
    Ok(())
}

fn add_text(st: &mut CollectState, s: &Vec<char>)
    requires
        old(st).text@.len() > 0,
    ensures
        state_model(*final(st)) == (CollectModel {
            text: state_model(*old(st)).text.update(
                state_model(*old(st)).text.len() - 1,
                state_model(*old(st)).text.last() + s@,
            ),
            ..state_model(*old(st))
        }),
{
    let ghost t0 = views(st.text@);
    let mut cur = st.text.pop().unwrap();
    push_all(&mut cur, s);
    st.text.push(cur);
    proof {
        assert(views(st.text@) =~= t0.update(t0.len() - 1, t0.last() + s@));
    }
}

fn close_element(st: &mut CollectState)
    ensures
        collect_step(state_model(*old(st)), Token { event: XmlEvent::End, pos: 0 }) == Step::Next(
            state_model(*final(st)),
        ),
{
    let ghost m = state_model(*st);
    let is_leaf = match st.has_child.pop() {
        Some(h) => !h,
        None => false,
    };
    let ghost t0 = views(st.text@);
    let value = match st.text.pop() {
        Some(t) => trim_chars(&t),
        None => Vec::new(),
    };
    proof {
        if t0.len() > 0 {
            assert(views(st.text@) =~= t0.drop_last());
        }
    }
    if is_leaf {
        let path = stack_path(&st.stack);
        let ghost l0 = pair_views(st.out.leaves@);
        st.out.leaves.push((path, value));
        proof {
            assert(pair_views(st.out.leaves@) =~= l0.push((path@, value@)));
        }
    }
    let ghost s0 = views(st.stack@);
    st.stack.pop();
    proof {
        if s0.len() > 0 {
            assert(views(st.stack@) =~= s0.drop_last());
        }
    }
}

/// Collects the leaves and attributes from the events of a document.
pub fn collect_events(toks: &Tokens) -> (r: Result<CollectedXml, BroError>)
    ensures
        match r {
            Ok(c) => collect_spec(*toks) matches Ok(m) && collected_as(c, m),
            Err(e) => collect_spec(*toks) matches Err((p, msg)) && e@ == BroFailure::InvalidXml(
                Some(p),
                msg,
            ),
        },
{
    let mut st = CollectState {
        stack: Vec::new(),
        text: Vec::new(),
        has_child: Vec::new(),
        out: CollectedXml { leaves: Vec::new(), attributes: Vec::new(), root: None },
    };
    proof {
        assert(state_model(st) =~= empty_collect());
    }
    let evs = &toks.events;
    for i in 0..evs.len()
        invariant
            evs@ == toks.events@,
            collect_spec(*toks) == collect_from(evs@, toks.error, i as int, state_model(st)),
    {
        let t = &evs[i];
        match &t.event {
            XmlEvent::Start(e) => {
                match open_element(&mut st, e, false) {
                    Ok(()) => {},
                    Err(msg) => {
                        return Err(BroError::InvalidXml { position: Some(t.pos), message: string_of(&msg) });
                    },
                }
            },
            XmlEvent::Empty(e) => {
                match open_element(&mut st, e, true) {
                    Ok(()) => {},
                    Err(msg) => {
                        return Err(BroError::InvalidXml { position: Some(t.pos), message: string_of(&msg) });
                    },
                }
            },
            XmlEvent::Text(r) => {
                if st.text.len() > 0 {
                    match r {
                        Ok(s) => add_text(&mut st, s),
                        Err(msg) => {
                            return Err(
                                BroError::InvalidXml { position: Some(t.pos), message: string_of(msg) },
                            );
                        },
                    }
                }
            },
            XmlEvent::End => close_element(&mut st),
            XmlEvent::Eof => {
                return Ok(st.out);
            },
            XmlEvent::Other => {},
        }
    }
    match &toks.error {
        Some((p, msg)) => Err(BroError::InvalidXml { position: Some(*p), message: string_of(msg) }),
        None => Ok(st.out),
    }
}

/// Index of the first leaf at or after `i` whose last path segment is
/// `local`, or the number of leaves.
pub open spec fn find_leaf(leaves: Seq<(Seq<char>, Seq<char>)>, local: Seq<char>, i: int) -> int
    decreases leaves.len() - i,
{
    if i < 0 || i >= leaves.len() {
        leaves.len() as int
    } else if last_segment(leaves[i].0) == local {
        i
    } else {
        find_leaf(leaves, local, i + 1)
    }
}

proof fn lemma_find_leaf(leaves: Seq<(Seq<char>, Seq<char>)>, local: Seq<char>, i: int)
    requires
        0 <= i <= leaves.len(),
    ensures
        i <= find_leaf(leaves, local, i) <= leaves.len(),
        find_leaf(leaves, local, i) < leaves.len() ==> last_segment(
            leaves[find_leaf(leaves, local, i)].0,
        ) == local,
    decreases leaves.len() - i,
{
    if i < leaves.len() && last_segment(leaves[i].0) != local {
        lemma_find_leaf(leaves, local, i + 1);
    }
}

/// The text of the first leaf named `local`.
pub open spec fn leaf_value(leaves: Seq<(Seq<char>, Seq<char>)>, local: Seq<char>) -> Option<Seq<char>> {
    let j = find_leaf(leaves, local, 0);
    if 0 <= j < leaves.len() {
        Some(leaves[j].1)
    } else {
        None
    }
}

/// Where a field named `local` is (or would be): the path of its first
/// leaf, else the root's name and `local`.
pub open spec fn field_path_spec(leaves: Seq<(Seq<char>, Seq<char>)>, root: Option<Seq<char>>, local: Seq<char>) -> Seq<char> {
    let j = find_leaf(leaves, local, 0);
    if 0 <= j < leaves.len() {
        leaves[j].0
    } else {
        match root {
            Some(r) => r + "/"@ + local,
            None => local,
        }
    }
}

/// The value of attribute `a` on the element at `path`, from the last
/// attribute entry recorded for that path.
pub open spec fn attr_at(
    attrs: Seq<(Seq<char>, Seq<(Seq<char>, Seq<char>)>)>,
    path: Seq<char>,
    a: Seq<char>,
) -> Option<Seq<char>>
    decreases attrs.len(),
{
    if attrs.len() == 0 {
        None
    } else if attrs.last().0 == path {
        last_pair(attrs.last().1, a)
    } else {
        attr_at(attrs.drop_last(), path, a)
    }
}

/// The value of the last pair with key `k`.
pub open spec fn last_pair(l: Seq<(Seq<char>, Seq<char>)>, k: Seq<char>) -> Option<Seq<char>>
    decreases l.len(),
{
    if l.len() == 0 {
        None
    } else if l.last().0 == k {
        Some(l.last().1)
    } else {
        last_pair(l.drop_last(), k)
    }
}

/// Index of the last `/` in `s`, if any.
pub open spec fn last_slash(s: Seq<char>) -> Option<int>
    decreases s.len(),
{
    if s.len() == 0 {
        None
    } else if s.last() == '/' {
        Some(s.len() - 1)
    } else {
        last_slash(s.drop_last())
    }
}

proof fn lemma_last_slash(s: Seq<char>)
    ensures
        last_slash(s) matches Some(k) ==> 0 <= k < s.len(),
    decreases s.len(),
{
    if s.len() > 0 && s.last() != '/' {
        lemma_last_slash(s.drop_last());
    }
}

/// Attribute `a` of the element at `path` or of its nearest ancestor that
/// has it.
pub open spec fn ancestor_attr(
    attrs: Seq<(Seq<char>, Seq<(Seq<char>, Seq<char>)>)>,
    path: Seq<char>,
    a: Seq<char>,
) -> Option<Seq<char>>
    decreases path.len(),
{
    match attr_at(attrs, path, a) {
        Some(v) => Some(v),
        None => match last_slash(path) {
            Some(k) => if 0 <= k < path.len() {
                ancestor_attr(attrs, path.subrange(0, k), a)
            } else {
                None
            },
            None => None,
        },
    }
}

impl CollectedXml {
    pub open spec fn leaves_view(&self) -> Seq<(Seq<char>, Seq<char>)> {
        pair_views(self.leaves@)
    }

    /// The text of the first leaf whose local name is `local`.
    pub fn value(&self, local: &[char]) -> (r: Option<Vec<char>>)
        ensures
            opt_chars(r) == leaf_value(self.leaves_view(), local@),
    {
        let j = self.leaf_index_of(local);
        if j < self.leaves.len() {
            Some(self.leaves[j].1.clone())
        } else {
            None
        }
    }

    pub fn leaf_index_of(&self, local: &[char]) -> (r: usize)
        ensures
            r == find_leaf(self.leaves_view(), local@, 0),
            r <= self.leaves@.len(),
    {
        proof {
            lemma_find_leaf(self.leaves_view(), local@, 0);
        }
        for i in 0..self.leaves.len()
            invariant
                find_leaf(self.leaves_view(), local@, 0) == find_leaf(self.leaves_view(), local@, i as int),
        {
            let seg = crate::bro::last_segment_chars(&self.leaves[i].0);
            if eq_chars(&seg, local) {
                return i;
            }
        }
        self.leaves.len()
    }

    /// The path of the first leaf named `local`, else `root/local`.
    pub fn field_path(&self, local: &[char]) -> (r: Vec<char>)
        ensures
            r@ == field_path_spec(self.leaves_view(), opt_chars(self.root), local@),
    {
        let j = self.leaf_index_of(local);
        if j < self.leaves.len() {
            self.leaves[j].0.clone()
        } else {
            match &self.root {
                Some(root) => {
                    let mut p = root.clone();
                    crate::text::push_str(&mut p, "/");
                    push_all(&mut p, local);
                    p
                },
                None => {
                    let mut p: Vec<char> = Vec::new();
                    push_all(&mut p, local);
                    proof {
                        assert(p@ =~= local@);
                    }
                    p
                },
            }
        }
    }

    fn attribute_at(&self, path: &[char], a: &[char]) -> (r: Option<Vec<char>>)
        ensures
            opt_chars(r) == attr_at(attr_views(self.attributes@), path@, a@),
    {
        let mut i = self.attributes.len();
        proof {
            assert(attr_views(self.attributes@).take(i as int) =~= attr_views(self.attributes@));
        }
        while i > 0
            invariant
                i <= self.attributes@.len(),
                attr_at(attr_views(self.attributes@), path@, a@) == attr_at(
                    attr_views(self.attributes@).take(i as int),
                    path@,
                    a@,
                ),
            decreases i,
        {
            let ghost t = attr_views(self.attributes@).take(i as int);
            proof {
                assert(t.drop_last() =~= attr_views(self.attributes@).take(i - 1));
                assert(t.last() == (self.attributes@[i - 1].0@, pair_views(self.attributes@[i - 1].1@)));
            }
            if eq_chars(&self.attributes[i - 1].0, path) {
                return last_pair_exec(&self.attributes[i - 1].1, a);
            }
            i = i - 1;
        }
        proof {
            assert(attr_views(self.attributes@).take(0) =~= Seq::<(Seq<char>, Seq<(Seq<char>, Seq<char>)>)>::empty());
        }
        None
    }

    /// Attribute `a` of the element at `path` or of its nearest ancestor
    /// that has it.
    pub fn ancestor_attribute(&self, path: &[char], a: &[char]) -> (r: Option<Vec<char>>)
        ensures
            opt_chars(r) == ancestor_attr(attr_views(self.attributes@), path@, a@),
    {
        let mut cur: Vec<char> = Vec::new();
        push_all(&mut cur, path);
        proof {
            assert(cur@ =~= path@);
        }
        loop
            invariant
                ancestor_attr(attr_views(self.attributes@), path@, a@) == ancestor_attr(
                    attr_views(self.attributes@),
                    cur@,
                    a@,
                ),
            decreases cur@.len(),
        {
            match self.attribute_at(&cur, a) {
                Some(v) => {
                    return Some(v);
                },
                None => {},
            }
            proof {
                lemma_last_slash(cur@);
            }
            match last_slash_exec(&cur) {
                Some(k) => {
                    let next = crate::text::slice_vec(&cur, 0, k);
                    cur = next;
                },
                None => {
                    return None;
                },
            }
        }
    }
}

fn last_pair_exec(l: &Vec<(Vec<char>, Vec<char>)>, k: &[char]) -> (r: Option<Vec<char>>)
    ensures
        opt_chars(r) == last_pair(pair_views(l@), k@),
{
    let mut i = l.len();
    proof {
        assert(pair_views(l@).take(i as int) =~= pair_views(l@));
    }
    while i > 0
        invariant
            i <= l@.len(),
            last_pair(pair_views(l@), k@) == last_pair(pair_views(l@).take(i as int), k@),
        decreases i,
    {
        let ghost t = pair_views(l@).take(i as int);
        proof {
            assert(t.drop_last() =~= pair_views(l@).take(i - 1));
            assert(t.last() == (l@[i - 1].0@, l@[i - 1].1@));
        }
        if eq_chars(&l[i - 1].0, k) {
            return Some(l[i - 1].1.clone());
        }
        i = i - 1;
    }
    proof {
        assert(pair_views(l@).take(0) =~= Seq::<(Seq<char>, Seq<char>)>::empty());
    }
    None
}

fn last_slash_exec(s: &[char]) -> (r: Option<usize>)
    ensures
        match r {
            Some(k) => last_slash(s@) == Some(k as int),
            None => last_slash(s@) is None,
        },
{
    let mut i = s.len();
    proof {
        assert(s@.take(i as int) =~= s@);
    }
    while i > 0
        invariant
            i <= s@.len(),
            last_slash(s@) == last_slash(s@.take(i as int)),
        decreases i,
    {
        let ghost t = s@.take(i as int);
        proof {
            assert(t.drop_last() =~= s@.take(i - 1));
            assert(t.last() == s@[i - 1]);
        }
        if s[i - 1] == '/' {
            return Some(i - 1);
        }
        i = i - 1;
    }
    proof {
        assert(s@.take(0) =~= Seq::<char>::empty());
    }
    None
}

} // verus!
