//! XML reading: `quick_xml` turns text into events; the library records
//! them as plain values and works on that record.
//!
//! Reading stops at the end of the document or at the first error the
//! reader reports, so a consumer that stops early sees exactly the events
//! a streaming reader would have shown it.

use vstd::prelude::*;

use quick_xml::events::Event;

verus! {

#[verifier::external_type_specification]
#[verifier::external_body]
#[verifier::reject_recursive_types(R)]
pub struct ExReader<R>(quick_xml::reader::Reader<R>);

#[verifier::external_type_specification]
#[verifier::external_body]
#[verifier::reject_recursive_types(R)]
pub struct ExNsReader<R>(quick_xml::reader::NsReader<R>);

#[verifier::external_type_specification]
#[verifier::external_body]
pub struct ExBytesStart<'a>(quick_xml::events::BytesStart<'a>);

#[verifier::external_type_specification]
#[verifier::external_body]
pub struct ExBytesText<'a>(quick_xml::events::BytesText<'a>);

#[verifier::external_type_specification]
#[verifier::external_body]
pub struct ExAttributes<'a>(quick_xml::events::attributes::Attributes<'a>);

#[verifier::external_type_specification]
#[verifier::external_body]
pub struct ExAttribute<'a>(quick_xml::events::attributes::Attribute<'a>);

#[verifier::external_type_specification]
#[verifier::external_body]
pub struct ExResolveResult<'a>(quick_xml::name::ResolveResult<'a>);

#[verifier::external_type_specification]
#[verifier::external_body]
pub struct ExEvent<'a>(quick_xml::events::Event<'a>);

#[verifier::external_type_specification]
#[verifier::external_body]
pub struct ExAttrError(quick_xml::events::attributes::AttrError);


/// Which kind of event the reader handed out.
pub enum RawKind {
    Start,
    Empty,
    End,
    Text,
    Eof,
    Other,
}

/// A namespace binding as plain values.
pub enum BindingModel {
    Bound(Seq<u8>),
    Unbound,
    Unknown(Seq<u8>),
}

// What `quick_xml` hands out for a text is a function of the text, the
// reader's configuration and how many times it was asked. The names below
// give those results; the reader structures keep, as ghost state, the text
// read and how far, so that each call is tied to its place in that
// sequence.

/// What the `k`-th call of `Reader::read_event` gives on `xml` (text
/// trimmed when `trim`): the kind of event, or the error's message.
pub uninterp spec fn xml_event(xml: Seq<char>, trim: bool, k: nat) -> Result<RawKind, Seq<char>>;

/// `Reader::buffer_position` after `k` calls of `read_event`.
pub uninterp spec fn xml_position(xml: Seq<char>, trim: bool, k: nat) -> u64;

/// `BytesStart::name` of the tag the `k`-th call handed out.
pub uninterp spec fn xml_tag_name(xml: Seq<char>, trim: bool, k: nat) -> Seq<u8>;

/// The `j`-th call of `Iterator::next` on that tag's attributes: none
/// left, an attribute, or the error's message.
pub uninterp spec fn xml_attr_next(xml: Seq<char>, trim: bool, k: nat, j: nat) -> Option<Result<(), Seq<char>>>;

/// `Attribute::key` of that attribute.
pub uninterp spec fn xml_attr_key(xml: Seq<char>, trim: bool, k: nat, j: nat) -> Seq<u8>;

/// `Attribute::unescape_value` of that attribute, or the error's message.
pub uninterp spec fn xml_attr_value(xml: Seq<char>, trim: bool, k: nat, j: nat) -> Result<Seq<char>, Seq<char>>;

/// `Attribute::value` of that attribute, as written.
pub uninterp spec fn xml_attr_raw(xml: Seq<char>, trim: bool, k: nat, j: nat) -> Seq<u8>;

/// `BytesText::unescape` of the text the `k`-th call handed out, or the
/// error's message.
pub uninterp spec fn xml_text(xml: Seq<char>, trim: bool, k: nat) -> Result<Seq<char>, Seq<char>>;

/// What the `k`-th call of `NsReader::read_resolved_event` gives on `xml`:
/// the namespace binding and the kind of event, or the error's message.
pub uninterp spec fn ns_event(xml: Seq<char>, k: nat) -> Result<(BindingModel, RawKind), Seq<char>>;

/// `NsReader::buffer_position` after `k` calls of `read_resolved_event`.
pub uninterp spec fn ns_position(xml: Seq<char>, k: nat) -> u64;

/// `BytesStart::local_name` of the tag the `k`-th call handed out.
pub uninterp spec fn ns_local_name(xml: Seq<char>, k: nat) -> Seq<u8>;

/// A reader over a text, with the text and the number of events read.
pub struct XmlReader<'a> {
    reader: quick_xml::reader::Reader<&'a [u8]>,
    src: Ghost<Seq<char>>,
    trim: Ghost<bool>,
    count: Ghost<nat>,
}

/// A tag handed out by a reader, with the place it was read at.
pub struct Tag<'a> {
    e: quick_xml::events::BytesStart<'a>,
    at: Ghost<(Seq<char>, bool, nat)>,
}

/// A text handed out by a reader, with the place it was read at.
pub struct TextPart<'a> {
    t: quick_xml::events::BytesText<'a>,
    at: Ghost<(Seq<char>, bool, nat)>,
}

/// The attributes of a tag, with the tag's place and how many were asked
/// for.
pub struct Attrs<'a> {
    it: quick_xml::events::attributes::Attributes<'a>,
    at: Ghost<(Seq<char>, bool, nat)>,
    count: Ghost<nat>,
}

/// One attribute, with the tag's place and its own.
pub struct Attr<'a> {
    a: quick_xml::events::attributes::Attribute<'a>,
    at: Ghost<(Seq<char>, bool, nat, nat)>,
}

/// An event as the reader hands it out, before its parts are read.
pub enum RawEvent<'a> {
    Start(Tag<'a>),
    Empty(Tag<'a>),
    End,
    Text(TextPart<'a>),
    Eof,
    Other,
}

pub open spec fn raw_kind(e: RawEvent) -> RawKind {
    match e {
        RawEvent::Start(_) => RawKind::Start,
        RawEvent::Empty(_) => RawKind::Empty,
        RawEvent::End => RawKind::End,
        RawEvent::Text(_) => RawKind::Text,
        RawEvent::Eof => RawKind::Eof,
        RawEvent::Other => RawKind::Other,
    }
}

/// A namespace-resolving reader over a text, with the text and the number
/// of events read.
pub struct NsXmlReader<'a> {
    reader: quick_xml::reader::NsReader<&'a [u8]>,
    src: Ghost<Seq<char>>,
    count: Ghost<nat>,
}

/// A tag handed out by a namespace-resolving reader, with its place.
pub struct NsTag<'a> {
    e: quick_xml::events::BytesStart<'a>,
    at: Ghost<(Seq<char>, nat)>,
}

/// An event of a namespace-resolving reader, before its parts are read.
pub enum NsRawEvent<'a> {
    Start(NsTag<'a>),
    Empty(NsTag<'a>),
    End,
    Text,
    Eof,
    Other,
}

pub open spec fn ns_raw_kind(e: NsRawEvent) -> RawKind {
    match e {
        NsRawEvent::Start(_) => RawKind::Start,
        NsRawEvent::Empty(_) => RawKind::Empty,
        NsRawEvent::End => RawKind::End,
        NsRawEvent::Text => RawKind::Text,
        NsRawEvent::Eof => RawKind::Eof,
        NsRawEvent::Other => RawKind::Other,
    }
}

pub open spec fn binding_model(b: Binding) -> BindingModel {
    match b {
        Binding::Bound(n) => BindingModel::Bound(n@),
        Binding::Unbound => BindingModel::Unbound,
        Binding::Unknown(p) => BindingModel::Unknown(p@),
    }
}

/// Calls `quick_xml::reader::Reader::from_str`.
#[verifier::external_body]
fn reader_of<'a>(xml: &'a str) -> quick_xml::reader::Reader<&'a [u8]> {
    quick_xml::reader::Reader::from_str(xml)
}

impl<'a> XmlReader<'a> {
    /// A reader over `xml` that has read nothing yet.
    fn open(xml: &'a str) -> (r: Self)
        ensures
            r.src@ == xml@,
            r.trim@ == false,
            r.count@ == 0,
    {
        XmlReader { reader: reader_of(xml), src: Ghost(xml@), trim: Ghost(false), count: Ghost(0) }
    }
}

/// Calls `Config::trim_text(true)` on the reader's configuration: text is
/// reported without surrounding whitespace, whitespace-only text not at
/// all.
#[verifier::external_body]
fn set_trim_text(x: &mut XmlReader<'_>)
    requires
        old(x).count@ == 0,
    ensures
        final(x).src == old(x).src,
        final(x).trim@ == true,
        final(x).count == old(x).count,
{
    x.reader.config_mut().trim_text(true);
}

/// Calls `Reader::read_event`; the error is turned into its message.
#[verifier::external_body]
fn read_raw<'a>(x: &mut XmlReader<'a>) -> (r: Result<RawEvent<'a>, String>)
    ensures
        final(x).src == old(x).src,
        final(x).trim == old(x).trim,
        final(x).count@ == old(x).count@ + 1,
        match r {
            Err(m) => xml_event(old(x).src@, old(x).trim@, old(x).count@) == Err::<RawKind, Seq<char>>(m@),
            Ok(e) => xml_event(old(x).src@, old(x).trim@, old(x).count@) == Ok::<RawKind, Seq<char>>(raw_kind(e)),
        },
        r matches Ok(RawEvent::Start(t)) ==> t.at@ == (old(x).src@, old(x).trim@, old(x).count@),
        r matches Ok(RawEvent::Empty(t)) ==> t.at@ == (old(x).src@, old(x).trim@, old(x).count@),
        r matches Ok(RawEvent::Text(t)) ==> t.at@ == (old(x).src@, old(x).trim@, old(x).count@),
{
    let at = Ghost((x.src@, x.trim@, x.count@));
    match x.reader.read_event() {
        Ok(Event::Start(s)) => Ok(RawEvent::Start(Tag { e: s, at })),
        Ok(Event::Empty(s)) => Ok(RawEvent::Empty(Tag { e: s, at })),
        Ok(Event::End(_)) => Ok(RawEvent::End),
        Ok(Event::Text(t)) => Ok(RawEvent::Text(TextPart { t, at })),
        Ok(Event::Eof) => Ok(RawEvent::Eof),
        Ok(_) => Ok(RawEvent::Other),
        Err(e) => Err(e.to_string()),
    }
}

/// Calls `Reader::buffer_position`.
#[verifier::external_body]
fn position_of(x: &XmlReader<'_>) -> (r: u64)
    ensures
        r == xml_position(x.src@, x.trim@, x.count@),
{
    x.reader.buffer_position()
}

/// Calls `quick_xml::reader::NsReader::from_str`.
#[verifier::external_body]
fn ns_reader_of<'a>(xml: &'a str) -> quick_xml::reader::NsReader<&'a [u8]> {
    quick_xml::reader::NsReader::from_str(xml)
}

impl<'a> NsXmlReader<'a> {
    /// A namespace-resolving reader over `xml` that has read nothing yet.
    fn open(xml: &'a str) -> (r: Self)
        ensures
            r.src@ == xml@,
            r.count@ == 0,
    {
        NsXmlReader { reader: ns_reader_of(xml), src: Ghost(xml@), count: Ghost(0) }
    }
}

/// Calls `NsReader::read_resolved_event` and copies the binding into plain
/// bytes (`binding_of`); the error is turned into its message.
#[verifier::external_body]
fn read_resolved_raw<'a>(x: &mut NsXmlReader<'a>) -> (r: Result<(Binding, NsRawEvent<'a>), String>)
    ensures
        final(x).src == old(x).src,
        final(x).count@ == old(x).count@ + 1,
        match r {
            Err(m) => ns_event(old(x).src@, old(x).count@) == Err::<(BindingModel, RawKind), Seq<char>>(m@),
            Ok((b, e)) => ns_event(old(x).src@, old(x).count@) == Ok::<(BindingModel, RawKind), Seq<char>>(
                (binding_model(b), ns_raw_kind(e)),
            ),
        },
        r matches Ok((_, NsRawEvent::Start(t))) ==> t.at@ == (old(x).src@, old(x).count@),
        r matches Ok((_, NsRawEvent::Empty(t))) ==> t.at@ == (old(x).src@, old(x).count@),
{
    let at = Ghost((x.src@, x.count@));
    match x.reader.read_resolved_event() {
        Ok((ns, e)) => Ok((binding_of(ns), match e {
            Event::Start(s) => NsRawEvent::Start(NsTag { e: s, at }),
            Event::Empty(s) => NsRawEvent::Empty(NsTag { e: s, at }),
            Event::End(_) => NsRawEvent::End,
            Event::Text(_) => NsRawEvent::Text,
            Event::Eof => NsRawEvent::Eof,
            _ => NsRawEvent::Other,
        })),
        Err(e) => Err(e.to_string()),
    }
}

/// Copies a `quick_xml::name::ResolveResult` into plain bytes, variant for
/// variant.
#[verifier::external_body]
fn binding_of(ns: quick_xml::name::ResolveResult<'_>) -> Binding {
    match ns {
        quick_xml::name::ResolveResult::Bound(n) => Binding::Bound(n.as_ref().to_vec()),
        quick_xml::name::ResolveResult::Unbound => Binding::Unbound,
        quick_xml::name::ResolveResult::Unknown(p) => Binding::Unknown(p),
    }
}

/// Calls `NsReader::buffer_position`.
#[verifier::external_body]
fn ns_position_of(x: &NsXmlReader<'_>) -> (r: u64)
    ensures
        r == ns_position(x.src@, x.count@),
{
    x.reader.buffer_position()
}

/// Calls `BytesStart::name`: the qualified name's bytes.
#[verifier::external_body]
fn element_name(t: &Tag<'_>) -> (r: Vec<u8>)
    ensures
        r@ == xml_tag_name(t.at@.0, t.at@.1, t.at@.2),
{
    t.e.name().as_ref().to_vec()
}

/// Calls `BytesStart::local_name`: the name's bytes after its prefix.
#[verifier::external_body]
fn element_local_name(t: &NsTag<'_>) -> (r: Vec<u8>)
    ensures
        r@ == ns_local_name(t.at@.0, t.at@.1),
{
    t.e.local_name().as_ref().to_vec()
}

/// Calls `BytesStart::attributes`.
#[verifier::external_body]
fn attributes_of<'a>(t: &'a Tag<'_>) -> (r: Attrs<'a>)
    ensures
        r.at == t.at,
        r.count@ == 0,
{
    Attrs { it: t.e.attributes(), at: Ghost(t.at@), count: Ghost(0) }
}

/// Calls `Iterator::next` on the attributes; an error is turned into its
/// message.
#[verifier::external_body]
fn next_attribute<'a>(a: &mut Attrs<'a>) -> (r: Option<Result<Attr<'a>, String>>)
    ensures
        final(a).at == old(a).at,
        final(a).count@ == old(a).count@ + 1,
        match r {
            None => xml_attr_next(old(a).at@.0, old(a).at@.1, old(a).at@.2, old(a).count@) is None,
            Some(Err(m)) => xml_attr_next(old(a).at@.0, old(a).at@.1, old(a).at@.2, old(a).count@) == Some(
                Err::<(), Seq<char>>(m@),
            ),
            Some(Ok(x)) => xml_attr_next(old(a).at@.0, old(a).at@.1, old(a).at@.2, old(a).count@) == Some(
                Ok::<(), Seq<char>>(()),
            ) && x.at@ == (old(a).at@.0, old(a).at@.1, old(a).at@.2, old(a).count@),
        },
{
    let at = Ghost((a.at@.0, a.at@.1, a.at@.2, a.count@));
    match a.it.next() {
        Some(Ok(x)) => Some(Ok(Attr { a: x, at })),
        Some(Err(e)) => Some(Err(e.to_string())),
        None => None,
    }
}

/// The bytes of an attribute's qualified name (`Attribute::key`).
#[verifier::external_body]
fn attribute_key(x: &Attr<'_>) -> (r: Vec<u8>)
    ensures
        r@ == xml_attr_key(x.at@.0, x.at@.1, x.at@.2, x.at@.3),
{
    x.a.key.as_ref().to_vec()
}

/// Calls `Attribute::unescape_value`; an error is turned into its message.
#[verifier::external_body]
fn attribute_value(x: &Attr<'_>) -> (r: Result<Vec<char>, Vec<char>>)
    ensures
        res_view(r) == xml_attr_value(x.at@.0, x.at@.1, x.at@.2, x.at@.3),
{
    match x.a.unescape_value() {
        Ok(v) => Ok(v.chars().collect()),
        Err(e) => Err(e.to_string().chars().collect()),
    }
}

/// The bytes of an attribute's value as written (`Attribute::value`).
#[verifier::external_body]
fn attribute_raw(x: &Attr<'_>) -> (r: Vec<u8>)
    ensures
        r@ == xml_attr_raw(x.at@.0, x.at@.1, x.at@.2, x.at@.3),
{
    x.a.value.as_ref().to_vec()
}

/// Calls `BytesText::unescape`; an error is turned into its message.
#[verifier::external_body]
fn text_of(t: &TextPart<'_>) -> (r: Result<Vec<char>, Vec<char>>)
    ensures
        res_view(r) == xml_text(t.at@.0, t.at@.1, t.at@.2),
{
    match t.t.unescape() {
        Ok(v) => Ok(v.chars().collect()),
        Err(e) => Err(e.to_string().chars().collect()),
    }
}

pub open spec fn res_view(r: Result<Vec<char>, Vec<char>>) -> Result<Seq<char>, Seq<char>> {
    match r {
        Ok(v) => Ok(v@),
        Err(e) => Err(e@),
    }
}

/// The namespace an element name resolves to.
#[derive(Clone, Debug, PartialEq, Eq)]
pub enum Binding {
    Bound(Vec<u8>),
    Unbound,
    Unknown(Vec<u8>),
}

/// One attribute as read: its qualified name, its unescaped value (or the
/// unescaping error) and its value as written, or an error of the
/// attribute syntax.
#[derive(Debug)]
pub enum AttrItem {
    Attr { key: Vec<u8>, value: Result<Vec<char>, Vec<char>>, raw: Vec<u8> },
    Bad(Vec<char>),
}

/// A start or empty-element tag.
#[derive(Debug)]
pub struct Element {
    /// The qualified name.
    pub name: Vec<u8>,
    /// The attributes in document order, up to and including the first
    /// attribute error.
    pub attrs: Vec<AttrItem>,
}

#[derive(Debug)]
pub enum XmlEvent {
    Start(Element),
    Empty(Element),
    End,
    /// Text content, unescaped (or the unescaping error).
    Text(Result<Vec<char>, Vec<char>>),
    Eof,
    /// Comments, declarations, CDATA, processing instructions, doctype.
    Other,
}

/// An event and the reader's byte position after it.
#[derive(Debug)]
pub struct Token {
    pub event: XmlEvent,
    pub pos: u64,
}

/// The events of a document, and the error that stopped the reader, with
/// the byte position it reported.
#[derive(Debug)]
pub struct Tokens {
    pub events: Vec<Token>,
    pub error: Option<(u64, Vec<char>)>,
}

/// The text `String::from_utf8_lossy` makes of some bytes.
pub uninterp spec fn lossy_text(b: Seq<u8>) -> Seq<char>;

/// Bytes below 128: ASCII text.
pub open spec fn ascii_bytes(b: Seq<u8>) -> bool {
    forall|i: int| 0 <= i < b.len() ==> #[trigger] b[i] < 128
}

/// ASCII bytes taken one for one as characters.
pub open spec fn ascii_chars(b: Seq<u8>) -> Seq<char> {
    b.map_values(|x: u8| x as char)
}

/// Calls `String::from_utf8_lossy`; its result is named by `lossy_text`.
/// As std documents, bytes that are valid UTF-8 decode to the same text
/// as `std::str::from_utf8` gives, and ASCII bytes decode one for one.
#[verifier::external_body]
pub(crate) fn utf8_lossy(b: &[u8]) -> (r: Vec<char>)
    ensures
        r@ == lossy_text(b@),
        utf8_text(b@) matches Some(t) ==> r@ == t,
        ascii_bytes(b@) ==> r@ == ascii_chars(b@),
{
    String::from_utf8_lossy(b).chars().collect()
}

/// The text `std::str::from_utf8` makes of some bytes, when they are UTF-8.
pub uninterp spec fn utf8_text(b: Seq<u8>) -> Option<Seq<char>>;

/// Calls `std::str::from_utf8`; its result is named by `utf8_text`.
/// ASCII bytes are valid UTF-8 and decode one for one.
#[verifier::external_body]
pub(crate) fn utf8_strict(b: &[u8]) -> (r: Option<Vec<char>>)
    ensures
        match r {
            Some(v) => utf8_text(b@) == Some(v@),
            None => utf8_text(b@) is None,
        },
        match r {
            Some(v) => ascii_bytes(b@) ==> v@ == ascii_chars(b@),
            None => !ascii_bytes(b@),
        },
{
    match std::str::from_utf8(b) {
        Ok(s) => Some(s.chars().collect()),
        Err(_) => None,
    }
}


/// An attribute as plain values.
pub enum AttrModel {
    Attr(Seq<u8>, Result<Seq<char>, Seq<char>>, Seq<u8>),
    Bad(Seq<char>),
}

pub open spec fn attr_model(a: AttrItem) -> AttrModel {
    match a {
        AttrItem::Attr { key, value, raw } => AttrModel::Attr(key@, res_view(value), raw@),
        AttrItem::Bad(m) => AttrModel::Bad(m@),
    }
}

/// The attributes of the `k`-th tag from the `j`-th on, read up to the
/// first error (kept) or until `limit` were asked for.
pub open spec fn attrs_from(xml: Seq<char>, trim: bool, k: nat, limit: nat, j: nat) -> Seq<AttrModel>
    decreases limit - j,
{
    if j >= limit {
        seq![]
    } else {
        match xml_attr_next(xml, trim, k, j) {
            None => seq![],
            Some(Err(m)) => seq![AttrModel::Bad(m)],
            Some(Ok(_)) => seq![
                AttrModel::Attr(
                    xml_attr_key(xml, trim, k, j),
                    xml_attr_value(xml, trim, k, j),
                    xml_attr_raw(xml, trim, k, j),
                ),
            ] + attrs_from(xml, trim, k, limit, j + 1),
        }
    }
}

/// Attributes as the reader hands them out: at most `limit` of them, in
/// document order, an attribute error only as the last.
pub open spec fn attrs_read(a: Seq<AttrItem>, limit: usize) -> bool {
    &&& a.len() <= limit
    &&& forall|i: int| 0 <= i < a.len() - 1 ==> #[trigger] a[i] is Attr
}

fn read_attributes(t: &Tag<'_>, limit: usize) -> (r: Vec<AttrItem>)
    ensures
        attrs_read(r@, limit),
        r@.map_values(|a: AttrItem| attr_model(a)) == attrs_from(t.at@.0, t.at@.1, t.at@.2, limit as nat, 0),
{
    let ghost (x, tr, k) = t.at@;
    let mut out: Vec<AttrItem> = Vec::new();
    let mut it = attributes_of(t);
    let mut n: usize = 0;
    while n < limit
        invariant
            n <= limit,
            out@.len() == n,
            it.at@ == (x, tr, k),
            t.at@ == (x, tr, k),
            it.count@ == n,
            forall|i: int| 0 <= i < out@.len() ==> #[trigger] out@[i] is Attr,
            out@.map_values(|a: AttrItem| attr_model(a)) + attrs_from(x, tr, k, limit as nat, n as nat) == attrs_from(
                x,
                tr,
                k,
                limit as nat,
                0,
            ),
        decreases limit - n,
    {
        let ghost before = out@;
        match next_attribute(&mut it) {
            None => {
                proof {
                    assert(attrs_from(x, tr, k, limit as nat, n as nat) =~= Seq::<AttrModel>::empty());
                    assert(out@.map_values(|a: AttrItem| attr_model(a)) + Seq::<AttrModel>::empty()
                        =~= out@.map_values(|a: AttrItem| attr_model(a)));
                    assert(out@.map_values(|a: AttrItem| attr_model(a)) == attrs_from(x, tr, k, limit as nat, 0));
                    assert((x, tr, k) == t.at@);
                }
                return out;
            },
            Some(Err(msg)) => {
                let m = crate::text::chars_of(msg.as_str());
                out.push(AttrItem::Bad(m));
                proof {
                    assert(attrs_from(x, tr, k, limit as nat, n as nat) =~= seq![AttrModel::Bad(msg@)]);
                    assert(out@.map_values(|a: AttrItem| attr_model(a)) =~= before.map_values(
                        |a: AttrItem| attr_model(a),
                    ) + seq![AttrModel::Bad(msg@)]);
                    assert(out@.map_values(|a: AttrItem| attr_model(a)) == attrs_from(x, tr, k, limit as nat, 0));
                    assert((x, tr, k) == t.at@);
                }
                return out;
            },
            Some(Ok(at)) => {
                let key = attribute_key(&at);
                let value = attribute_value(&at);
                let raw = attribute_raw(&at);
                let item = AttrItem::Attr { key, value, raw };
                let ghost am = attr_model(item);
                out.push(item);
                proof {
                    assert(am == AttrModel::Attr(
                        xml_attr_key(x, tr, k, n as nat),
                        xml_attr_value(x, tr, k, n as nat),
                        xml_attr_raw(x, tr, k, n as nat),
                    ));
                    assert(attrs_from(x, tr, k, limit as nat, n as nat) =~= seq![am] + attrs_from(
                        x,
                        tr,
                        k,
                        limit as nat,
                        (n + 1) as nat,
                    ));
                    assert(out@.map_values(|a: AttrItem| attr_model(a)) =~= before.map_values(
                        |a: AttrItem| attr_model(a),
                    ).push(am));
                    assert(before.map_values(|a: AttrItem| attr_model(a)).push(am) + attrs_from(
                        x,
                        tr,
                        k,
                        limit as nat,
                        (n + 1) as nat,
                    ) =~= before.map_values(|a: AttrItem| attr_model(a)) + (seq![am] + attrs_from(
                        x,
                        tr,
                        k,
                        limit as nat,
                        (n + 1) as nat,
                    )));
                }
            },
        }
        n = n + 1;
    }
    proof {
        assert(attrs_from(x, tr, k, limit as nat, n as nat) =~= Seq::<AttrModel>::empty());
        assert(out@.map_values(|a: AttrItem| attr_model(a)) + Seq::<AttrModel>::empty() =~= out@.map_values(
            |a: AttrItem| attr_model(a),
        ));
    }
    out
}

fn element_of(t: &Tag<'_>, limit: usize) -> (r: Element)
    ensures
        attrs_read(r.attrs@, limit),
        r.name@ == xml_tag_name(t.at@.0, t.at@.1, t.at@.2),
        r.attrs@.map_values(|a: AttrItem| attr_model(a)) == attrs_from(t.at@.0, t.at@.1, t.at@.2, limit as nat, 0),
{
    Element { name: element_name(t), attrs: read_attributes(t, limit) }
}

/// The token is what the `k`-th read of `xml` handed out.
pub open spec fn event_is(t: Token, xml: Seq<char>, trim: bool, k: nat, limit: nat) -> bool {
    &&& t.pos == xml_position(xml, trim, k + 1)
    &&& match t.event {
        XmlEvent::Start(el) => xml_event(xml, trim, k) == Ok::<RawKind, Seq<char>>(RawKind::Start) && el.name@
            == xml_tag_name(xml, trim, k) && el.attrs@.map_values(|a: AttrItem| attr_model(a)) == attrs_from(
            xml,
            trim,
            k,
            limit,
            0,
        ),
        XmlEvent::Empty(el) => xml_event(xml, trim, k) == Ok::<RawKind, Seq<char>>(RawKind::Empty) && el.name@
            == xml_tag_name(xml, trim, k) && el.attrs@.map_values(|a: AttrItem| attr_model(a)) == attrs_from(
            xml,
            trim,
            k,
            limit,
            0,
        ),
        XmlEvent::End => xml_event(xml, trim, k) == Ok::<RawKind, Seq<char>>(RawKind::End),
        XmlEvent::Text(r) => xml_event(xml, trim, k) == Ok::<RawKind, Seq<char>>(RawKind::Text) && res_view(r)
            == xml_text(xml, trim, k),
        XmlEvent::Eof => xml_event(xml, trim, k) == Ok::<RawKind, Seq<char>>(RawKind::Eof),
        XmlEvent::Other => xml_event(xml, trim, k) == Ok::<RawKind, Seq<char>>(RawKind::Other),
    }
}

/// `t` is what reading `xml` gives: each event as the reader handed it
/// out, up to the end of the document, the reader's first error, or
/// `limit + 1` events, after which the document is taken to end.
pub open spec fn tokens_of(t: Tokens, xml: Seq<char>, trim: bool, limit: nat) -> bool {
    let evs = t.events@;
    let m = evs.len();
    match t.error {
        Some((p, msg)) => {
            &&& m <= limit
            &&& forall|i: int| 0 <= i < m ==> event_is(#[trigger] evs[i], xml, trim, i as nat, limit) && !(evs[i].event is Eof)
            &&& xml_event(xml, trim, m) == Err::<RawKind, Seq<char>>(msg@)
            &&& p == xml_position(xml, trim, m + 1)
        },
        None => {
            &&& m >= 1
            &&& evs[m - 1].event is Eof
            &&& forall|i: int| 0 <= i < m - 1 ==> event_is(#[trigger] evs[i], xml, trim, i as nat, limit) && !(
                evs[i].event is Eof)
            &&& ((m - 1 <= limit && event_is(evs[m - 1], xml, trim, (m - 1) as nat, limit)) || (m - 1 == limit + 1
                && evs[m - 1].pos == xml_position(xml, trim, limit + 1)))
        },
    }
}

/// The length of a text in UTF-8 bytes (what `str::len` gives).
pub open spec fn text_len(xml: &str) -> nat {
    xml.len() as nat
}

/// Events as the XML reader hands them out: the last one ends the
/// document, unless the reader stopped on an error.
pub open spec fn events_read(t: Tokens) -> bool {
    t.error is None ==> t.events@.len() > 0 && t.events@.last().event is Eof
}

/// Reads `xml` into events, with surrounding whitespace of text removed
/// when `trim` is set. Each event of the document takes at least one byte,
/// so at most `xml.len()` events come before the end.
pub fn tokenize(xml: &str, trim: bool) -> (r: Tokens)
    ensures
        tokens_of(r, xml@, trim, text_len(xml)),
        events_read(r),
{
    let limit = xml.len();
    let mut reader = XmlReader::open(xml);
    if trim {
        set_trim_text(&mut reader);
    }
    let ghost lim = limit as nat;
    let mut events: Vec<Token> = Vec::new();
    let mut n: u128 = 0;
    while n <= limit as u128
        invariant
            limit == text_len(xml),
            lim == limit as nat,
            n <= limit + 1,
            reader.src@ == xml@,
            reader.trim@ == trim,
            reader.count@ == n,
            events@.len() == n,
            forall|i: int| 0 <= i < events@.len() ==> event_is(#[trigger] events@[i], xml@, trim, i as nat, lim) && !(
                events@[i].event is Eof),
        decreases limit + 1 - n,
    {
        let ev = read_raw(&mut reader);
        let pos = position_of(&reader);
        let ghost k = n as nat;
        match ev {
            Err(msg) => {
                let r = Tokens { events, error: Some((pos, crate::text::chars_of(msg.as_str()))) };
                return r;
            },
            Ok(RawEvent::Start(e)) => {
                let tok = Token { event: XmlEvent::Start(element_of(&e, limit)), pos };
                proof {
                    assert(event_is(tok, xml@, trim, k, lim));
                }
                events.push(tok);
            },
            Ok(RawEvent::Empty(e)) => {
                let tok = Token { event: XmlEvent::Empty(element_of(&e, limit)), pos };
                proof {
                    assert(event_is(tok, xml@, trim, k, lim));
                }
                events.push(tok);
            },
            Ok(RawEvent::End) => {
                events.push(Token { event: XmlEvent::End, pos });
            },
            Ok(RawEvent::Text(t)) => {
                let tok = Token { event: XmlEvent::Text(text_of(&t)), pos };
                proof {
                    assert(event_is(tok, xml@, trim, k, lim));
                }
                events.push(tok);
            },
            Ok(RawEvent::Other) => {
                events.push(Token { event: XmlEvent::Other, pos });
            },
            Ok(RawEvent::Eof) => {
                events.push(Token { event: XmlEvent::Eof, pos });
                return Tokens { events, error: None };
            },
        }
        n = n + 1;
    }
    let pos = position_of(&reader);
    events.push(Token { event: XmlEvent::Eof, pos });
    Tokens { events, error: None }
}


/// A start or empty-element tag with the namespace of its name.
#[derive(Clone, Debug)]
pub struct NsToken {
    /// `Some` for start and empty-element tags: the namespace binding and
    /// the local name.
    pub element: Option<(Binding, Vec<u8>)>,
    pub eof: bool,
    pub pos: u64,
}

/// The token is what the `k`-th read of `xml` with namespaces handed out.
pub open spec fn ns_token_is(t: NsToken, xml: Seq<char>, k: nat) -> bool {
    &&& t.pos == ns_position(xml, k + 1)
    &&& match ns_event(xml, k) {
        Ok((b, kind)) => match kind {
            RawKind::Start | RawKind::Empty => !t.eof && (t.element matches Some((bb, ln)) && binding_model(bb) == b
                && ln@ == ns_local_name(xml, k)),
            RawKind::Eof => t.eof && t.element is None,
            _ => !t.eof && t.element is None,
        },
        Err(_) => false,
    }
}

/// `toks` and `err` are what reading `xml` with namespaces gives, as
/// `tokens_of` says of the plain reader.
pub open spec fn ns_tokens_of(toks: Seq<NsToken>, err: Option<(u64, Vec<char>)>, xml: Seq<char>, limit: nat) -> bool {
    let m = toks.len();
    match err {
        Some((p, msg)) => {
            &&& m <= limit
            &&& forall|i: int| 0 <= i < m ==> ns_token_is(#[trigger] toks[i], xml, i as nat) && !toks[i].eof
            &&& ns_event(xml, m) == Err::<(BindingModel, RawKind), Seq<char>>(msg@)
            &&& p == ns_position(xml, m + 1)
        },
        None => {
            &&& m >= 1
            &&& toks[m - 1].eof
            &&& forall|i: int| 0 <= i < m - 1 ==> ns_token_is(#[trigger] toks[i], xml, i as nat) && !toks[i].eof
            &&& ((m - 1 <= limit && ns_token_is(toks[m - 1], xml, (m - 1) as nat)) || (m - 1 == limit + 1
                && toks[m - 1].pos == ns_position(xml, limit + 1) && toks[m - 1].element is None))
        },
    }
}

/// Namespace-resolved events as the reader hands them out, with the error
/// that stopped it, if any.
pub open spec fn ns_events_read(toks: Seq<NsToken>, err: Option<(u64, Vec<char>)>) -> bool {
    err is None ==> toks.len() > 0 && toks.last().eof
}

/// Reads `xml` with namespace resolution, keeping for each event whether it
/// is a tag (and its namespace and local name) or the end.
pub fn tokenize_ns(xml: &str) -> (r: (Vec<NsToken>, Option<(u64, Vec<char>)>))
    ensures
        ns_tokens_of(r.0@, r.1, xml@, text_len(xml)),
        ns_events_read(r.0@, r.1),
{
    let limit = xml.len();
    let mut reader = NsXmlReader::open(xml);
    let mut events: Vec<NsToken> = Vec::new();
    let mut n: u128 = 0;
    while n <= limit as u128
        invariant
            limit == text_len(xml),
            n <= limit + 1,
            reader.src@ == xml@,
            reader.count@ == n,
            events@.len() == n,
            forall|i: int| 0 <= i < events@.len() ==> ns_token_is(#[trigger] events@[i], xml@, i as nat) && !events@[i].eof,
        decreases limit + 1 - n,
    {
        let ev = read_resolved_raw(&mut reader);
        let pos = ns_position_of(&reader);
        let ghost k = n as nat;
        match ev {
            Err(msg) => {
                return (events, Some((pos, crate::text::chars_of(msg.as_str()))));
            },
            Ok((b, NsRawEvent::Start(e))) => {
                let tok = NsToken { element: Some((b, element_local_name(&e))), eof: false, pos };
                proof {
                    assert(ns_token_is(tok, xml@, k));
                }
                events.push(tok);
            },
            Ok((b, NsRawEvent::Empty(e))) => {
                let tok = NsToken { element: Some((b, element_local_name(&e))), eof: false, pos };
                proof {
                    assert(ns_token_is(tok, xml@, k));
                }
                events.push(tok);
            },
            Ok((_, NsRawEvent::Eof)) => {
                events.push(NsToken { element: None, eof: true, pos });
                return (events, None);
            },
            Ok(_) => {
                events.push(NsToken { element: None, eof: false, pos });
            },
        }
        n = n + 1;
    }
    let pos = ns_position_of(&reader);
    events.push(NsToken { element: None, eof: true, pos });
    (events, None)
}

} // verus!
