//! BRO (Basisregistratie Ondergrond) XML documents: detection of the
//! document family and schema version, and typed readers for CPT, BHR-GT
//! and BHR-G documents.

pub mod reference_codes;
pub mod collect;
pub mod metadata;
pub mod cpt;
pub mod document;
pub mod bhr_g;
pub mod bhr_gt;

use vstd::prelude::*;

use crate::number::{int_parse, nat_text, nat_chars, parse_u32};
use crate::text::{chars_of, eq_chars, find_char, find_char_exec, push_str, slice_vec, string_of};
use crate::xml::{Binding, NsToken, lossy_text, ns_tokens_of, text_len, tokenize_ns, utf8_lossy};

verus! {

/// The supported BRO document families.
#[derive(Clone, Copy, Debug, PartialEq, Eq, Structural)]
pub enum BroDocumentType {
    Cpt,
    BhrGt,
    BhrG,
}

/// A schema version `major.minor`.
#[derive(Clone, Copy, Debug, PartialEq, Eq)]
pub struct SchemaVersion {
    pub major: u16,
    pub minor: u16,
}

impl SchemaVersion {
    pub fn new(major: u16, minor: u16) -> (r: Self)
        ensures
            r.major == major,
            r.minor == minor,
    {
        SchemaVersion { major, minor }
    }
}

/// The family and schema version of a document.
#[derive(Clone, Copy, Debug, PartialEq, Eq)]
pub struct DetectedDocument {
    pub document_type: BroDocumentType,
    pub schema_version: SchemaVersion,
}

/// Options of the typed readers.
#[derive(Clone, Copy, Debug, PartialEq, Eq)]
pub struct ParseOptions {
    /// Keep the XML text in the parsed document.
    pub retain_source: bool,
}

impl ParseOptions {
    /// The default: the source is not kept.
    pub fn new() -> (r: Self)
        ensures
            !r.retain_source,
    {
        ParseOptions { retain_source: false }
    }
}

/// An error encountered while detecting or parsing a BRO XML document.
#[derive(Debug)]
pub enum BroError {
    /// The input is not well-formed XML.
    InvalidXml { position: Option<u64>, message: String },
    /// The root element does not identify a supported BRO document family.
    UnsupportedDocument { root: String },
    /// The document family is known but its schema version is unsupported.
    UnsupportedSchema { document: BroDocumentType, version: String },
    /// A typed parser received a different supported document family.
    UnexpectedDocumentType { expected: BroDocumentType, found: BroDocumentType },
    /// A required XML field is absent.
    MissingField { path: String },
    /// A field contains a value that cannot be interpreted safely.
    InvalidValue { path: String, value: String },
}

/// A BRO error as plain values.
pub enum BroFailure {
    InvalidXml(Option<u64>, Seq<char>),
    UnsupportedDocument(Seq<char>),
    UnsupportedSchema(BroDocumentType, Seq<char>),
    UnexpectedDocumentType(BroDocumentType, BroDocumentType),
    MissingField(Seq<char>),
    InvalidValue(Seq<char>, Seq<char>),
}

impl View for BroError {
    type V = BroFailure;

    open spec fn view(&self) -> BroFailure {
        match self {
            BroError::InvalidXml { position, message } => BroFailure::InvalidXml(*position, message@),
            BroError::UnsupportedDocument { root } => BroFailure::UnsupportedDocument(root@),
            BroError::UnsupportedSchema { document, version } => BroFailure::UnsupportedSchema(
                *document,
                version@,
            ),
            BroError::UnexpectedDocumentType { expected, found } => BroFailure::UnexpectedDocumentType(
                *expected,
                *found,
            ),
            BroError::MissingField { path } => BroFailure::MissingField(path@),
            BroError::InvalidValue { path, value } => BroFailure::InvalidValue(path@, value@),
        }
    }
}

/// The family and supported schema version of a root element name.
pub open spec fn supported_spec(local: Seq<char>) -> Option<(BroDocumentType, SchemaVersion)> {
    if local == "CPT_O"@ {
        Some((BroDocumentType::Cpt, SchemaVersion { major: 1, minor: 1 }))
    } else if local == "BHR_GT_O"@ {
        Some((BroDocumentType::BhrGt, SchemaVersion { major: 2, minor: 1 }))
    } else if local == "BHR_G_O"@ {
        Some((BroDocumentType::BhrG, SchemaVersion { major: 3, minor: 1 }))
    } else {
        None
    }
}

pub fn supported_document(local: &[char]) -> (r: Option<(BroDocumentType, SchemaVersion)>)
    ensures
        r == supported_spec(local@),
{
    if eq_chars(local, &chars_of("CPT_O")) {
        Some((BroDocumentType::Cpt, SchemaVersion::new(1, 1)))
    } else if eq_chars(local, &chars_of("BHR_GT_O")) {
        Some((BroDocumentType::BhrGt, SchemaVersion::new(2, 1)))
    } else if eq_chars(local, &chars_of("BHR_G_O")) {
        Some((BroDocumentType::BhrG, SchemaVersion::new(3, 1)))
    } else {
        None
    }
}

/// The schema version supported for a document family.
pub open spec fn supported_version(t: BroDocumentType) -> SchemaVersion {
    match t {
        BroDocumentType::Cpt => SchemaVersion { major: 1, minor: 1 },
        BroDocumentType::BhrGt => SchemaVersion { major: 2, minor: 1 },
        BroDocumentType::BhrG => SchemaVersion { major: 3, minor: 1 },
    }
}

/// `s` without trailing `/`.
pub open spec fn trim_end_slashes(s: Seq<char>) -> Seq<char>
    decreases s.len(),
{
    if s.len() > 0 && s.last() == '/' {
        trim_end_slashes(s.drop_last())
    } else {
        s
    }
}

/// What follows the last `/` (all of `s` without one).
pub open spec fn last_segment(s: Seq<char>) -> Seq<char>
    decreases s.len(),
{
    if s.len() == 0 {
        s
    } else if s.last() == '/' {
        seq![]
    } else {
        last_segment(s.drop_last()).push(s.last())
    }
}

/// The schema version at the end of a namespace URI, such as
/// `http://www.broservices.nl/xsd/dscpt/1.1`.
pub open spec fn version_spec(ns: Seq<char>) -> Option<SchemaVersion> {
    let suffix = last_segment(trim_end_slashes(ns));
    let d = find_char(suffix, '.', 0);
    if d >= suffix.len() {
        None
    } else {
        match (
            int_parse(suffix.subrange(0, d), false, 0, u16::MAX as int),
            int_parse(suffix.subrange(d + 1, suffix.len() as int), false, 0, u16::MAX as int),
        ) {
            (Some(a), Some(b)) => Some(SchemaVersion { major: a as u16, minor: b as u16 }),
            _ => None,
        }
    }
}

pub fn last_segment_chars(s: &[char]) -> (r: Vec<char>)
    ensures
        r@ == last_segment(s@),
{
    let mut k = s.len();
    proof {
        assert(s@.take(k as int) =~= s@);
        assert(s@.subrange(k as int, s@.len() as int) =~= Seq::<char>::empty());
        assert(last_segment(s@) + Seq::<char>::empty() =~= last_segment(s@));
    }
    while k > 0 && s[k - 1] != '/'
        invariant
            k <= s@.len(),
            last_segment(s@) == last_segment(s@.take(k as int)) + s@.subrange(k as int, s@.len() as int),
        decreases k,
    {
        proof {
            let t = s@.take(k as int);
            assert(t.drop_last() =~= s@.take(k - 1));
            assert(t.last() == s@[k - 1]);
            assert(last_segment(t) == last_segment(s@.take(k - 1)).push(s@[k - 1]));
            assert(last_segment(s@.take(k - 1)).push(s@[k - 1]) + s@.subrange(k as int, s@.len() as int)
                =~= last_segment(s@.take(k - 1)) + s@.subrange(k - 1, s@.len() as int));
        }
        k = k - 1;
    }
    proof {
        let t = s@.take(k as int);
        if k == 0 {
            assert(last_segment(t) == Seq::<char>::empty());
        } else {
            assert(t.last() == '/');
            assert(last_segment(t) == Seq::<char>::empty());
        }
        assert(Seq::<char>::empty() + s@.subrange(k as int, s@.len() as int) =~= s@.subrange(
            k as int,
            s@.len() as int,
        ));
    }
    slice_vec(s, k, s.len())
}

fn trim_end_slashes_exec(s: &[char]) -> (r: Vec<char>)
    ensures
        r@ == trim_end_slashes(s@),
{
    let mut k = s.len();
    proof {
        assert(s@.take(k as int) =~= s@);
    }
    while k > 0 && s[k - 1] == '/'
        invariant
            k <= s@.len(),
            trim_end_slashes(s@) == trim_end_slashes(s@.take(k as int)),
        decreases k,
    {
        proof {
            assert(s@.take(k as int).drop_last() =~= s@.take(k - 1));
        }
        k = k - 1;
    }
    proof {
        assert(s@.take(k as int) =~= s@.subrange(0, k as int));
    }
    slice_vec(s, 0, k)
}

fn parse_u16(s: &[char]) -> (r: Option<u16>)
    ensures
        match r {
            Some(v) => int_parse(s@, false, 0, u16::MAX as int) == Some(v as int),
            None => int_parse(s@, false, 0, u16::MAX as int) is None,
        },
{
    match parse_u32(s) {
        Some(v) => {
            if v <= 65535 {
                Some(v as u16)
            } else {
                None
            }
        },
        None => None,
    }
}

pub fn parse_version(ns: &[char]) -> (r: Option<SchemaVersion>)
    ensures
        r == version_spec(ns@),
{
    let t = trim_end_slashes_exec(ns);
    let suffix = last_segment_chars(&t);
    let d = find_char_exec(&suffix, '.', 0);
    if d >= suffix.len() {
        return None;
    }
    let a = slice_vec(&suffix, 0, d);
    let b = slice_vec(&suffix, d + 1, suffix.len());
    match (parse_u16(&a), parse_u16(&b)) {
        (Some(x), Some(y)) => Some(SchemaVersion::new(x, y)),
        _ => None,
    }
}

/// `major.minor`.
pub open spec fn version_text(v: SchemaVersion) -> Seq<char> {
    nat_text(v.major as nat) + "."@ + nat_text(v.minor as nat)
}

pub fn version_string(v: SchemaVersion) -> (r: String)
    ensures
        r@ == version_text(v),
{
    let mut out = nat_chars(v.major as u128);
    push_str(&mut out, ".");
    let mut m = nat_chars(v.minor as u128);
    out.append(&mut m);
    string_of(&out)
}

pub open spec fn binding_text(b: Binding) -> Seq<char> {
    match b {
        Binding::Bound(n) => lossy_text(n@),
        Binding::Unbound => seq![],
        Binding::Unknown(p) => lossy_text(p@),
    }
}

/// Detection from namespace-resolved events, from event `i` on, with the
/// root element name seen so far.
pub open spec fn detect_from(
    toks: Seq<NsToken>,
    err: Option<(u64, Vec<char>)>,
    i: int,
    root: Option<Seq<char>>,
) -> Result<DetectedDocument, BroFailure>
    decreases toks.len() - i,
{
    if i < 0 || i >= toks.len() {
        match err {
            Some((p, m)) => Err(BroFailure::InvalidXml(Some(p), m@)),
            None => Err(BroFailure::UnsupportedDocument(
                match root {
                    Some(r) => r,
                    None => seq![],
                },
            )),
        }
    } else if toks[i].eof {
        Err(BroFailure::UnsupportedDocument(
            match root {
                Some(r) => r,
                None => seq![],
            },
        ))
    } else {
        match toks[i].element {
            Some((b, l)) => {
                let local = lossy_text(l@);
                let root2 = match root {
                    Some(r) => Some(r),
                    None => Some(local),
                };
                match supported_spec(local) {
                    None => detect_from(toks, err, i + 1, root2),
                    Some((ty, ver)) => {
                        let ns = binding_text(b);
                        match version_spec(ns) {
                            None => Err(BroFailure::UnsupportedSchema(ty, ns)),
                            Some(v) => if v != ver {
                                Err(BroFailure::UnsupportedSchema(ty, version_text(v)))
                            } else {
                                Ok(DetectedDocument { document_type: ty, schema_version: v })
                            },
                        }
                    },
                }
            },
            None => detect_from(toks, err, i + 1, root),
        }
    }
}

/// Detection over the events of a document.
pub open spec fn detect_spec(toks: Seq<NsToken>, err: Option<(u64, Vec<char>)>) -> Result<
    DetectedDocument,
    BroFailure,
> {
    detect_from(toks, err, 0, None)
}

/// Finds the first element naming a supported document family and checks
/// its namespace's schema version.
pub fn detect_events(toks: &Vec<NsToken>, err: &Option<(u64, Vec<char>)>) -> (r: Result<
    DetectedDocument,
    BroError,
>)
    ensures
        match r {
            Ok(d) => detect_spec(toks@, *err) == Ok::<DetectedDocument, BroFailure>(d),
            Err(e) => detect_spec(toks@, *err) == Err::<DetectedDocument, BroFailure>(e@),
        },
        r matches Ok(d) ==> d.schema_version == supported_version(d.document_type),
{
    let mut root: Option<Vec<char>> = None;
    for i in 0..toks.len()
        invariant
            detect_spec(toks@, *err) == detect_from(
                toks@,
                *err,
                i as int,
                match root {
                    Some(r) => Some(r@),
                    None => None,
                },
            ),
    {
        let t = &toks[i];
        if t.eof {
            let r = match root {
                Some(r) => string_of(&r),
                None => String::new(),
            };
            return Err(BroError::UnsupportedDocument { root: r });
        }
        match &t.element {
            Some((b, l)) => {
                let local = utf8_lossy(l);
                if root.is_none() {
                    root = Some(local.clone());
                }
                match supported_document(&local) {
                    None => {},
                    Some((ty, ver)) => {
                        let ns = match b {
                            Binding::Bound(n) => utf8_lossy(n),
                            Binding::Unbound => Vec::new(),
                            Binding::Unknown(p) => utf8_lossy(p),
                        };
                        match parse_version(&ns) {
                            None => {
                                return Err(
                                    BroError::UnsupportedSchema { document: ty, version: string_of(&ns) },
                                );
                            },
                            Some(v) => {
                                if v.major != ver.major || v.minor != ver.minor {
                                    return Err(
                                        BroError::UnsupportedSchema {
                                            document: ty,
                                            version: version_string(v),
                                        },
                                    );
                                }
                                return Ok(DetectedDocument { document_type: ty, schema_version: v });
                            },
                        }
                    },
                }
            },
            None => {},
        }
    }
    match err {
        Some((p, m)) => Err(BroError::InvalidXml { position: Some(*p), message: string_of(m) }),
        None => {
            let r = match root {
                Some(r) => string_of(&r),
                None => String::new(),
            };
            Err(BroError::UnsupportedDocument { root: r })
        },
    }
}

/// `r` is what detection gives for the events `toks` and the reader's
/// error `err`.
pub open spec fn detected_from(r: Result<DetectedDocument, BroError>, toks: Seq<NsToken>, err: Option<(u64, Vec<char>)>) -> bool {
    match r {
        Ok(d) => detect_spec(toks, err) == Ok::<DetectedDocument, BroFailure>(d),
        Err(e) => detect_spec(toks, err) == Err::<DetectedDocument, BroFailure>(e@),
    }
}

/// Detects the BRO document family and schema version of `xml` from the
/// first element that names a supported family.
///
/// The result is what `detect_spec` gives for the events the XML reader
/// hands out for `xml`,
/// each event being what the reader's named results give at its place
/// in `xml` (see `tokens_of`).
pub fn detect(xml: &str) -> (r: Result<DetectedDocument, BroError>)
    ensures
        exists|toks: Seq<NsToken>, err: Option<(u64, Vec<char>)>|
            ns_tokens_of(toks, err, xml@, text_len(xml)) && #[trigger] detected_from(r, toks, err),
        r matches Ok(d) ==> d.schema_version == supported_version(d.document_type),
{
    let (toks, err) = tokenize_ns(xml);
    let r = detect_events(&toks, &err);
    proof {
        assert(detected_from(r, toks@, err));
    }
    r
}

} // verus!
