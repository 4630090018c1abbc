//! Typed readers of BRO documents from their events, and the entry points
//! that read XML text.

use vstd::prelude::*;

use crate::bro::{BroDocumentType, BroError, BroFailure, DetectedDocument, ParseOptions, detect, detected_from};
use crate::bro::collect::{
    CollectModel,
    CollectedXml,
    collect_events,
    collect_spec,
    field_path_spec,
    leaf_value,
    local_name,
    local_name_spec,
    opt_chars,
};
use crate::bro::cpt::{
    CptDocument,
    CptMeasurement,
    measurement_simple,
    measurements_spec,
    optional_number,
    optional_number_exec,
    parse_measurements,
    result_values,
    result_values_path,
    sort_by_depth,
    sort_measurements,
};
use crate::bro::metadata::{
    CommonMetadata,
    CommonModel,
    common_as,
    common_metadata,
    common_spec,
    opt_string,
    required,
    required_spec,
};
use crate::number::{Number, simple};
use crate::text::{chars_of, eq_chars, string_of};
use crate::xml::{NsToken, Tokens, XmlEvent, events_read, ns_tokens_of, text_len, tokens_of, tokenize};

use crate::bro::bhr_g::{IntervalModel, intervals_spec, intervals_from_events, sort_by_upper, sort_exec};
use crate::bro::bhr_gt::{GeotechnicalInterval, GtIntervalModel, gt_model, gt_intervals, gt_intervals_as};

verus! {

/// A BRO CPT document as plain values.
pub struct CptModel {
    pub common: CommonModel,
    pub final_depth: Option<Number>,
    pub cone_type: Option<Seq<char>>,
    pub measurements: Seq<CptMeasurement>,
}

/// The measurements (sorted by depth) and final depth of a collected CPT.
pub open spec fn cpt_data_spec(leaves: Seq<(Seq<char>, Seq<char>)>, root: Option<Seq<char>>) -> Result<
    (Seq<CptMeasurement>, Option<Number>),
    BroFailure,
> {
    let path = result_values_path(leaves, root);
    match required_spec(result_values(leaves), path) {
        Err(f) => Err(f),
        Ok(values) => match measurements_spec(values, path) {
            Err(f) => Err(f),
            Ok(ms) => if ms.len() == 0 {
                Err(BroFailure::MissingField(path))
            } else {
                match (match leaf_value(leaves, "finalDepth"@) {
                    None => Ok(None),
                    Some(v) => optional_number(v, field_path_spec(leaves, root, "finalDepth"@)),
                }) {
                    Err(f) => Err(f),
                    Ok(fd) => Ok((sort_by_depth(ms), fd)),
                }
            },
        },
    }
}

/// Reading a CPT document from its detected type and its events.
pub open spec fn cpt_doc_spec(det: DetectedDocument, toks: Tokens) -> Result<(CollectModel, CptModel), BroFailure> {
    if det.document_type != BroDocumentType::Cpt {
        Err(BroFailure::UnexpectedDocumentType(BroDocumentType::Cpt, det.document_type))
    } else {
        match collect_spec(toks) {
            Err((p, m)) => Err(BroFailure::InvalidXml(Some(p), m)),
            Ok(c) => match common_spec(c.leaves, c.attrs, c.root) {
                Err(f) => Err(f),
                Ok(cm) => match cpt_data_spec(c.leaves, c.root) {
                    Err(f) => Err(f),
                    Ok((ms, fd)) => Ok(
                        (
                            c,
                            CptModel {
                                common: cm,
                                final_depth: fd,
                                cone_type: leaf_value(c.leaves, "coneType"@),
                                measurements: ms,
                            },
                        ),
                    ),
                },
            },
        }
    }
}

/// Dates that exist and numbers read from text.
pub open spec fn cpt_doc_ok(d: CptDocument) -> bool {
    &&& crate::bro::metadata::common_ok(d.common)
    &&& forall|j: int| 0 <= j < d.measurements@.len() ==> measurement_simple(#[trigger] d.measurements@[j])
    &&& (d.final_depth matches Some(n) ==> simple(n))
}

pub open spec fn cpt_doc_as(d: CptDocument, m: CptModel, v: crate::bro::SchemaVersion, c: CollectModel) -> bool {
    &&& common_as(d.common, m.common, v, c.leaves)
    &&& d.final_depth == m.final_depth
    &&& opt_string(d.cone_type) == m.cone_type
    &&& d.measurements@ == m.measurements
}

fn error_of_collect(toks: &Tokens) -> (r: Result<CollectedXml, BroError>)
    ensures
        match r {
            Ok(c) => collect_spec(*toks) matches Ok(m) && crate::bro::collect::collected_as(c, m),
            Err(e) => collect_spec(*toks) matches Err((p, msg)) && e@ == BroFailure::InvalidXml(
                Some(p),
                msg,
            ),
        },
{
    collect_events(toks)
}

fn cpt_data(collected: &CollectedXml) -> (r: Result<(Vec<CptMeasurement>, Option<Number>), BroError>)
    ensures
        match r {
            Ok((ms, fd)) => cpt_data_spec(collected.leaves_view(), opt_chars(collected.root)) == Ok::<
                (Seq<CptMeasurement>, Option<Number>),
                BroFailure,
            >((ms@, fd)) && (forall|j: int| 0 <= j < ms@.len() ==> measurement_simple(#[trigger] ms@[j]))
                && (fd matches Some(n) ==> simple(n)),
            Err(e) => cpt_data_spec(collected.leaves_view(), opt_chars(collected.root)) == Err::<
                (Seq<CptMeasurement>, Option<Number>),
                BroFailure,
            >(e@),
        },
{
    let j = collected.values_index();
    let path = if j < collected.leaves.len() {
        collected.leaves[j].0.clone()
    } else {
        collected.field_path(&chars_of("values"))
    };
    let raw = if j < collected.leaves.len() {
        Some(collected.leaves[j].1.clone())
    } else {
        None
    };
    let values = match required(raw, &path) {
        Ok(v) => v,
        Err(e) => {
            return Err(e);
        },
    };
    let ms = match parse_measurements(&values, &path) {
        Ok(ms) => ms,
        Err(e) => {
            return Err(e);
        },
    };
    if ms.len() == 0 {
        return Err(BroError::MissingField { path: string_of(&path) });
    }
    let measurements = sort_measurements(ms);
    let fd_key = chars_of("finalDepth");
    let final_depth = match collected.value(&fd_key) {
        None => None,
        Some(v) => {
            let p = collected.field_path(&fd_key);
            match optional_number_exec(&v, &p) {
                Ok(o) => o,
                Err(e) => {
                    return Err(e);
                },
            }
        },
    };
    Ok((measurements, final_depth))
}

/// Reads a CPT document from its detected type and its events; `source`
/// becomes the retained source text.
pub fn cpt_from_events(det: DetectedDocument, toks: &Tokens, source: Option<String>) -> (r: Result<
    CptDocument,
    BroError,
>)
    ensures
        match r {
            Ok(d) => cpt_doc_spec(det, *toks) matches Ok((c, m)) && cpt_doc_as(d, m, det.schema_version, c)
                && d.source_xml == source && cpt_doc_ok(d),
            Err(e) => cpt_doc_spec(det, *toks) matches Err(f) && e@ == f,
        },
{
    if det.document_type != BroDocumentType::Cpt {
        return Err(
            BroError::UnexpectedDocumentType {
                expected: BroDocumentType::Cpt,
                found: det.document_type,
            },
        );
    }
    let collected = match error_of_collect(toks) {
        Ok(c) => c,
        Err(e) => {
            return Err(e);
        },
    };
    let common = match common_metadata(&collected, det.schema_version) {
        Ok(c) => c,
        Err(e) => {
            return Err(e);
        },
    };
    let (measurements, final_depth) = match cpt_data(&collected) {
        Ok(x) => x,
        Err(e) => {
            return Err(e);
        },
    };
    let cone_type = match collected.value(&chars_of("coneType")) {
        Some(v) => Some(string_of(&v)),
        None => None,
    };
    Ok(CptDocument { common, final_depth, cone_type, measurements, source_xml: source })
}

/// The source text to keep under `options`.
pub fn retained(xml: &str, options: ParseOptions) -> (r: Option<String>)
    ensures
        match r {
            Some(s) => options.retain_source && s@ == xml@,
            None => !options.retain_source,
        },
{
    if options.retain_source {
        Some(xml.to_owned())
    } else {
        None
    }
}

/// The source kept of `xml`: the text itself when asked for, else none.
pub open spec fn kept_source(src: Option<String>, xml: Seq<char>, retain: bool) -> bool {
    match src {
        Some(s) => retain && s@ == xml,
        None => !retain,
    }
}

/// `r` is what reading a CPT document gives for the detection result `det`
/// and, once detection succeeds, the events `toks` of `xml` and the kept
/// source `src`.
pub open spec fn cpt_read(
    r: Result<CptDocument, BroError>,
    det: Result<DetectedDocument, BroError>,
    toks: Tokens,
    src: Option<String>,
    xml: Seq<char>,
    retain: bool,
) -> bool {
    match det {
        Err(e0) => r matches Err(e) && e@ == e0@,
        Ok(d) => events_read(toks) && kept_source(src, xml, retain) && match r {
            Ok(x) => cpt_doc_spec(d, toks) matches Ok((c, m)) && cpt_doc_as(x, m, d.schema_version, c)
                && x.source_xml == src && cpt_doc_ok(x),
            Err(e) => cpt_doc_spec(d, toks) matches Err(f) && e@ == f,
        },
    }
}

/// Reads a BRO CPT document: detection first, then the document's events.
///
/// The result is what `detect_spec` and `cpt_doc_spec` give for the events
/// the XML reader hands out for `xml`,
/// each event being what the reader's named results give at its place
/// in `xml` (see `tokens_of`).
pub fn parse_cpt_with_options(xml: &str, options: ParseOptions) -> (r: Result<CptDocument, BroError>)
    ensures
        exists|nt: Seq<NsToken>, ne: Option<(u64, Vec<char>)>, det: Result<DetectedDocument, BroError>, toks: Tokens, src: Option<String>|
            #![trigger detected_from(det, nt, ne), cpt_read(r, det, toks, src, xml@, options.retain_source)]
            ns_tokens_of(nt, ne, xml@, text_len(xml)) && detected_from(det, nt, ne) && (det is Ok ==> tokens_of(toks, xml@, true, text_len(xml))) && cpt_read(r, det, toks, src, xml@, options.retain_source),
        r matches Ok(d) ==> (d.source_xml matches Some(s) ==> s@ == xml@) && (d.source_xml is Some
            <==> options.retain_source),
{
    let det = match detect(xml) {
        Ok(d) => d,
        Err(e) => {
            proof {
                let (nt, ne) = choose|nt: Seq<NsToken>, ne: Option<(u64, Vec<char>)>|
                    ns_tokens_of(nt, ne, xml@, text_len(xml)) && #[trigger] detected_from(Err::<DetectedDocument, BroError>(e), nt, ne);
                let t: Tokens = vstd::pervasive::arbitrary();
                let so: Option<String> = vstd::pervasive::arbitrary();
                assert(cpt_read(Err::<CptDocument, BroError>(e), Err::<DetectedDocument, BroError>(e), t, so, xml@, options.retain_source));
            }
            return Err(e);
        },
    };
    let ghost dr = Ok::<DetectedDocument, BroError>(det);
    let toks = tokenize(xml, true);
    let src = retained(xml, options);
    let ghost gs = src;
    let r = cpt_from_events(det, &toks, src);
    proof {
        let (nt, ne) = choose|nt: Seq<NsToken>, ne: Option<(u64, Vec<char>)>|
            ns_tokens_of(nt, ne, xml@, text_len(xml)) && #[trigger] detected_from(dr, nt, ne);
        assert(cpt_read(r, dr, toks, gs, xml@, options.retain_source));
    }
    r
}

/// Reads a BRO CPT document, without keeping its source.
pub fn parse_cpt(xml: &str) -> (r: Result<CptDocument, BroError>)
    ensures
        exists|nt: Seq<NsToken>, ne: Option<(u64, Vec<char>)>, det: Result<DetectedDocument, BroError>, toks: Tokens, src: Option<String>|
            #![trigger detected_from(det, nt, ne), cpt_read(r, det, toks, src, xml@, false)]
            ns_tokens_of(nt, ne, xml@, text_len(xml)) && detected_from(det, nt, ne) && (det is Ok ==> tokens_of(toks, xml@, true, text_len(xml))) && cpt_read(r, det, toks, src, xml@, false),
        r matches Ok(d) ==> d.source_xml is None,
{
    parse_cpt_with_options(xml, ParseOptions::new())
}

/// A BRO BHR-GT (geotechnical borehole) document.
#[derive(Clone, Debug)]
pub struct BhrGtDocument {
    pub common: CommonMetadata,
    pub intervals: Vec<GeotechnicalInterval>,
    pub source_xml: Option<String>,
}

/// The first start or empty-element tag named `local` from event `i` on
/// is found (`Ok`), or the document ends without one, or the reader fails.
pub open spec fn element_from(toks: Tokens, local: Seq<char>, missing: Seq<char>, i: int) -> Result<
    (),
    BroFailure,
>
    decreases toks.events@.len() - i,
{
    if i < 0 || i >= toks.events@.len() {
        match toks.error {
            Some((p, m)) => Err(BroFailure::InvalidXml(Some(p), m@)),
            None => Err(BroFailure::MissingField(missing)),
        }
    } else {
        match toks.events@[i].event {
            XmlEvent::Start(e) => if local_name_spec(e.name@) == local {
                Ok(())
            } else {
                element_from(toks, local, missing, i + 1)
            },
            XmlEvent::Empty(e) => if local_name_spec(e.name@) == local {
                Ok(())
            } else {
                element_from(toks, local, missing, i + 1)
            },
            XmlEvent::Eof => Err(BroFailure::MissingField(missing)),
            _ => element_from(toks, local, missing, i + 1),
        }
    }
}

/// Checks that an element named `local` occurs; `missing` is the path
/// reported when it does not.
pub fn require_element(toks: &Tokens, local: &[char], missing: &[char]) -> (r: Result<(), BroError>)
    ensures
        match r {
            Ok(()) => element_from(*toks, local@, missing@, 0) == Ok::<(), BroFailure>(()),
            Err(e) => element_from(*toks, local@, missing@, 0) == Err::<(), BroFailure>(e@),
        },
{
    let evs = &toks.events;
    for i in 0..evs.len()
        invariant
            evs@ == toks.events@,
            element_from(*toks, local@, missing@, 0) == element_from(*toks, local@, missing@, i as int),
    {
        match &evs[i].event {
            XmlEvent::Start(e) => {
                let l = local_name(&e.name);
                if eq_chars(&l, local) {
                    return Ok(());
                }
            },
            XmlEvent::Empty(e) => {
                let l = local_name(&e.name);
                if eq_chars(&l, local) {
                    return Ok(());
                }
            },
            XmlEvent::Eof => {
                return Err(BroError::MissingField { path: string_of(missing) });
            },
            _ => {},
        }
    }
    match &toks.error {
        Some((p, m)) => Err(BroError::InvalidXml { position: Some(*p), message: string_of(m) }),
        None => Err(BroError::MissingField { path: string_of(missing) }),
    }
}

/// Reading a BHR-GT document from its detected type and its events: the
/// common metadata, a `boring` element that must be present, and the
/// layers' intervals sorted by upper boundary.
pub open spec fn bhr_gt_spec(det: DetectedDocument, toks: Tokens) -> Result<
    (CollectModel, CommonModel, Seq<GtIntervalModel>),
    BroFailure,
> {
    if det.document_type != BroDocumentType::BhrGt {
        Err(BroFailure::UnexpectedDocumentType(BroDocumentType::BhrGt, det.document_type))
    } else {
        match collect_spec(toks) {
            Err((p, m)) => Err(BroFailure::InvalidXml(Some(p), m)),
            Ok(c) => match common_spec(c.leaves, c.attrs, c.root) {
                Err(f) => Err(f),
                Ok(cm) => match element_from(toks, "boring"@, field_path_spec(c.leaves, c.root, "boring"@), 0) {
                    Err(f) => Err(f),
                    Ok(()) => match intervals_spec(toks) {
                        Err(f) => Err(f),
                        Ok(ivs) => Ok((c, cm, sort_by_upper(ivs).map_values(|m: IntervalModel| gt_model(m)))),
                    },
                },
            },
        }
    }
}

/// Reads a BHR-GT document from its detected type and its events.
pub fn bhr_gt_from_events(det: DetectedDocument, toks: &Tokens, source: Option<String>) -> (r: Result<
    BhrGtDocument,
    BroError,
>)
    ensures
        match r {
            Ok(d) => bhr_gt_spec(det, *toks) matches Ok((c, m, ivs)) && common_as(
                d.common,
                m,
                det.schema_version,
                c.leaves,
            ) && gt_intervals_as(d.intervals@, ivs) && d.source_xml == source,
            Err(e) => bhr_gt_spec(det, *toks) matches Err(f) && e@ == f,
        },
{
    if det.document_type != BroDocumentType::BhrGt {
        return Err(
            BroError::UnexpectedDocumentType {
                expected: BroDocumentType::BhrGt,
                found: det.document_type,
            },
        );
    }
    let collected = match error_of_collect(toks) {
        Ok(c) => c,
        Err(e) => {
            return Err(e);
        },
    };
    let common = match common_metadata(&collected, det.schema_version) {
        Ok(c) => c,
        Err(e) => {
            return Err(e);
        },
    };
    let boring = chars_of("boring");
    let missing = collected.field_path(&boring);
    match require_element(toks, &boring, &missing) {
        Ok(()) => {},
        Err(e) => {
            return Err(e);
        },
    }
    let intervals = match intervals_from_events(toks) {
        Ok(v) => v,
        Err(e) => {
            return Err(e);
        },
    };
    let ghost ivs = match intervals_spec(*toks) {
        Ok(x) => x,
        Err(_) => arbitrary(),
    };
    let sorted = sort_exec(intervals, Ghost(ivs));
    let gts = gt_intervals(&sorted, Ghost(sort_by_upper(ivs)));
    Ok(BhrGtDocument { common, intervals: gts, source_xml: source })
}

/// `r` is what reading a BHR-GT document gives for the detection result
/// `det` and, once detection succeeds, the events `toks` of `xml` and the
/// kept source `src`.
pub open spec fn bhr_gt_read(
    r: Result<BhrGtDocument, BroError>,
    det: Result<DetectedDocument, BroError>,
    toks: Tokens,
    src: Option<String>,
    xml: Seq<char>,
    retain: bool,
) -> bool {
    match det {
        Err(e0) => r matches Err(e) && e@ == e0@,
        Ok(d) => events_read(toks) && kept_source(src, xml, retain) && match r {
            Ok(x) => bhr_gt_spec(d, toks) matches Ok((c, m, ivs)) && common_as(x.common, m, d.schema_version, c.leaves)
                && gt_intervals_as(x.intervals@, ivs) && x.source_xml == src,
            Err(e) => bhr_gt_spec(d, toks) matches Err(f) && e@ == f,
        },
    }
}

/// Reads a BRO BHR-GT document: detection first, then the document's
/// events.
///
/// The result is what `detect_spec` and `bhr_gt_spec` give for the events
/// the XML reader hands out for `xml`,
/// each event being what the reader's named results give at its place
/// in `xml` (see `tokens_of`).
pub fn parse_bhr_gt_with_options(xml: &str, options: ParseOptions) -> (r: Result<BhrGtDocument, BroError>)
    ensures
        exists|nt: Seq<NsToken>, ne: Option<(u64, Vec<char>)>, det: Result<DetectedDocument, BroError>, toks: Tokens, src: Option<String>|
            #![trigger detected_from(det, nt, ne), bhr_gt_read(r, det, toks, src, xml@, options.retain_source)]
            ns_tokens_of(nt, ne, xml@, text_len(xml)) && detected_from(det, nt, ne) && (det is Ok ==> tokens_of(toks, xml@, true, text_len(xml))) && bhr_gt_read(r, det, toks, src, xml@, options.retain_source),
        r matches Ok(d) ==> (d.source_xml matches Some(s) ==> s@ == xml@) && (d.source_xml is Some
            <==> options.retain_source),
{
    let det = match detect(xml) {
        Ok(d) => d,
        Err(e) => {
            proof {
                let (nt, ne) = choose|nt: Seq<NsToken>, ne: Option<(u64, Vec<char>)>|
                    ns_tokens_of(nt, ne, xml@, text_len(xml)) && #[trigger] detected_from(Err::<DetectedDocument, BroError>(e), nt, ne);
                let t: Tokens = vstd::pervasive::arbitrary();
                let so: Option<String> = vstd::pervasive::arbitrary();
                assert(bhr_gt_read(Err::<BhrGtDocument, BroError>(e), Err::<DetectedDocument, BroError>(e), t, so, xml@, options.retain_source));
            }
            return Err(e);
        },
    };
    let ghost dr = Ok::<DetectedDocument, BroError>(det);
    let toks = tokenize(xml, true);
    let src = retained(xml, options);
    let ghost gs = src;
    let r = bhr_gt_from_events(det, &toks, src);
    proof {
        let (nt, ne) = choose|nt: Seq<NsToken>, ne: Option<(u64, Vec<char>)>|
            ns_tokens_of(nt, ne, xml@, text_len(xml)) && #[trigger] detected_from(dr, nt, ne);
        assert(bhr_gt_read(r, dr, toks, gs, xml@, options.retain_source));
    }
    r
}

/// Reads a BRO BHR-GT document, without keeping its source.
pub fn parse_bhr_gt(xml: &str) -> (r: Result<BhrGtDocument, BroError>)
    ensures
        exists|nt: Seq<NsToken>, ne: Option<(u64, Vec<char>)>, det: Result<DetectedDocument, BroError>, toks: Tokens, src: Option<String>|
            #![trigger detected_from(det, nt, ne), bhr_gt_read(r, det, toks, src, xml@, false)]
            ns_tokens_of(nt, ne, xml@, text_len(xml)) && detected_from(det, nt, ne) && (det is Ok ==> tokens_of(toks, xml@, true, text_len(xml))) && bhr_gt_read(r, det, toks, src, xml@, false),
        r matches Ok(d) ==> d.source_xml is None,
{
    parse_bhr_gt_with_options(xml, ParseOptions::new())
}

/// A parsed BRO document of any supported family.
#[derive(Clone, Debug)]
pub enum BroDocument {
    Cpt(CptDocument),
    BhrGt(BhrGtDocument),
    BhrG(crate::bro::bhr_g::BhrGDocument),
}

/// Reads a document from its events and its detection result: the events
/// must form well-formed XML, then the detected family decides the reader.
pub fn document_from_events(
    toks: &Tokens,
    det: Result<DetectedDocument, BroError>,
    source: Option<String>,
) -> (r: Result<BroDocument, BroError>)
    ensures
        match collect_spec(*toks) {
            Err((p, m)) => r matches Err(e) && e@ == BroFailure::InvalidXml(Some(p), m),
            Ok(_) => match det {
                Err(e0) => r matches Err(e) && e@ == e0@,
                Ok(d) => match d.document_type {
                    BroDocumentType::Cpt => match cpt_doc_spec(d, *toks) {
                        Ok((c, m)) => r matches Ok(BroDocument::Cpt(x)) && cpt_doc_as(x, m, d.schema_version, c)
                            && x.source_xml == source && cpt_doc_ok(x),
                        Err(f) => r matches Err(e) && e@ == f,
                    },
                    BroDocumentType::BhrGt => match bhr_gt_spec(d, *toks) {
                        Ok((c, m, ivs)) => r matches Ok(BroDocument::BhrGt(x)) && common_as(
                            x.common,
                            m,
                            d.schema_version,
                            c.leaves,
                        ) && gt_intervals_as(x.intervals@, ivs) && x.source_xml == source,
                        Err(f) => r matches Err(e) && e@ == f,
                    },
                    BroDocumentType::BhrG => match crate::bro::bhr_g::bhr_g_spec(d, *toks) {
                        Ok((c, cm, ivs, fd)) => r matches Ok(BroDocument::BhrG(x)) && common_as(
                            x.common,
                            cm,
                            d.schema_version,
                            c.leaves,
                        ) && crate::bro::bhr_g::intervals_as(x.intervals@, ivs) && x.final_depth == fd
                            && x.source_xml == source,
                        Err(f) => r matches Err(e) && e@ == f,
                    },
                },
            },
        },
{
    match error_of_collect(toks) {
        Ok(_) => {},
        Err(e) => {
            return Err(e);
        },
    }
    let d = match det {
        Ok(d) => d,
        Err(e) => {
            return Err(e);
        },
    };
    match d.document_type {
        BroDocumentType::Cpt => match cpt_from_events(d, toks, source) {
            Ok(x) => Ok(BroDocument::Cpt(x)),
            Err(e) => Err(e),
        },
        BroDocumentType::BhrGt => match bhr_gt_from_events(d, toks, source) {
            Ok(x) => Ok(BroDocument::BhrGt(x)),
            Err(e) => Err(e),
        },
        BroDocumentType::BhrG => match crate::bro::bhr_g::bhr_g_from_events(d, toks, source) {
            Ok(x) => Ok(BroDocument::BhrG(x)),
            Err(e) => Err(e),
        },
    }
}

/// `r` is what reading a BRO document of any supported family gives for
/// its events `toks`, the detection result `det` and the kept source.
pub open spec fn document_read(
    r: Result<BroDocument, BroError>,
    toks: Tokens,
    det: Result<DetectedDocument, BroError>,
    source: Option<String>,
) -> bool {
    match collect_spec(toks) {
        Err((p, m)) => r matches Err(e) && e@ == BroFailure::InvalidXml(Some(p), m),
        Ok(_) => match det {
            Err(e0) => r matches Err(e) && e@ == e0@,
            Ok(d) => match d.document_type {
                BroDocumentType::Cpt => match cpt_doc_spec(d, toks) {
                    Ok((c, m)) => r matches Ok(BroDocument::Cpt(x)) && cpt_doc_as(x, m, d.schema_version, c)
                        && x.source_xml == source && cpt_doc_ok(x),
                    Err(f) => r matches Err(e) && e@ == f,
                },
                BroDocumentType::BhrGt => match bhr_gt_spec(d, toks) {
                    Ok((c, m, ivs)) => r matches Ok(BroDocument::BhrGt(x)) && common_as(
                        x.common,
                        m,
                        d.schema_version,
                        c.leaves,
                    ) && gt_intervals_as(x.intervals@, ivs) && x.source_xml == source,
                    Err(f) => r matches Err(e) && e@ == f,
                },
                BroDocumentType::BhrG => match crate::bro::bhr_g::bhr_g_spec(d, toks) {
                    Ok((c, cm, ivs, fd)) => r matches Ok(BroDocument::BhrG(x)) && common_as(
                        x.common,
                        cm,
                        d.schema_version,
                        c.leaves,
                    ) && crate::bro::bhr_g::intervals_as(x.intervals@, ivs) && x.final_depth == fd
                        && x.source_xml == source,
                    Err(f) => r matches Err(e) && e@ == f,
                },
            },
        },
    }
}

/// Reads a BRO document of any supported family: malformed XML is
/// reported first, then the family and schema version are detected and
/// the document is read by its family's reader.
///
/// The result is what `document_read` says for the events the XML reader
/// hands out for `xml` and the detection result,
/// each event being what the reader's named results give at its place
/// in `xml` (see `tokens_of`).
pub fn parse_with_options(xml: &str, options: ParseOptions) -> (r: Result<BroDocument, BroError>)
    ensures
        exists|nt: Seq<NsToken>, ne: Option<(u64, Vec<char>)>, det: Result<DetectedDocument, BroError>, toks: Tokens, src: Option<String>|
            #![trigger detected_from(det, nt, ne), document_read(r, toks, det, src)]
            ns_tokens_of(nt, ne, xml@, text_len(xml)) && detected_from(det, nt, ne) && tokens_of(toks, xml@, true, text_len(xml)) && kept_source(
                src,
                xml@,
                options.retain_source,
            ) && document_read(r, toks, det, src),
        r matches Ok(BroDocument::Cpt(d)) ==> (d.source_xml is Some <==> options.retain_source) && cpt_doc_ok(d),
        r matches Ok(BroDocument::BhrGt(d)) ==> (d.source_xml is Some <==> options.retain_source),
        r matches Ok(BroDocument::BhrG(d)) ==> (d.source_xml is Some <==> options.retain_source),
{
    let toks = tokenize(xml, true);
    let det = detect(xml);
    let src = retained(xml, options);
    let ghost gs = src;
    let ghost gd = det;
    let r = document_from_events(&toks, det, src);
    proof {
        let (nt, ne) = choose|nt: Seq<NsToken>, ne: Option<(u64, Vec<char>)>|
            ns_tokens_of(nt, ne, xml@, text_len(xml)) && #[trigger] detected_from(gd, nt, ne);
        assert(document_read(r, toks, gd, gs));
    }
    r
}

/// `r` is what reading `xml` as a BRO document of any supported family
/// gives, without keeping its source: the detection result and the
/// document's reader, over the events the XML readers hand out for `xml`.
pub open spec fn parsed_document(r: Result<BroDocument, BroError>, xml: &str) -> bool {
    exists|nt: Seq<NsToken>, ne: Option<(u64, Vec<char>)>, det: Result<DetectedDocument, BroError>, toks: Tokens, src: Option<String>|
        #![trigger detected_from(det, nt, ne), document_read(r, toks, det, src)]
        ns_tokens_of(nt, ne, xml@, text_len(xml)) && detected_from(det, nt, ne) && tokens_of(toks, xml@, true, text_len(xml))
            && kept_source(src, xml@, false) && document_read(r, toks, det, src)
}

/// `r` is what reading `xml` as a BRO document of any supported family
/// gives, keeping its source.
pub open spec fn parsed_document_kept(r: Result<BroDocument, BroError>, xml: &str) -> bool {
    exists|nt: Seq<NsToken>, ne: Option<(u64, Vec<char>)>, det: Result<DetectedDocument, BroError>, toks: Tokens, src: Option<String>|
        #![trigger detected_from(det, nt, ne), document_read(r, toks, det, src)]
        ns_tokens_of(nt, ne, xml@, text_len(xml)) && detected_from(det, nt, ne) && tokens_of(toks, xml@, true, text_len(xml))
            && kept_source(src, xml@, true) && document_read(r, toks, det, src)
}

/// Reads a BRO document of any supported family, without keeping its
/// source.
pub fn parse(xml: &str) -> (r: Result<BroDocument, BroError>)
    ensures
        parsed_document(r, xml),
        exists|nt: Seq<NsToken>, ne: Option<(u64, Vec<char>)>, det: Result<DetectedDocument, BroError>, toks: Tokens, src: Option<String>|
            #![trigger detected_from(det, nt, ne), document_read(r, toks, det, src)]
            ns_tokens_of(nt, ne, xml@, text_len(xml)) && detected_from(det, nt, ne) && tokens_of(toks, xml@, true, text_len(xml)) && kept_source(src, xml@, false)
                && document_read(r, toks, det, src),
        r matches Ok(BroDocument::Cpt(d)) ==> d.source_xml is None && cpt_doc_ok(d),
        r matches Ok(BroDocument::BhrGt(d)) ==> d.source_xml is None,
        r matches Ok(BroDocument::BhrG(d)) ==> d.source_xml is None,
{
    parse_with_options(xml, ParseOptions::new())
}

} // verus!
