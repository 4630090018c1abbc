//! Loading the objects of a project file: its CPTs, then its bores, each
//! bore typed when it keeps BRO borehole XML under its own identifier and
//! kept as it is otherwise. No identifier may be claimed twice.

use vstd::prelude::*;

use crate::bro::document::{BroDocument, parse_with_options, parsed_document, parsed_document_kept};
use crate::bro::{BroError, ParseOptions};
use crate::cpt::{Cpt, cpt_ok, cpt_fits};
use crate::kernel::project::{GeotechnicalObject, GeotechnicalProject, KernelError, ProjectMetadata, obj_id, obj_ok, duplicate, not_fitting_message, parse_bro, object_of, added, lemma_same_keeps, lemma_same_sym};
use crate::kernel::copy::obj_same;
use crate::text::{chars_of, eq_chars, string_of};

verus! {

/// A bore of a project file as the loader sees it: the identifier its
/// wrapper claims, and the typed object read from its retained XML.
pub struct LoadBore {
    pub id: Option<String>,
    pub typed: Option<GeotechnicalObject>,
}

pub struct BoreModel {
    pub id: Option<Seq<char>>,
    pub typed: Option<GeotechnicalObject>,
}

pub open spec fn bore_model(b: LoadBore) -> BoreModel {
    BoreModel {
        id: match b.id {
            Some(s) => Some(s@),
            None => None,
        },
        typed: b.typed,
    }
}

pub open spec fn bore_models(bs: Seq<LoadBore>) -> Seq<BoreModel> {
    bs.map_values(|b: LoadBore| bore_model(b))
}

/// Why loading stops.
pub enum LoadFailure {
    /// A CPT with values of sizes the parsers do not produce.
    NotFitting,
    /// An identifier claimed twice.
    Duplicate(Seq<char>),
}

/// A loaded project: its typed objects, and the bores kept as they were,
/// by index, with the identifiers they claim.
pub struct LoadedProject {
    pub project: GeotechnicalProject,
    pub opaque: Vec<usize>,
    pub opaque_ids: Vec<String>,
}

/// Some object of `objs` has identifier `id`.
pub open spec fn has_id(objs: Seq<GeotechnicalObject>, id: Seq<char>) -> bool {
    exists|i: int| 0 <= i < objs.len() && obj_id(#[trigger] objs[i]) == id
}

/// The object of `objs` with identifier `id`.
pub open spec fn find_obj(objs: Seq<GeotechnicalObject>, id: Seq<char>) -> Option<GeotechnicalObject>
    decreases objs.len(),
{
    if objs.len() == 0 {
        None
    } else if obj_id(objs.last()) == id {
        Some(objs.last())
    } else {
        find_obj(objs.drop_last(), id)
    }
}

/// Loading the CPTs, in order.
pub open spec fn cpts_loaded(cpts: Seq<Cpt>) -> Result<Seq<GeotechnicalObject>, LoadFailure>
    decreases cpts.len(),
{
    if cpts.len() == 0 {
        Ok(seq![])
    } else {
        match cpts_loaded(cpts.drop_last()) {
            Err(f) => Err(f),
            Ok(objs) => {
                let c = cpts.last();
                if !cpt_ok(c) {
                    Err(LoadFailure::NotFitting)
                } else if has_id(objs, c.id@) {
                    Err(LoadFailure::Duplicate(c.id@))
                } else {
                    Ok(objs.push(GeotechnicalObject::Cpt(c)))
                }
            },
        }
    }
}

/// Loading the bores, in order, after the objects `objs0`: a typed bore
/// is stored, another is kept as it is and its identifier reserved.
pub open spec fn bores_loaded(objs0: Seq<GeotechnicalObject>, bores: Seq<BoreModel>) -> Result<
    (Seq<GeotechnicalObject>, Seq<int>, Seq<Seq<char>>),
    LoadFailure,
>
    decreases bores.len(),
{
    if bores.len() == 0 {
        Ok((objs0, seq![], seq![]))
    } else {
        match bores_loaded(objs0, bores.drop_last()) {
            Err(f) => Err(f),
            Ok((objs, op, ids)) => {
                let b = bores.last();
                let i = bores.len() - 1;
                match b.typed {
                    Some(o) => if !obj_ok(o) {
                        Err(LoadFailure::NotFitting)
                    } else if ids.contains(obj_id(o)) || has_id(objs, obj_id(o)) {
                        Err(LoadFailure::Duplicate(obj_id(o)))
                    } else {
                        Ok((objs.push(o), op, ids))
                    },
                    None => match b.id {
                        Some(w) => if has_id(objs, w) || ids.contains(w) {
                            Err(LoadFailure::Duplicate(w))
                        } else {
                            Ok((objs, op.push(i), ids.push(w)))
                        },
                        None => Ok((objs, op.push(i), ids)),
                    },
                }
            },
        }
    }
}

/// Loading a project file's CPTs and then its bores.
pub open spec fn load_spec(cpts: Seq<Cpt>, bores: Seq<BoreModel>) -> Result<
    (Seq<GeotechnicalObject>, Seq<int>, Seq<Seq<char>>),
    LoadFailure,
> {
    match cpts_loaded(cpts) {
        Err(f) => Err(f),
        Ok(objs) => bores_loaded(objs, bores),
    }
}

/// `r` is what loading gives, by `load_spec`.
pub open spec fn loaded_as(r: Result<LoadedProject, KernelError>, metadata: ProjectMetadata, cpts: Seq<Cpt>, bores: Seq<BoreModel>) -> bool {
    match load_spec(cpts, bores) {
        Ok((objs, op, ids)) => r matches Ok(l) && l.project.meta() == metadata && (forall|k: Seq<char>|
            #[trigger] l.project.object_at(k) == find_obj(objs, k)) && l.opaque@.map_values(|i: usize| i as int)
            == op && l.opaque_ids@.map_values(|s: String| s@) == ids,
        Err(LoadFailure::NotFitting) => r matches Err(KernelError::Conversion { message }) && message@
            == not_fitting_message(),
        Err(LoadFailure::Duplicate(id)) => r matches Err(e) && duplicate(e, id),
    }
}

proof fn lemma_has_find(objs: Seq<GeotechnicalObject>, id: Seq<char>)
    ensures
        has_id(objs, id) <==> find_obj(objs, id) is Some,
    decreases objs.len(),
{
    if objs.len() > 0 {
        let d = objs.drop_last();
        lemma_has_find(d, id);
        if has_id(objs, id) && obj_id(objs.last()) != id {
            let i = choose|i: int| 0 <= i < objs.len() && obj_id(#[trigger] objs[i]) == id;
            assert(i < objs.len() - 1);
            assert(d[i] == objs[i]);
        }
        if has_id(d, id) {
            let i = choose|i: int| 0 <= i < d.len() && obj_id(#[trigger] d[i]) == id;
            assert(objs[i] == d[i]);
        }
        if obj_id(objs.last()) == id {
            assert(objs[objs.len() - 1] == objs.last());
        }
    }
}

proof fn lemma_cpts_err(all: Seq<Cpt>, k: int)
    requires
        0 <= k <= all.len(),
        cpts_loaded(all.take(k)) is Err,
    ensures
        cpts_loaded(all) == cpts_loaded(all.take(k)),
    decreases all.len() - k,
{
    if k < all.len() {
        assert(all.take(k + 1).drop_last() =~= all.take(k));
        lemma_cpts_err(all, k + 1);
    } else {
        assert(all.take(k) =~= all);
    }
}

proof fn lemma_bores_err(objs0: Seq<GeotechnicalObject>, all: Seq<BoreModel>, k: int)
    requires
        0 <= k <= all.len(),
        bores_loaded(objs0, all.take(k)) is Err,
    ensures
        bores_loaded(objs0, all) == bores_loaded(objs0, all.take(k)),
    decreases all.len() - k,
{
    if k < all.len() {
        assert(all.take(k + 1).drop_last() =~= all.take(k));
        lemma_bores_err(objs0, all, k + 1);
    } else {
        assert(all.take(k) =~= all);
    }
}

fn contains_text(v: &Vec<String>, s: &[char]) -> (r: bool)
    ensures
        r == v@.map_values(|x: String| x@).contains(s@),
{
    for i in 0..v.len()
        invariant
            forall|j: int| 0 <= j < i ==> (#[trigger] v@[j])@ != s@,
    {
        let c = chars_of(v[i].as_str());
        if eq_chars(&c, s) {
            proof {
                assert(v@.map_values(|x: String| x@)[i as int] == s@);
            }
            return true;
        }
    }
    proof {
        let m = v@.map_values(|x: String| x@);
        if m.contains(s@) {
            let j = choose|j: int| 0 <= j < m.len() && m[j] == s@;
            assert(v@[j]@ == s@);
        }
    }
    false
}

/// Loads a project file's objects: its CPTs first, then its bores; a
/// bore with a typed object stores it, another is kept as it is and
/// reserves the identifier its wrapper claims. A CPT of values the parsers
/// do not produce, or an identifier claimed twice, stops the load.
pub fn load_entries(metadata: ProjectMetadata, cpts: Vec<Cpt>, bores: Vec<LoadBore>) -> (r: Result<LoadedProject, KernelError>)
    ensures
        loaded_as(r, metadata, cpts@, bore_models(bores@)),
{
    let ghost all = cpts@;
    let ghost allb = bore_models(bores@);
    let ghost meta = metadata;
    let mut project = GeotechnicalProject::new(metadata);
    let ghost mut objs: Seq<GeotechnicalObject> = seq![];
    let nc = cpts.len();
    let mut cs = cpts;
    let mut k: usize = 0;
    proof {
        assert(all.take(0) =~= seq![]);
        assert(all.skip(0) =~= all);
    }
    while cs.len() > 0
        invariant
            all == cpts@,
            allb == bore_models(bores@),
            nc == all.len(),
            k + cs@.len() == all.len(),
            cs@ == all.skip(k as int),
            cpts_loaded(all.take(k as int)) == Ok::<Seq<GeotechnicalObject>, LoadFailure>(objs),
            forall|key: Seq<char>| #[trigger] project.object_at(key) == find_obj(objs, key),
            project.meta() == meta,
        decreases cs@.len(),
    {
        let c = cs.remove(0);
        proof {
            assert(all.take(k + 1).drop_last() =~= all.take(k as int));
            assert(all.take(k + 1).last() == c);
            assert(cs@ =~= all.skip(k + 1));
        }
        if !cpt_fits(&c) {
            proof {
                assert(cpts_loaded(all.take(k + 1)) == Err::<Seq<GeotechnicalObject>, LoadFailure>(LoadFailure::NotFitting));
                lemma_cpts_err(all, k + 1);
                assert(load_spec(all, allb) == Err::<(Seq<GeotechnicalObject>, Seq<int>, Seq<Seq<char>>), LoadFailure>(LoadFailure::NotFitting));
            }
            return Err(KernelError::Conversion { message: "CPT values exceed the supported precision".to_string() });
        }
        let ghost o = GeotechnicalObject::Cpt(c);
        proof {
            lemma_has_find(objs, c.id@);
        }
        match project.insert_rejecting_duplicates(GeotechnicalObject::Cpt(c)) {
            Err(e) => {
                proof {
                    assert(has_id(objs, c.id@));
                    assert(cpts_loaded(all.take(k + 1)) == Err::<Seq<GeotechnicalObject>, LoadFailure>(LoadFailure::Duplicate(c.id@)));
                    lemma_cpts_err(all, k + 1);
                    assert(load_spec(all, allb) == Err::<(Seq<GeotechnicalObject>, Seq<int>, Seq<Seq<char>>), LoadFailure>(LoadFailure::Duplicate(c.id@)));
                }
                return Err(e);
            },
            Ok(_) => {},
        }
        proof {
            assert forall|key: Seq<char>| #[trigger] project.object_at(key) == find_obj(objs.push(o), key) by {
                assert(objs.push(o).drop_last() =~= objs);
            }
            objs = objs.push(o);
        }
        k = k + 1;
    }
    proof {
        assert(all.take(k as int) =~= all);
    }
    let ghost objs0 = objs;
    let nb = bores.len();
    let mut bs = bores;
    let mut opaque: Vec<usize> = Vec::new();
    let mut opaque_ids: Vec<String> = Vec::new();
    let ghost mut op: Seq<int> = seq![];
    let ghost mut ids: Seq<Seq<char>> = seq![];
    let mut i: usize = 0;
    proof {
        assert(allb.take(0) =~= seq![]);
        assert(bore_models(bs@) =~= allb.skip(0));
    }
    while bs.len() > 0
        invariant
            all == cpts@,
            nb == allb.len(),
            i + bs@.len() == allb.len(),
            bore_models(bs@) == allb.skip(i as int),
            allb == bore_models(bores@),
            cpts_loaded(all) == Ok::<Seq<GeotechnicalObject>, LoadFailure>(objs0),
            bores_loaded(objs0, allb.take(i as int)) == Ok::<(Seq<GeotechnicalObject>, Seq<int>, Seq<Seq<char>>), LoadFailure>((objs, op, ids)),
            forall|key: Seq<char>| #[trigger] project.object_at(key) == find_obj(objs, key),
            project.meta() == meta,
            opaque@.map_values(|j: usize| j as int) == op,
            opaque_ids@.map_values(|s: String| s@) == ids,
        decreases bs@.len(),
    {
        let ghost prev = bs@;
        let b = bs.remove(0);
        let ghost bm = bore_model(b);
        proof {
            assert(allb.take(i + 1).drop_last() =~= allb.take(i as int));
            assert(bore_models(prev)[0] == bm);
            assert forall|j: int| 0 <= j < bs@.len() implies bore_models(bs@)[j] == allb.skip(i + 1)[j] by {
                assert(bs@[j] == prev[j + 1]);
                assert(bore_models(prev)[j + 1] == allb.skip(i as int)[j + 1]);
            }
            assert(bore_models(bs@) =~= allb.skip(i + 1));
            assert(allb.skip(i as int)[0] == bm);
            assert(allb.take(i + 1).last() == bm);
        }
        match b.typed {
            Some(obj) => {
                let ghost o0 = obj;
                let fits = match &obj {
                    GeotechnicalObject::Cpt(c) => cpt_fits(c),
                    _ => true,
                };
                if !fits {
                    proof {
                        assert(bores_loaded(objs0, allb.take(i + 1)) == Err::<(Seq<GeotechnicalObject>, Seq<int>, Seq<Seq<char>>), LoadFailure>(LoadFailure::NotFitting));
                        lemma_bores_err(objs0, allb, i + 1);
                    }
                    return Err(KernelError::Conversion { message: "CPT values exceed the supported precision".to_string() });
                }
                let id = chars_of(obj.id());
                proof {
                    lemma_has_find(objs, id@);
                }
                if contains_text(&opaque_ids, &id) {
                    proof {
                        assert(ids.contains(obj_id(o0)));
                        assert(bores_loaded(objs0, allb.take(i + 1)) == Err::<(Seq<GeotechnicalObject>, Seq<int>, Seq<Seq<char>>), LoadFailure>(LoadFailure::Duplicate(obj_id(o0))));
                        lemma_bores_err(objs0, allb, i + 1);
                    }
                    return Err(KernelError::DuplicateObject { id: string_of(&id) });
                }
                let ghost o = obj;
                match project.insert_rejecting_duplicates(obj) {
                    Err(e) => {
                        proof {
                            lemma_bores_err(objs0, allb, i + 1);
                        }
                        return Err(e);
                    },
                    Ok(_) => {},
                }
                proof {
                    assert forall|key: Seq<char>| #[trigger] project.object_at(key) == find_obj(objs.push(o), key) by {
                        assert(objs.push(o).drop_last() =~= objs);
                    }
                    objs = objs.push(o);
                }
            },
            None => match b.id {
                Some(w) => {
                    let wc = chars_of(w.as_str());
                    proof {
                        lemma_has_find(objs, wc@);
                    }
                    if project.contains(&wc) || contains_text(&opaque_ids, &wc) {
                        proof {
                            lemma_bores_err(objs0, allb, i + 1);
                        }
                        return Err(KernelError::DuplicateObject { id: string_of(&wc) });
                    }
                    opaque.push(i);
                    opaque_ids.push(string_of(&wc));
                    proof {
                        op = op.push(i as int);
                        ids = ids.push(wc@);
                        assert(opaque@.map_values(|j: usize| j as int) =~= op);
                        assert(opaque_ids@.map_values(|s: String| s@) =~= ids);
                    }
                },
                None => {
                    opaque.push(i);
                    proof {
                        op = op.push(i as int);
                        assert(opaque@.map_values(|j: usize| j as int) =~= op);
                    }
                },
            },
        }
        i = i + 1;
    }
    proof {
        assert(allb.take(i as int) =~= allb);
    }
    Ok(LoadedProject { project, opaque, opaque_ids })
}

/// `r` is the object a bore with wrapper identifier `id` types to, given
/// the document `d` read from its retained XML: a BRO borehole document
/// whose identifier is the wrapper's.
pub open spec fn typed_from(r: Option<GeotechnicalObject>, id: Seq<char>, d: Result<BroDocument, BroError>) -> bool {
    match d {
        Ok(BroDocument::BhrGt(x)) => if x.common.bro_id@ == id {
            r == Some(GeotechnicalObject::BhrGt(x))
        } else {
            r is None
        },
        Ok(BroDocument::BhrG(x)) => if x.common.bro_id@ == id {
            r == Some(GeotechnicalObject::BhrG(x))
        } else {
            r is None
        },
        _ => r is None,
    }
}

/// The typed object of a project-file bore: with a wrapper identifier
/// and retained XML that reads as a BRO borehole document of that
/// identifier, the document, keeping its source; otherwise none.
pub fn typed_bore(id: Option<&str>, source_xml: Option<&str>) -> (r: Option<GeotechnicalObject>)
    ensures
        match (id, source_xml) {
            (Some(w), Some(x)) => exists|d: Result<BroDocument, BroError>| #[trigger] parsed_document_kept(d, x)
                && typed_from(r, w@, d),
            _ => r is None,
        },
{
    match (id, source_xml) {
        (Some(w), Some(x)) => {
            let d = parse_with_options(x, ParseOptions { retain_source: true });
            let ghost gd = d;
            proof {
                assert(parsed_document_kept(gd, x));
            }
            let wc = chars_of(w);
            let r = match d {
                Ok(BroDocument::BhrGt(doc)) => if eq_chars(&chars_of(doc.common.bro_id.as_str()), &wc) {
                    Some(GeotechnicalObject::BhrGt(doc))
                } else {
                    None
                },
                Ok(BroDocument::BhrG(doc)) => if eq_chars(&chars_of(doc.common.bro_id.as_str()), &wc) {
                    Some(GeotechnicalObject::BhrG(doc))
                } else {
                    None
                },
                _ => None,
            };
            proof {
                assert(typed_from(r, w@, gd));
            }
            r
        },
        _ => None,
    }
}

/// A bore of a project file: the identifier its wrapper claims and the
/// BRO XML it retains, when it has them.
pub struct FileBore<'a> {
    pub id: Option<String>,
    pub source_xml: Option<&'a str>,
}

/// Loads a project file's CPTs and bores (see `load_entries`), typing each
/// bore with `typed_bore`.
pub fn load_project_file(metadata: ProjectMetadata, cpts: Vec<Cpt>, bores: &Vec<FileBore<'_>>) -> (r: Result<LoadedProject, KernelError>)
    ensures
        exists|entries: Seq<BoreModel>|
            #![trigger loaded_as(r, metadata, cpts@, entries)]
            entries.len() == bores@.len() && (forall|i: int| 0 <= i < bores@.len() ==> typed_entry(
                #[trigger] entries[i],
                bores@[i],
            )) && loaded_as(r, metadata, cpts@, entries),
{
    let mut entries: Vec<LoadBore> = Vec::new();
    for i in 0..bores.len()
        invariant
            entries@.len() == i,
            forall|j: int| 0 <= j < i ==> typed_entry(#[trigger] bore_model(entries@[j]), bores@[j]),
    {
        let b = &bores[i];
        let id = match &b.id {
            Some(s) => Some(s.as_str()),
            None => None,
        };
        let typed = typed_bore(id, b.source_xml);
        let wid = match &b.id {
            Some(s) => Some(string_of(&chars_of(s.as_str()))),
            None => None,
        };
        entries.push(LoadBore { id: wid, typed });
    }
    let ghost em = bore_models(entries@);
    let r = load_entries(metadata, cpts, entries);
    proof {
        assert forall|i: int| 0 <= i < bores@.len() implies typed_entry(#[trigger] em[i], bores@[i]) by {
            assert(em[i] == bore_model(entries@[i]));
        }
    }
    r
}

/// `e` is what the loader sees of the file bore `b`.
pub open spec fn typed_entry(e: BoreModel, b: FileBore<'_>) -> bool {
    &&& e.id == match b.id {
        Some(s) => Some(s@),
        None => None::<Seq<char>>,
    }
    &&& match (b.id, b.source_xml) {
        (Some(w), Some(x)) => exists|d: Result<BroDocument, BroError>| #[trigger] parsed_document_kept(d, x)
            && typed_from(e.typed, w@, d),
        _ => e.typed is None,
    }
}

/// The identifiers claimed by the kept bores.
pub open spec fn claimed(l: LoadedProject) -> Seq<Seq<char>> {
    l.opaque_ids@.map_values(|x: String| x@)
}

/// What importing `xml` read from `source` does to a loaded project: as
/// `bro_imported`, with the identifiers claimed by kept bores refused too;
/// the kept bores stay as they are.
pub open spec fn kept_imported(
    before: LoadedProject,
    after: LoadedProject,
    xml: &str,
    source: Seq<char>,
    r: Result<GeotechnicalObject, KernelError>,
) -> bool {
    &&& after.opaque@ == before.opaque@
    &&& after.opaque_ids@ == before.opaque_ids@
    &&& exists|d: Result<BroDocument, BroError>| #[trigger] parsed_document(d, xml) && match d {
        Err(e) => r matches Err(KernelError::Bro(e2)) && e2 == e && after.project == before.project,
        Ok(doc) => exists|s: GeotechnicalObject| #[trigger] object_of(doc, source, s) && obj_ok(s) && (if claimed(
            before,
        ).contains(obj_id(s)) || before.project.object_at(obj_id(s)) is Some {
            r matches Err(e) && duplicate(e, obj_id(s)) && after.project == before.project
        } else {
            r matches Ok(o) && obj_same(o, s) && added(before.project, after.project, s)
        }),
    }
}

/// An import into a loaded project of a text that reads only as a document
/// whose object has an identifier already stored or claimed by a kept bore
/// is refused as a duplicate of it, and nothing changes.
pub proof fn law_kept_repeated_id_refused(
    l1: LoadedProject,
    l2: LoadedProject,
    xml: &str,
    source: Seq<char>,
    r: Result<GeotechnicalObject, KernelError>,
    k: Seq<char>,
)
    requires
        kept_imported(l1, l2, xml, source, r),
        claimed(l1).contains(k) || l1.project.object_at(k) is Some,
        forall|d: Result<BroDocument, BroError>| #[trigger] parsed_document(d, xml) ==> (d matches Ok(doc)
            && forall|s: GeotechnicalObject| #[trigger] object_of(doc, source, s) ==> obj_id(s) == k),
    ensures
        r matches Err(e) && duplicate(e, k),
        l2.project == l1.project,
        l2.opaque@ == l1.opaque@,
        l2.opaque_ids@ == l1.opaque_ids@,
{
    let d = choose|d: Result<BroDocument, BroError>| #[trigger] parsed_document(d, xml) && match d {
        Err(e) => r matches Err(KernelError::Bro(e2)) && e2 == e && l2.project == l1.project,
        Ok(doc) => exists|s: GeotechnicalObject| #[trigger] object_of(doc, source, s) && obj_ok(s) && (if claimed(
            l1,
        ).contains(obj_id(s)) || l1.project.object_at(obj_id(s)) is Some {
            r matches Err(e) && duplicate(e, obj_id(s)) && l2.project == l1.project
        } else {
            r matches Ok(o) && obj_same(o, s) && added(l1.project, l2.project, s)
        }),
    };
    let doc = d->Ok_0;
    let u = choose|s: GeotechnicalObject| #[trigger] object_of(doc, source, s) && obj_ok(s) && (if claimed(l1).contains(
        obj_id(s),
    ) || l1.project.object_at(obj_id(s)) is Some {
        r matches Err(e) && duplicate(e, obj_id(s)) && l2.project == l1.project
    } else {
        r matches Ok(o) && obj_same(o, s) && added(l1.project, l2.project, s)
    });
    assert(obj_id(u) == k);
}

impl LoadedProject {
    /// Reads a BRO document and stores it in the project, refusing an
    /// identifier already stored or claimed by a bore kept as it was;
    /// hands back the stored object. The kept bores stay as they are.
    pub fn import_bro(&mut self, xml: &str, source_file: &str) -> (r: Result<GeotechnicalObject, KernelError>)
        ensures
            kept_imported(*old(self), *final(self), xml, source_file@, r),
    {
        let parsed = parse_bro(xml, source_file);
        let ghost gp = parsed;
        let ghost dd = choose|d: Result<BroDocument, BroError>| #[trigger] parsed_document(d, xml) && match d {
            Ok(doc) => gp matches Ok(o) && object_of(doc, source_file@, o) && obj_ok(o),
            Err(e) => gp matches Err(KernelError::Bro(e2)) && e2 == e,
        };
        let object = match parsed {
            Ok(o) => o,
            Err(e) => {
                proof {
                    assert(parsed_document(dd, xml));
                }
                return Err(e);
            },
        };
        let ghost o0 = object;
        let id = chars_of(object.id());
        if contains_text(&self.opaque_ids, &id) {
            proof {
                if let Ok(doc) = dd {
                    assert(object_of(doc, source_file@, o0));
                }
                assert(parsed_document(dd, xml));
            }
            return Err(KernelError::DuplicateObject { id: string_of(&id) });
        }
        let r = self.project.insert_rejecting_duplicates(object);
        let ghost gr = r;
        proof {
            if let Ok(c) = gr {
                lemma_same_keeps(c, o0);
                lemma_same_sym(c, o0);
            }
            if let Ok(doc) = dd {
                assert(object_of(doc, source_file@, o0));
                if let Ok(c) = gr {
                    assert(added(old(self).project, self.project, o0));
                }
            }
            assert(parsed_document(dd, xml));
        }
        r
    }
}

proof fn lemma_bores_ids_free(objs0: Seq<GeotechnicalObject>, bores: Seq<BoreModel>)
    ensures
        bores_loaded(objs0, bores) matches Ok((objs, op, ids)) ==> forall|j: int|
            0 <= j < ids.len() ==> !has_id(objs, #[trigger] ids[j]),
    decreases bores.len(),
{
    if bores.len() > 0 {
        lemma_bores_ids_free(objs0, bores.drop_last());
        if let Ok((objs, op, ids)) = bores_loaded(objs0, bores.drop_last()) {
            let b = bores.last();
            match b.typed {
                Some(o) => {
                    if obj_ok(o) && !ids.contains(obj_id(o)) && !has_id(objs, obj_id(o)) {
                        assert forall|j: int| 0 <= j < ids.len() implies !has_id(objs.push(o), #[trigger] ids[j]) by {
                            if has_id(objs.push(o), ids[j]) {
                                let i = choose|i: int| 0 <= i < objs.push(o).len() && obj_id(#[trigger] objs.push(o)[i]) == ids[j];
                                if i < objs.len() {
                                    assert(objs.push(o)[i] == objs[i]);
                                } else {
                                    assert(ids.contains(obj_id(o)));
                                }
                            }
                        }
                    }
                },
                None => {
                    if let Some(w) = b.id {
                        if !has_id(objs, w) && !ids.contains(w) {
                            assert forall|j: int| 0 <= j < ids.push(w).len() implies !has_id(objs, #[trigger] ids.push(w)[j]) by {
                                if j < ids.len() {
                                    assert(ids.push(w)[j] == ids[j]);
                                }
                            }
                        }
                    }
                },
            }
        }
    }
}

/// An identifier claimed by a bore kept as it was is never that of a
/// loaded object: the loader refuses the clash in either order.
pub proof fn law_kept_bore_ids_stay_free(cpts: Seq<Cpt>, bores: Seq<BoreModel>)
    ensures
        load_spec(cpts, bores) matches Ok((objs, op, ids)) ==> forall|j: int|
            0 <= j < ids.len() ==> !has_id(objs, #[trigger] ids[j]) && find_obj(objs, ids[j]) is None,
{
    if let Ok(objs0) = cpts_loaded(cpts) {
        lemma_bores_ids_free(objs0, bores);
        if let Ok((objs, op, ids)) = bores_loaded(objs0, bores) {
            assert forall|j: int| 0 <= j < ids.len() implies !has_id(objs, #[trigger] ids[j]) && find_obj(objs, ids[j]) is None by {
                lemma_has_find(objs, ids[j]);
            }
        }
    }
}

} // verus!
