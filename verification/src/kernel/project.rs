//! The project: objects kept under their identifiers in ascending order,
//! with imports that refuse duplicates and merges with an explicit policy.

use vstd::prelude::*;

use crate::bro::{BroError, BroFailure};
use crate::bro::bhr_g::BhrGDocument;
use crate::bro::document::{BhrGtDocument, BroDocument, cpt_doc_ok, parsed_document};
use crate::calendar::Date;
use crate::cpt::{Cpt, CptError, cpt_ok, point_ok, auto_read};
use crate::cpt::layers::{Layer, detect_layers, layer_ready, layers_spec};
use crate::keyed::{KeyedVec, key_lt};
use crate::kernel::convert::{from_bro, cpt_of_document};
use crate::kernel::copy::obj_same;
use crate::bro::metadata::opt_string;
use crate::text::{push_str, starts_with, trim_start};
use crate::number::{lower_ascii, lower_ascii_exec};
use crate::text::{chars_of, string_of};

verus! {

/// A geotechnical object stored in a project.
#[derive(Clone, Debug)]
pub enum GeotechnicalObject {
    /// A cone penetration test.
    Cpt(Cpt),
    /// A geotechnical borehole document.
    BhrGt(BhrGtDocument),
    /// A geological borehole document.
    BhrG(BhrGDocument),
}

/// The domain family of an object.
#[derive(Clone, Copy, Debug, PartialEq, Eq, Structural)]
pub enum ObjectKind {
    Cpt,
    BhrGt,
    BhrG,
}

/// The identifier an object is kept under.
pub open spec fn obj_id(o: GeotechnicalObject) -> Seq<char> {
    match o {
        GeotechnicalObject::Cpt(c) => c.id@,
        GeotechnicalObject::BhrGt(d) => d.common.bro_id@,
        GeotechnicalObject::BhrG(d) => d.common.bro_id@,
    }
}

pub open spec fn obj_kind(o: GeotechnicalObject) -> ObjectKind {
    match o {
        GeotechnicalObject::Cpt(_) => ObjectKind::Cpt,
        GeotechnicalObject::BhrGt(_) => ObjectKind::BhrGt,
        GeotechnicalObject::BhrG(_) => ObjectKind::BhrG,
    }
}

/// What the project needs of an object: a CPT with values the parsers
/// produce.
pub open spec fn obj_ok(o: GeotechnicalObject) -> bool {
    o matches GeotechnicalObject::Cpt(c) ==> cpt_ok(c)
}

impl GeotechnicalObject {
    /// The stable identifier used as the project key.
    pub fn id(&self) -> (r: &str)
        ensures
            r@ == obj_id(*self),
    {
        match self {
            GeotechnicalObject::Cpt(cpt) => cpt.id.as_str(),
            GeotechnicalObject::BhrGt(document) => document.common.bro_id.as_str(),
            GeotechnicalObject::BhrG(document) => document.common.bro_id.as_str(),
        }
    }

    /// The object's domain family.
    pub fn kind(&self) -> (r: ObjectKind)
        ensures
            r == obj_kind(*self),
    {
        match self {
            GeotechnicalObject::Cpt(_) => ObjectKind::Cpt,
            GeotechnicalObject::BhrGt(_) => ObjectKind::BhrGt,
            GeotechnicalObject::BhrG(_) => ObjectKind::BhrG,
        }
    }
}

/// Errors of the project boundary.
#[derive(Debug)]
pub enum KernelError {
    /// A BRO document could not be parsed.
    Bro(BroError),
    /// A CPT document could not be parsed.
    Cpt(CptError),
    /// An object with the supplied identifier already exists.
    DuplicateObject { id: String },
    /// No object with the supplied identifier exists.
    ObjectNotFound { id: String },
    /// Project content violates a project invariant.
    InvalidProject { message: String },
    /// A conversion between supported domain models failed.
    Conversion { message: String },
    /// Content could not be exported.
    Export { message: String },
}

/// Policy for identifiers already in the target of a merge.
#[derive(Clone, Copy, Debug, PartialEq, Eq, Structural)]
pub enum DuplicatePolicy {
    /// Abort the merge without inserting any objects.
    Reject,
    /// Replace existing objects with incoming objects sharing their identifiers.
    Replace,
}

/// Descriptive metadata of a project.
#[derive(Clone, Debug)]
pub struct ProjectMetadata {
    pub title: String,
    pub client: String,
    pub location: String,
    pub project_number: String,
    pub author: String,
    pub date: Option<Date>,
}

impl ProjectMetadata {
    /// Metadata with empty texts and no date.
    pub fn empty() -> (r: Self)
        ensures
            r.title@ == Seq::<char>::empty(),
            r.client@ == Seq::<char>::empty(),
            r.location@ == Seq::<char>::empty(),
            r.project_number@ == Seq::<char>::empty(),
            r.author@ == Seq::<char>::empty(),
            r.date is None,
    {
        ProjectMetadata {
            title: String::new(),
            client: String::new(),
            location: String::new(),
            project_number: String::new(),
            author: String::new(),
            date: None,
        }
    }
}

/// An in-memory project with objects in ascending identifier order.
#[derive(Debug)]
pub struct GeotechnicalProject {
    metadata: ProjectMetadata,
    objects: KeyedVec<GeotechnicalObject>,
}

/// The CPTs among some objects, in order.
pub open spec fn cpts_of(os: Seq<GeotechnicalObject>) -> Seq<Cpt>
    decreases os.len(),
{
    if os.len() == 0 {
        seq![]
    } else {
        match os.last() {
            GeotechnicalObject::Cpt(c) => cpts_of(os.drop_last()).push(c),
            _ => cpts_of(os.drop_last()),
        }
    }
}

/// The identifier of an object not stored: `ObjectNotFound` names it.
pub open spec fn not_found(e: KernelError, id: Seq<char>) -> bool {
    e matches KernelError::ObjectNotFound { id: i } && i@ == id
}

pub open spec fn duplicate(e: KernelError, id: Seq<char>) -> bool {
    e matches KernelError::DuplicateObject { id: i } && i@ == id
}

impl GeotechnicalProject {
    /// The object kept under `k`.
    pub closed spec fn object_at(&self, k: Seq<char>) -> Option<GeotechnicalObject> {
        self.objects.get_spec(k)
    }

    /// The identifiers in ascending order.
    pub closed spec fn ids(&self) -> Seq<Seq<char>> {
        self.objects.entries().map_values(|e: (Seq<char>, GeotechnicalObject)| e.0)
    }

    /// The objects in ascending identifier order.
    pub closed spec fn stored(&self) -> Seq<GeotechnicalObject> {
        self.objects.entries().map_values(|e: (Seq<char>, GeotechnicalObject)| e.1)
    }

    pub closed spec fn meta(&self) -> ProjectMetadata {
        self.metadata
    }

    #[verifier::type_invariant]
    closed spec fn inv(&self) -> bool {
        forall|k: Seq<char>| #[trigger] self.objects.get_spec(k) matches Some(o) ==> obj_id(o) == k && obj_ok(o)
    }

    /// An empty project with the supplied metadata.
    pub fn new(metadata: ProjectMetadata) -> (r: Self)
        ensures
            forall|k: Seq<char>| #[trigger] r.object_at(k) is None,
            r.meta() == metadata,
    {
        let objects: KeyedVec<GeotechnicalObject> = KeyedVec::new();
        proof {
            assert forall|k: Seq<char>| #[trigger] objects.get_spec(k) is None by {
                crate::keyed::lemma_lookup_absent(objects.entries(), k);
            }
        }
        GeotechnicalProject { metadata, objects }
    }

    /// Stores `object` under its identifier unless one is stored there, and
    /// hands back a copy of what it stored.
    pub(crate) fn insert_rejecting_duplicates(&mut self, object: GeotechnicalObject) -> (r: Result<GeotechnicalObject, KernelError>)
        requires
            obj_ok(object),
        ensures
            match r {
                Ok(c) => obj_same(c, object) && obj_ok(c) && old(self).object_at(obj_id(object)) is None
                    && final(self).object_at(obj_id(object)) == Some(object) && forall|k: Seq<char>|
                    k != obj_id(object) ==> #[trigger] final(self).object_at(k) == old(self).object_at(k),
                Err(e) => old(self).object_at(obj_id(object)) is Some && duplicate(e, obj_id(object))
                    && *final(self) == *old(self),
            },
            final(self).meta() == old(self).meta(),
    {
        proof {
            use_type_invariant(&*self);
        }
        let id = chars_of(object.id());
        if self.objects.contains_key(&id) {
            return Err(KernelError::DuplicateObject { id: string_of(&id) });
        }
        let key = string_of(&id);
        let copy = object.copy();
        proof {
            lemma_same_keeps(copy, object);
        }
        let mut objs: KeyedVec<GeotechnicalObject> = KeyedVec::new();
        std::mem::swap(&mut objs, &mut self.objects);
        objs.insert(key, object);
        self.objects = objs;
        Ok(copy)
    }

    /// Whether an object is kept under `id`.
    pub fn contains(&self, id: &[char]) -> (r: bool)
        ensures
            r == self.object_at(id@) is Some,
    {
        self.objects.contains_key(id)
    }

    /// The object kept under `id`.
    pub fn get(&self, id: &str) -> (r: Result<&GeotechnicalObject, KernelError>)
        ensures
            match r {
                Ok(o) => self.object_at(id@) == Some(*o) && obj_id(*o) == id@,
                Err(e) => self.object_at(id@) is None && not_found(e, id@),
            },
    {
        proof {
            use_type_invariant(self);
        }
        let k = chars_of(id);
        match self.objects.get(&k) {
            Some(o) => Ok(o),
            None => Err(KernelError::ObjectNotFound { id: id.to_owned() }),
        }
    }

    /// Removes and returns the object kept under `id`.
    pub fn remove(&mut self, id: &str) -> (r: Result<GeotechnicalObject, KernelError>)
        ensures
            match r {
                Ok(o) => old(self).object_at(id@) == Some(o),
                Err(e) => old(self).object_at(id@) is None && not_found(e, id@),
            },
            final(self).object_at(id@) is None,
            forall|k: Seq<char>| k != id@ ==> #[trigger] final(self).object_at(k) == old(self).object_at(k),
            final(self).meta() == old(self).meta(),
    {
        proof {
            use_type_invariant(&*self);
        }
        let k = chars_of(id);
        let mut objs: KeyedVec<GeotechnicalObject> = KeyedVec::new();
        std::mem::swap(&mut objs, &mut self.objects);
        let r = objs.remove(&k);
        self.objects = objs;
        match r {
            Some(o) => Ok(o),
            None => Err(KernelError::ObjectNotFound { id: id.to_owned() }),
        }
    }

    /// The objects in ascending identifier order.
    pub fn objects(&self) -> (r: Vec<&GeotechnicalObject>)
        ensures
            r@.len() == self.ids().len(),
            forall|i: int| 0 <= i < r@.len() ==> self.object_at(self.ids()[i]) == Some(*#[trigger] r@[i]),
            forall|i: int| 0 <= i < r@.len() ==> obj_id(*#[trigger] r@[i]) == self.ids()[i],
            forall|i: int, j: int| 0 <= i < j < r@.len() ==> key_lt(#[trigger] self.ids()[i], #[trigger] self.ids()[j]),
    {
        proof {
            use_type_invariant(self);
        }
        let mut out: Vec<&GeotechnicalObject> = Vec::new();
        let n = self.objects.len();
        for i in 0..n
            invariant
                n == self.objects.entries().len(),
                out@.len() == i,
                forall|k: Seq<char>| #[trigger] self.objects.get_spec(k) matches Some(o) ==> obj_id(o) == k,
                forall|j: int| 0 <= j < i ==> self.object_at(self.ids()[j]) == Some(*#[trigger] out@[j]),
                forall|j: int| 0 <= j < i ==> obj_id(*#[trigger] out@[j]) == self.ids()[j],
        {
            let o = self.objects.value_at(i);
            out.push(o);
        }
        proof {
            let e = self.objects.entries();
            assert forall|i: int, j: int| 0 <= i < j < n implies key_lt(#[trigger] self.ids()[i], #[trigger] self.ids()[j]) by {
                crate::keyed::lemma_ascending_pair(e, i, j);
            }
        }
        out
    }

    /// The CPT objects in ascending identifier order.
    pub fn cpts(&self) -> (r: Vec<&Cpt>)
        ensures
            r@.map_values(|c: &Cpt| *c) == cpts_of(self.stored()),
    {
        proof {
            use_type_invariant(self);
        }
        let mut out: Vec<&Cpt> = Vec::new();
        let n = self.objects.len();
        for i in 0..n
            invariant
                n == self.objects.entries().len(),
                out@.map_values(|c: &Cpt| *c) == cpts_of(self.stored().take(i as int)),
        {
            let o = self.objects.value_at(i);
            let ghost before = out@.map_values(|c: &Cpt| *c);
            proof {
                assert(self.stored().take(i + 1).drop_last() =~= self.stored().take(i as int));
                assert(self.stored().take(i + 1).last() == *o);
            }
            match o {
                GeotechnicalObject::Cpt(c) => {
                    out.push(c);
                    proof {
                        assert(out@.map_values(|c: &Cpt| *c) =~= before.push(*c));
                    }
                },
                _ => {},
            }
        }
        proof {
            assert(self.stored().take(n as int) =~= self.stored());
        }
        out
    }

    /// The project metadata.
    pub fn metadata(&self) -> (r: &ProjectMetadata)
        ensures
            *r == self.meta(),
    {
        &self.metadata
    }

    /// Replaces the project metadata.
    pub fn set_metadata(&mut self, metadata: ProjectMetadata)
        ensures
            final(self).meta() == metadata,
            forall|k: Seq<char>| #[trigger] final(self).object_at(k) == old(self).object_at(k),
    {
        proof {
            use_type_invariant(&*self);
        }
        self.metadata = metadata;
    }
}

/// `after` is `before` with `o`'s values stored under `o`'s identifier,
/// which was free; nothing else changed.
pub open spec fn added(before: GeotechnicalProject, after: GeotechnicalProject, o: GeotechnicalObject) -> bool {
    &&& before.object_at(obj_id(o)) is None
    &&& after.object_at(obj_id(o)) matches Some(s) && obj_same(s, o)
    &&& forall|k: Seq<char>| k != obj_id(o) ==> #[trigger] after.object_at(k) == before.object_at(k)
    &&& after.meta() == before.meta()
}

/// `o` is the object made of the document `d` read from `source`.
pub open spec fn object_of(d: BroDocument, source: Seq<char>, o: GeotechnicalObject) -> bool {
    match d {
        BroDocument::Cpt(x) => o matches GeotechnicalObject::Cpt(c) && cpt_of_document(c, x, source),
        BroDocument::BhrGt(x) => o == GeotechnicalObject::BhrGt(x),
        BroDocument::BhrG(x) => o == GeotechnicalObject::BhrG(x),
    }
}

/// A name ending in `.ifcgeo`, in any case of ASCII letters.
pub open spec fn ifcgeo_name(s: Seq<char>) -> bool {
    let l = s.map_values(|c: char| lower_ascii(c));
    l.len() >= 7 && l.subrange(l.len() - 7, l.len() as int) == ".ifcgeo"@
}

/// The message of the error for an object that is not a CPT.
pub open spec fn not_cpt_message(id: Seq<char>) -> Seq<char> {
    "geotechnical object "@ + id + " is not a CPT"@
}

pub open spec fn not_fitting_message() -> Seq<char> {
    "CPT values exceed the supported precision"@
}

pub(crate) proof fn lemma_same_keeps(a: GeotechnicalObject, b: GeotechnicalObject)
    requires
        obj_same(a, b),
        obj_ok(b),
    ensures
        obj_id(a) == obj_id(b),
        obj_ok(a),
{
    match (a, b) {
        (GeotechnicalObject::Cpt(x), GeotechnicalObject::Cpt(y)) => {
            assert(x.points@ == y.points@);
        },
        _ => {},
    }
}

/// The object made of a BRO document read from `source_file`: a CPT
/// document becomes a CPT, borehole documents are kept as they are.
pub fn object_from_document(d: BroDocument, source_file: &str) -> (r: GeotechnicalObject)
    requires
        d matches BroDocument::Cpt(x) ==> cpt_doc_ok(x),
    ensures
        object_of(d, source_file@, r),
        obj_ok(r),
{
    match d {
        BroDocument::Cpt(x) => GeotechnicalObject::Cpt(from_bro(x, source_file)),
        BroDocument::BhrGt(x) => GeotechnicalObject::BhrGt(x),
        BroDocument::BhrG(x) => GeotechnicalObject::BhrG(x),
    }
}

/// Reads a BRO document and makes it an object.
///
/// The document is what `parsed_document` says reading `xml` gives; a read
/// error is reported as `KernelError::Bro`, and a read document becomes
/// the object `object_from_document` makes of it.
pub fn parse_bro(xml: &str, source_file: &str) -> (r: Result<GeotechnicalObject, KernelError>)
    ensures
        exists|d: Result<BroDocument, BroError>| #[trigger] parsed_document(d, xml) && match d {
            Ok(doc) => r matches Ok(o) && object_of(doc, source_file@, o) && obj_ok(o),
            Err(e) => r matches Err(KernelError::Bro(e2)) && e2 == e,
        },
        match r {
            Ok(o) => obj_ok(o) && exists|d: BroDocument| #[trigger] object_of(d, source_file@, o),
            Err(e) => e is Bro,
        },
{
    let d = crate::bro::document::parse(xml);
    let ghost gd = d;
    match d {
        Ok(doc) => {
            let o = object_from_document(doc, source_file);
            proof {
                assert(parsed_document(gd, xml));
            }
            Ok(o)
        },
        Err(e) => {
            let r = Err(KernelError::Bro(e));
            proof {
                assert(parsed_document(gd, xml));
            }
            r
        },
    }
}

/// Whether a source name ends in `.ifcgeo`, ignoring ASCII case.
pub fn is_ifcgeo_source(source_file: &str) -> (r: bool)
    ensures
        r == ifcgeo_name(source_file@),
{
    let c = chars_of(source_file);
    let n = c.len();
    let ghost l = source_file@.map_values(|c: char| lower_ascii(c));
    if n < 7 {
        return false;
    }
    let suffix = chars_of(".ifcgeo");
    let mut i: usize = 0;
    while i < 7
        invariant
            c@ == source_file@,
            n == c@.len(),
            n >= 7,
            l == source_file@.map_values(|c: char| lower_ascii(c)),
            suffix@ == ".ifcgeo"@,
            i <= 7,
            forall|j: int| 0 <= j < i ==> l[n - 7 + j] == #[trigger] suffix@[j],
        decreases 7 - i,
    {
        proof {
            reveal_strlit(".ifcgeo");
        }
        if lower_ascii_exec(c[n - 7 + i]) != suffix[i] {
            proof {
                assert(l.subrange(n - 7, n as int)[i as int] != ".ifcgeo"@[i as int]);
            }
            return false;
        }
        i = i + 1;
    }
    proof {
        reveal_strlit(".ifcgeo");
        assert(l.subrange(n - 7, n as int) =~= ".ifcgeo"@);
    }
    true
}

impl GeotechnicalProject {
    /// Reads a BRO document and stores it, refusing an identifier already
    /// stored; hands back the stored object.
    pub fn import_bro(&mut self, xml: &str, source_file: &str) -> (r: Result<GeotechnicalObject, KernelError>)
        ensures
            bro_imported(*old(self), *final(self), xml, source_file@, r),
            match r {
                Ok(o) => added(*old(self), *final(self), o) && obj_ok(o) && exists|d: BroDocument, s: GeotechnicalObject|
                    #[trigger] object_of(d, source_file@, s) && obj_same(o, s),
                Err(e) => *final(self) == *old(self) && (e is Bro || (e matches KernelError::DuplicateObject { id }
                    && old(self).object_at(id@) is Some)),
            },
    {
        let parsed = parse_bro(xml, source_file);
        let ghost gp = parsed;
        let ghost dd = choose|d: Result<BroDocument, BroError>| #[trigger] parsed_document(d, xml) && match d {
            Ok(doc) => gp matches Ok(o) && object_of(doc, source_file@, o) && obj_ok(o),
            Err(e) => gp matches Err(KernelError::Bro(e2)) && e2 == e,
        };
        let object = match parsed {
            Ok(o) => o,
            Err(e) => {
                proof {
                    assert(parsed_document(dd, xml));
                }
                return Err(e);
            },
        };
        let ghost o0 = object;
        let r = self.insert_rejecting_duplicates(object);
        let ghost gr = r;
        proof {
            if let Ok(c) = gr {
                lemma_same_keeps(c, o0);
                lemma_same_sym(c, o0);
                let d = choose|d: BroDocument| #[trigger] object_of(d, source_file@, o0);
                assert(object_of(d, source_file@, o0) && obj_same(c, o0));
            }
            if let Ok(doc) = dd {
                assert(object_of(doc, source_file@, o0));
                if let Ok(c) = gr {
                    assert(added(*old(self), *self, o0));
                }
            }
            assert(parsed_document(dd, xml));
        }
        r
    }

    /// Stores a CPT read elsewhere, recording `source_file` as its source;
    /// refuses a read error, values of sizes the parsers do not produce,
    /// and an identifier already stored. Hands back the stored CPT.
    pub fn import_parsed_cpt(&mut self, parsed: Result<Cpt, CptError>, source_file: &str) -> (r: Result<Cpt, KernelError>)
        ensures
            stored_from(parsed, *old(self), *final(self), r, source_file@),
    {
        let mut cpt = match parsed {
            Ok(c) => c,
            Err(e) => {
                return Err(KernelError::Cpt(e));
            },
        };
        if !crate::cpt::cpt_fits(&cpt) {
            return Err(KernelError::Conversion { message: "CPT values exceed the supported precision".to_string() });
        }
        let ghost c0 = cpt;
        cpt.metadata.source_file = source_file.to_string();
        let r = self.insert_rejecting_duplicates(GeotechnicalObject::Cpt(cpt));
        match r {
            Ok(GeotechnicalObject::Cpt(c)) => {
                proof {
                    lemma_same_sym(GeotechnicalObject::Cpt(c), GeotechnicalObject::Cpt(cpt));
                }
                Ok(c)
            },
            Ok(_) => Err(KernelError::InvalidProject { message: "stored object changed its kind".to_string() }),
            Err(e) => Err(e),
        }
    }

    /// Reads a CPT from GEF or BRO XML content and stores it (see
    /// `import_parsed_cpt`). IfcGeo content is read outside the library and
    /// handed to `import_parsed_cpt`.
    pub fn import_cpt(&mut self, content: &str, source_file: &str) -> (r: Result<Cpt, KernelError>)
        requires
            !ifcgeo_name(source_file@),
        ensures
            !starts_with(trim_start(content@), "#GEF"@) && !starts_with(trim_start(content@), "<"@) ==> r
                == Err::<Cpt, KernelError>(KernelError::Cpt(CptError::UnknownFormat)) && *final(self) == *old(self),
            match r {
                Ok(c) => c.metadata.source_file@ == source_file@ && added(*old(self), *final(self), GeotechnicalObject::Cpt(c)),
                Err(_) => *final(self) == *old(self),
            },
            exists|p: Result<Cpt, CptError>| #[trigger] auto_read(p, content) && stored_from(p, *old(self), *final(self), r, source_file@),
    {
        let parsed = crate::cpt::parse_auto(content);
        let ghost gp = parsed;
        let r = self.import_parsed_cpt(parsed, source_file);
        let ghost gr = r;
        proof {
            if let Ok(c) = gr {
                if let Ok(c0) = gp {
                    assert(sourced(c, c0, source_file@));
                }
            }
        }
        r
    }

    /// Detects the soil layers of the CPT stored under `id`.
    pub fn detect_cpt_layers(&self, id: &str) -> (r: Result<Vec<Layer>, KernelError>)
        ensures
            match self.object_at(id@) {
                None => r matches Err(e) && not_found(e, id@),
                Some(GeotechnicalObject::Cpt(c)) => r matches Ok(ls) && ls@ == layers_spec(c.points@),
                Some(_) => r matches Err(KernelError::Conversion { message }) && message@ == not_cpt_message(id@),
            },
    {
        proof {
            use_type_invariant(self);
        }
        match self.get(id) {
            Err(e) => Err(e),
            Ok(GeotechnicalObject::Cpt(c)) => {
                proof {
                    assert(self.objects.get_spec(id@) == Some(GeotechnicalObject::Cpt(*c)));
                    assert(cpt_ok(*c));
                    crate::number::lemma_pow_facts();
                    assert forall|i: int| 0 <= i < c.points@.len() implies #[trigger] layer_ready(c.points@[i]) by {
                        assert(point_ok(c.points@[i]));
                    }
                }
                Ok(detect_layers(c))
            },
            Ok(_) => {
                let mut m: Vec<char> = Vec::new();
                push_str(&mut m, "geotechnical object ");
                push_str(&mut m, id);
                push_str(&mut m, " is not a CPT");
                Err(KernelError::Conversion { message: string_of(&m) })
            },
        }
    }
}

/// What storing the read result `parsed` does to a project `before`,
/// giving `after` and the answer `r`: a read error is handed on, values of
/// sizes the parsers do not produce and an identifier already stored are
/// refused, and otherwise the CPT is added with `source` as its source.
pub open spec fn stored_from(
    parsed: Result<Cpt, CptError>,
    before: GeotechnicalProject,
    after: GeotechnicalProject,
    r: Result<Cpt, KernelError>,
    source: Seq<char>,
) -> bool {
    match parsed {
        Err(e0) => r == Err::<Cpt, KernelError>(KernelError::Cpt(e0)) && after == before,
        Ok(c0) => if !cpt_ok(c0) {
            r matches Err(KernelError::Conversion { message }) && message@ == not_fitting_message() && after == before
        } else if before.object_at(c0.id@) is Some {
            r matches Err(e) && duplicate(e, c0.id@) && after == before
        } else {
            r matches Ok(c) && sourced(c, c0, source) && added(before, after, GeotechnicalObject::Cpt(c))
        },
    }
}

/// `c` holds the values of `c0`, with `source` recorded as its source file.
pub open spec fn sourced(c: Cpt, c0: Cpt, source: Seq<char>) -> bool {
    &&& c.id@ == c0.id@
    &&& c.position == c0.position
    &&& c.points@ == c0.points@
    &&& c.metadata.source_file@ == source
    &&& opt_string(c.metadata.project_name) == opt_string(c0.metadata.project_name)
    &&& opt_string(c.metadata.project_number) == opt_string(c0.metadata.project_number)
    &&& c.metadata.date == c0.metadata.date
    &&& opt_string(c.metadata.equipment) == opt_string(c0.metadata.equipment)
    &&& c.metadata.ground_level_nap == c0.metadata.ground_level_nap
    &&& c.metadata.extra.entries() == c0.metadata.extra.entries()
}

pub(crate) proof fn lemma_same_sym(a: GeotechnicalObject, b: GeotechnicalObject)
    requires
        obj_same(a, b),
    ensures
        obj_same(b, a),
{
}

/// What importing `xml` read from `source` does to `before`, giving `after`
/// and the answer `r`: the document is what `parsed_document` says reading
/// `xml` gives; a read error is handed on, the identifier of a stored
/// object is refused, and otherwise the object made of the document is
/// added. On refusal nothing changes.
pub open spec fn bro_imported(
    before: GeotechnicalProject,
    after: GeotechnicalProject,
    xml: &str,
    source: Seq<char>,
    r: Result<GeotechnicalObject, KernelError>,
) -> bool {
    exists|d: Result<BroDocument, BroError>| #[trigger] parsed_document(d, xml) && match d {
        Err(e) => r matches Err(KernelError::Bro(e2)) && e2 == e && after == before,
        Ok(doc) => exists|s: GeotechnicalObject| #[trigger] object_of(doc, source, s) && obj_ok(s) && (if before.object_at(
            obj_id(s),
        ) is Some {
            r matches Err(e) && duplicate(e, obj_id(s)) && after == before
        } else {
            r matches Ok(o) && obj_same(o, s) && added(before, after, s)
        }),
    }
}

/// What merging `other` into `before` under `policy` does, giving `after`
/// and the answer `r` (see `merge_from`).
pub open spec fn merged_into(
    before: GeotechnicalProject,
    other: GeotechnicalProject,
    policy: DuplicatePolicy,
    after: GeotechnicalProject,
    r: Result<(), KernelError>,
) -> bool {
    &&& (r is Err <==> policy == DuplicatePolicy::Reject && exists|k: Seq<char>|
        #[trigger] other.object_at(k) is Some && before.object_at(k) is Some)
    &&& match r {
        Err(e) => after == before && exists|i: int| #[trigger] first_shared(before, other, i) && duplicate(e, other.ids()[i]),
        Ok(()) => after.meta() == before.meta() && forall|k: Seq<char>|
            #[trigger] after.object_at(k) == (match other.object_at(k) {
                Some(o) => Some(o),
                None => before.object_at(k),
            }),
    }
}

/// The first identifier of `other`, in ascending order, that `target` stores.
pub open spec fn first_shared(target: GeotechnicalProject, other: GeotechnicalProject, i: int) -> bool {
    &&& 0 <= i < other.ids().len()
    &&& target.object_at(other.ids()[i]) is Some
    &&& forall|j: int| 0 <= j < i ==> target.object_at(#[trigger] other.ids()[j]) is None
}

impl GeotechnicalProject {
    /// Every identifier listed is one stored, and every stored one listed.
    proof fn lemma_ids(&self)
        requires
            self.inv(),
        ensures
            forall|i: int| 0 <= i < self.ids().len() ==> #[trigger] self.object_at(self.ids()[i]) is Some,
            forall|k: Seq<char>| #[trigger] self.object_at(k) is Some ==> exists|i: int|
                0 <= i < self.ids().len() && #[trigger] self.ids()[i] == k,
    {
        let e = self.objects.entries();

        assert forall|i: int| 0 <= i < self.ids().len() implies #[trigger] self.object_at(self.ids()[i]) is Some by {
            crate::keyed::lemma_lookup_some(e, e[i].0);
            assert(e[i].0 == self.ids()[i]);
        }
        assert forall|k: Seq<char>| #[trigger] self.object_at(k) is Some implies exists|i: int|
            0 <= i < self.ids().len() && #[trigger] self.ids()[i] == k by {
            crate::keyed::lemma_lookup_some(e, k);
            let i = choose|i: int| 0 <= i < e.len() && #[trigger] e[i].0 == k;
            assert(self.ids()[i] == k);
        }
    }

    /// Moves the objects of `other` in. Under `Reject`, the first of its
    /// identifiers (in ascending order) already stored is refused and
    /// nothing changes; under `Replace`, its objects replace those under
    /// the same identifiers.
    pub fn merge_from(&mut self, other: GeotechnicalProject, policy: DuplicatePolicy) -> (r: Result<(), KernelError>)
        ensures
            merged_into(*old(self), other, policy, *final(self), r),
    {
        proof {
            use_type_invariant(&*self);
            use_type_invariant(&other);
            other.lemma_ids();
        }
        if policy == DuplicatePolicy::Reject {
            let n = other.objects.len();
            let mut i: usize = 0;
            while i < n
                invariant
                    n == other.ids().len(),
                    n == other.objects.entries().len(),
                    *self == *old(self),
                    policy == DuplicatePolicy::Reject,
                    other.ids() == other.objects.entries().map_values(|e: (Seq<char>, GeotechnicalObject)| e.0),
                    forall|j: int| 0 <= j < n ==> #[trigger] other.object_at(other.ids()[j]) is Some,
                    i <= n,
                    forall|j: int| 0 <= j < i ==> self.object_at(#[trigger] other.ids()[j]) is None,
                decreases n - i,
            {
                let key = other.objects.key_at(i);
                let k = chars_of(key.as_str());
                if self.objects.contains_key(&k) {
                    proof {
                        assert(k@ == other.ids()[i as int]);
                        assert(first_shared(*self, other, i as int));
                        assert(other.object_at(other.ids()[i as int]) is Some);
                        assert(other.object_at(k@) is Some && self.object_at(k@) is Some);
                    }
                    return Err(KernelError::DuplicateObject { id: string_of(&k) });
                }
                i = i + 1;
            }
            proof {
                assert forall|k: Seq<char>| #[trigger] other.object_at(k) is Some implies self.object_at(k) is None by {
                    let j = choose|j: int| 0 <= j < other.ids().len() && #[trigger] other.ids()[j] == k;
                    assert(self.object_at(other.ids()[j]) is None);
                }
            }
        }
        let ghost before = *self;
        let GeotechnicalProject { metadata: _, objects: incoming } = other;
        let mut objs: KeyedVec<GeotechnicalObject> = KeyedVec::new();
        std::mem::swap(&mut objs, &mut self.objects);
        objs.absorb(incoming);
        self.objects = objs;
        proof {
            assert forall|k: Seq<char>| #[trigger] self.object_at(k) == (match other.object_at(k) {
                Some(o) => Some(o),
                None => before.object_at(k),
            }) by {}
        }
        Ok(())
    }
}

/// Removing the object an import added gives back the objects the project
/// held before the import.
pub proof fn law_remove_undoes_import(
    before: GeotechnicalProject,
    imported: GeotechnicalProject,
    removed: GeotechnicalProject,
    o: GeotechnicalObject,
)
    requires
        added(before, imported, o),
        removed.object_at(obj_id(o)) is None,
        forall|k: Seq<char>| k != obj_id(o) ==> #[trigger] removed.object_at(k) == imported.object_at(k),
    ensures
        forall|k: Seq<char>| #[trigger] removed.object_at(k) == before.object_at(k),
{
    assert forall|k: Seq<char>| #[trigger] removed.object_at(k) == before.object_at(k) by {
        if k != obj_id(o) {
            assert(imported.object_at(k) == before.object_at(k));
        }
    }
}

/// Once an import has stored an object, a later import of a text that
/// reads only as a document whose object has the same identifier is
/// refused as a duplicate of that identifier, and the project stays as it
/// was.
pub proof fn law_repeated_id_refused(
    p0: GeotechnicalProject,
    p1: GeotechnicalProject,
    p2: GeotechnicalProject,
    xml1: &str,
    xml2: &str,
    s1: Seq<char>,
    s2: Seq<char>,
    r1: Result<GeotechnicalObject, KernelError>,
    r2: Result<GeotechnicalObject, KernelError>,
)
    requires
        bro_imported(p0, p1, xml1, s1, r1),
        r1 is Ok,
        bro_imported(p1, p2, xml2, s2, r2),
        forall|d: Result<BroDocument, BroError>| #[trigger] parsed_document(d, xml2) ==> (d matches Ok(doc)
            && forall|s: GeotechnicalObject| #[trigger] object_of(doc, s2, s) ==> obj_id(s) == obj_id(r1->Ok_0)),
    ensures
        r2 matches Err(e) && duplicate(e, obj_id(r1->Ok_0)),
        p2 == p1,
{
    let o = r1->Ok_0;
    let d1 = choose|d: Result<BroDocument, BroError>| #[trigger] parsed_document(d, xml1) && match d {
        Err(e) => r1 matches Err(KernelError::Bro(e2)) && e2 == e && p1 == p0,
        Ok(doc) => exists|s: GeotechnicalObject| #[trigger] object_of(doc, s1, s) && obj_ok(s) && (if p0.object_at(
            obj_id(s),
        ) is Some {
            r1 matches Err(e) && duplicate(e, obj_id(s)) && p1 == p0
        } else {
            r1 matches Ok(x) && obj_same(x, s) && added(p0, p1, s)
        }),
    };
    let doc1 = d1->Ok_0;
    let t = choose|s: GeotechnicalObject| #[trigger] object_of(doc1, s1, s) && obj_ok(s) && (if p0.object_at(obj_id(s)) is Some {
        r1 matches Err(e) && duplicate(e, obj_id(s)) && p1 == p0
    } else {
        r1 matches Ok(x) && obj_same(x, s) && added(p0, p1, s)
    });
    lemma_same_keeps(o, t);
    assert(p1.object_at(obj_id(o)) is Some);
    let d2 = choose|d: Result<BroDocument, BroError>| #[trigger] parsed_document(d, xml2) && match d {
        Err(e) => r2 matches Err(KernelError::Bro(e2)) && e2 == e && p2 == p1,
        Ok(doc) => exists|s: GeotechnicalObject| #[trigger] object_of(doc, s2, s) && obj_ok(s) && (if p1.object_at(
            obj_id(s),
        ) is Some {
            r2 matches Err(e) && duplicate(e, obj_id(s)) && p2 == p1
        } else {
            r2 matches Ok(x) && obj_same(x, s) && added(p1, p2, s)
        }),
    };
    let doc2 = d2->Ok_0;
    let u = choose|s: GeotechnicalObject| #[trigger] object_of(doc2, s2, s) && obj_ok(s) && (if p1.object_at(obj_id(s)) is Some {
        r2 matches Err(e) && duplicate(e, obj_id(s)) && p2 == p1
    } else {
        r2 matches Ok(x) && obj_same(x, s) && added(p1, p2, s)
    });
    assert(obj_id(u) == obj_id(o));
}

/// A merge refused under `Reject` leaves the target as it was; the same
/// merge under `Replace` succeeds, the incoming objects replacing those
/// under their identifiers and every other object staying.
pub proof fn law_merge_policies(
    before: GeotechnicalProject,
    other: GeotechnicalProject,
    a1: GeotechnicalProject,
    r1: Result<(), KernelError>,
    a2: GeotechnicalProject,
    r2: Result<(), KernelError>,
)
    requires
        merged_into(before, other, DuplicatePolicy::Reject, a1, r1),
        merged_into(before, other, DuplicatePolicy::Replace, a2, r2),
    ensures
        r1 is Err ==> a1 == before,
        r1 is Err <==> exists|k: Seq<char>| #[trigger] other.object_at(k) is Some && before.object_at(k) is Some,
        r2 is Ok,
        forall|k: Seq<char>| #[trigger] a2.object_at(k) == (match other.object_at(k) {
            Some(o) => Some(o),
            None => before.object_at(k),
        }),
        r1 is Ok ==> forall|k: Seq<char>| #[trigger] a1.object_at(k) == a2.object_at(k),
{
    if r1 is Ok {
        assert forall|k: Seq<char>| #[trigger] a1.object_at(k) == a2.object_at(k) by {
            assert(a1.object_at(k) == (match other.object_at(k) {
                Some(o) => Some(o),
                None => before.object_at(k),
            }));
        }
    }
}

} // verus!
