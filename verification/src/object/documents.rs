//! The process-wide registry mapping a document handle to its object arena.

use vstd::prelude::*;
use super::catalog::Catalog;
use super::document::Document;
use super::object_id::ObjectId;
use super::objects::{arena_get, Objects};
use super::pages::Pages;
use super::{Object, ObjectType};

verus! {

/// Document identifier.
pub type DocumentId = u16;

/// Looks an arena up by handle, as a model sequence.
pub open spec fn registry_get(s: Seq<(DocumentId, Seq<(ObjectId, Object)>)>, id: DocumentId) -> Option<
    Seq<(ObjectId, Object)>,
>
    decreases s.len(),
{
    if s.len() == 0 {
        Option::None
    } else if s.first().0 == id {
        Option::Some(s.first().1)
    } else {
        registry_get(s.drop_first(), id)
    }
}

/// Whether a handle is taken.
pub open spec fn registry_contains(s: Seq<(DocumentId, Seq<(ObjectId, Object)>)>, id: DocumentId) -> bool {
    registry_get(s, id) is Some
}

/// The table of all documents, each with its own object arena.
#[derive(Debug)]
pub struct Documents {
    pub documents: Vec<(DocumentId, Objects)>,
}

impl Documents {
    /// The registry as a sequence of handle/arena-model pairs.
    pub closed spec fn model(&self) -> Seq<(DocumentId, Seq<(ObjectId, Object)>)> {
        Seq::new(self.documents@.len(), |i: int| (self.documents@[i].0, self.documents@[i].1.model()))
    }

    /// Every arena can still issue identifiers.
    pub closed spec fn wf(&self) -> bool {
        forall|i: int| 0 <= i < self.documents@.len() ==> (#[trigger] self.documents@[i].1).wf()
    }

    /// Creates an empty registry.
    pub fn new() -> (r: Documents)
        ensures
            r.model() == Seq::<(DocumentId, Seq<(ObjectId, Object)>)>::empty(),
            r.wf(),
    {
        let r = Documents { documents: Vec::new() };
        proof {
            assert(r.model() =~= Seq::<(DocumentId, Seq<(ObjectId, Object)>)>::empty());
        }
        r
    }

    /// Whether the registry holds the handle.
    pub fn contains(&self, id: DocumentId) -> (r: bool)
        ensures
            r == registry_contains(self.model(), id),
    {
        let mut i: usize = 0;
        proof {
            assert(self.model().skip(0) =~= self.model());
        }
        while i < self.documents.len()
            invariant
                i <= self.documents@.len(),
                registry_get(self.model(), id) == registry_get(self.model().skip(i as int), id),
                self.model().len() == self.documents@.len(),
                forall|j: int|
                    0 <= j < self.documents@.len() ==> #[trigger] self.model()[j] == (
                        self.documents@[j].0,
                        self.documents@[j].1.model(),
                    ),
            decreases self.documents@.len() - i,
        {
            proof {
                assert(self.model().skip(i as int).first() == self.model()[i as int]);
                assert(self.model().skip(i as int).drop_first() =~= self.model().skip(i as int + 1));
            }
            if self.documents[i].0 == id {
                return true;
            }
            i = i + 1;
        }
        proof {
            assert(self.model().skip(self.model().len() as int).len() == 0);
        }
        false
    }

    /// Generates a fresh document handle: random values are drawn and
    /// checked against the held handles; with persistent bad luck the free
    /// handles are scanned directly.
    pub fn new_document_id(&self) -> (r: DocumentId)
        requires
            exists|k: DocumentId| !registry_contains(self.model(), k),
        ensures
            !registry_contains(self.model(), r),
    {
        let mut tries: u32 = 64;
        while tries > 0
            invariant
                exists|k: DocumentId| !registry_contains(self.model(), k),
            decreases tries,
        {
            let candidate = random_u16();
            if !self.contains(candidate) {
                return candidate;
            }
            tries = tries - 1;
        }
        let mut c: u32 = 0;
        while c < 65536
            invariant
                c <= 65536,
                exists|k: DocumentId| !registry_contains(self.model(), k),
                forall|j: DocumentId|
                    (j as u32) < c ==> #[trigger] registry_contains(self.model(), j),
            decreases 65536 - c,
        {
            if !self.contains(c as u16) {
                return c as u16;
            }
            proof {
                assert(registry_contains(self.model(), c as u16));
                assert forall|j: DocumentId| (j as u32) < c + 1 implies #[trigger] registry_contains(
                    self.model(),
                    j,
                ) by {
                    if (j as u32) < c {
                    } else {
                        assert(j == c as u16);
                    }
                }
            }
            c = c + 1;
        }
        proof {
            let k = choose|k: DocumentId| !registry_contains(self.model(), k);
            assert((k as u32) < 65536);
            assert(registry_contains(self.model(), k));
            assert(false);
        }
        0
    }

    /// Registers a new document: a fresh arena holding the document record,
    /// an empty page tree, and a catalog pointing at that tree.
    pub fn register_document(&mut self) -> (r: DocumentId)
        requires
            old(self).wf(),
            exists|k: DocumentId| !registry_contains(old(self).model(), k),
        ensures
            final(self).wf(),
            !registry_contains(old(self).model(), r),
            final(self).model().len() == old(self).model().len() + 1,
            ({
                let arena = final(self).model().last().1;
                &&& final(self).model().last().0 == r
                &&& final(self).model() == old(self).model().push((r, arena))
                &&& arena.len() == 3
                &&& arena[0].0 == (ObjectId { object_number: 0, generation_number: 0 })
                &&& arena[0].1 == Object::Document(
                    Document {
                        id: ObjectId { object_number: 0, generation_number: 0 },
                        document_id: r,
                    },
                )
                &&& arena[1].0 == (ObjectId { object_number: 1, generation_number: 0 })
                &&& arena[1].1 is Pages
                &&& arena[1].1->Pages_0.id == (ObjectId { object_number: 1, generation_number: 0 })
                &&& arena[1].1->Pages_0.kids@.len() == 0
                &&& arena[1].1->Pages_0.count == 0
                &&& arena[2].0 == (ObjectId { object_number: 2, generation_number: 0 })
                &&& arena[2].1 == Object::Catalog(
                    Catalog {
                        id: ObjectId { object_number: 2, generation_number: 0 },
                        pages: Option::Some(ObjectId { object_number: 1, generation_number: 0 }),
                    },
                )
            }),
    {
        let new_id = self.new_document_id();
        let new_doc = Object::Document(Document::new_with_id(new_id));
        let mut objects = Objects::new();
        objects.insert(new_doc);
        proof {
            assert(objects.model() =~= seq![
                (
                    ObjectId { object_number: 0, generation_number: 0 },
                    Object::Document(
                        Document {
                            id: ObjectId { object_number: 0, generation_number: 0 },
                            document_id: new_id,
                        },
                    ),
                ),
            ]);
        }
        let ghost m1 = objects.model();
        let pages_id = objects.new_object_id();
        proof {
            assert(pages_id == ObjectId { object_number: 1, generation_number: 0 });
        }
        let pages = Pages::new_at(pages_id);
        objects.insert(Object::Pages(pages));
        proof {
            reveal_with_fuel(crate::object::objects::arena_upsert, 4);
            assert(objects.model() =~= m1 + seq![
                (ObjectId { object_number: 1, generation_number: 0 }, Object::Pages(pages)),
            ]);
        }
        let ghost m2 = objects.model();
        let id = objects.new_object_id();
        proof {
            assert(id == ObjectId { object_number: 2, generation_number: 0 });
        }
        let mut catalog = Catalog { id, pages: Option::None };
        catalog.set_pages(Option::Some(pages_id));
        objects.insert(Object::Catalog(catalog));
        proof {
            reveal_with_fuel(crate::object::objects::arena_upsert, 4);
            assert(objects.model() =~= m2 + seq![
                (
                    ObjectId { object_number: 2, generation_number: 0 },
                    Object::Catalog(
                        Catalog {
                            id: ObjectId { object_number: 2, generation_number: 0 },
                            pages: Option::Some(
                                ObjectId { object_number: 1, generation_number: 0 },
                            ),
                        },
                    ),
                ),
            ]);
        }
        proof {
            assert(objects.model() =~= seq![
                (
                    ObjectId { object_number: 0, generation_number: 0 },
                    Object::Document(
                        Document {
                            id: ObjectId { object_number: 0, generation_number: 0 },
                            document_id: new_id,
                        },
                    ),
                ),
            ] + seq![(ObjectId { object_number: 1, generation_number: 0 }, Object::Pages(pages))]
                + seq![
                (
                    ObjectId { object_number: 2, generation_number: 0 },
                    Object::Catalog(
                        Catalog {
                            id: ObjectId { object_number: 2, generation_number: 0 },
                            pages: Option::Some(
                                ObjectId { object_number: 1, generation_number: 0 },
                            ),
                        },
                    ),
                ),
            ]);
        }
        let ghost pre = self.model();
        self.documents.push((new_id, objects));
        proof {
            assert(self.model() =~= pre.push((new_id, self.documents@.last().1.model())));
            assert(forall|j: int|
                0 <= j < old(self).documents@.len() ==> self.documents@[j]
                    == old(self).documents@[j]);
        }
        new_id
    }

    /// Gets the arena of a document.
    pub fn get_arena(&self, document_id: DocumentId) -> (r: Option<&Objects>)
        ensures
            match r {
                Option::Some(o) => registry_get(self.model(), document_id) == Option::Some(
                    o.model(),
                ) && (self.wf() ==> o.wf()),
                Option::None => registry_get(self.model(), document_id) is None,
            },
    {
        let mut i: usize = 0;
        proof {
            assert(self.model().skip(0) =~= self.model());
        }
        while i < self.documents.len()
            invariant
                i <= self.documents@.len(),
                registry_get(self.model(), document_id) == registry_get(
                    self.model().skip(i as int),
                    document_id,
                ),
                self.model().len() == self.documents@.len(),
                forall|j: int|
                    0 <= j < self.documents@.len() ==> #[trigger] self.model()[j] == (
                        self.documents@[j].0,
                        self.documents@[j].1.model(),
                    ),
            decreases self.documents@.len() - i,
        {
            proof {
                assert(self.model().skip(i as int).first() == self.model()[i as int]);
                assert(self.model().skip(i as int).drop_first() =~= self.model().skip(i as int + 1));
            }
            if self.documents[i].0 == document_id {
                return Option::Some(&self.documents[i].1);
            }
            i = i + 1;
        }
        proof {
            assert(self.model().skip(self.model().len() as int).len() == 0);
        }
        Option::None
    }
}

/// Relies on `rand::random`: draws a uniformly random 16-bit value.  Nothing
/// is promised of the outcome.
#[verifier::external_body]
fn random_u16() -> u16 {
    rand::random()
}

/// Registers a new document in the registry and returns its handle: the
/// fresh arena holds exactly the document record, an empty page tree, and
/// a catalog pointing at that tree.
pub fn register_document(docs: &mut Documents) -> (r: DocumentId)
    requires
        old(docs).wf(),
        exists|k: DocumentId| !registry_contains(old(docs).model(), k),
    ensures
        final(docs).wf(),
        !registry_contains(old(docs).model(), r),
        registry_contains(final(docs).model(), r),
        final(docs).model().len() == old(docs).model().len() + 1,
        ({
            let arena = final(docs).model().last().1;
            &&& final(docs).model().last().0 == r
            &&& final(docs).model() == old(docs).model().push((r, arena))
            &&& arena.len() == 3
            &&& arena[0].0 == (ObjectId { object_number: 0, generation_number: 0 })
            &&& arena[0].1 == Object::Document(
                Document {
                    id: ObjectId { object_number: 0, generation_number: 0 },
                    document_id: r,
                },
            )
            &&& arena[1].0 == (ObjectId { object_number: 1, generation_number: 0 })
            &&& arena[1].1 is Pages
            &&& arena[1].1->Pages_0.id == (ObjectId { object_number: 1, generation_number: 0 })
            &&& arena[1].1->Pages_0.kids@.len() == 0
            &&& arena[1].1->Pages_0.count == 0
            &&& arena[2].0 == (ObjectId { object_number: 2, generation_number: 0 })
            &&& arena[2].1 == Object::Catalog(
                Catalog {
                    id: ObjectId { object_number: 2, generation_number: 0 },
                    pages: Option::Some(ObjectId { object_number: 1, generation_number: 0 }),
                },
            )
        }),
{
    let id = docs.register_document();
    proof {
        lemma_registry_get_push(old(docs).model(), id, final(docs).model().last().1);
    }
    id
}

/// Pushing a fresh pair makes its handle found.
proof fn lemma_registry_get_push(
    s: Seq<(DocumentId, Seq<(ObjectId, Object)>)>,
    id: DocumentId,
    arena: Seq<(ObjectId, Object)>,
)
    ensures
        registry_get(s.push((id, arena)), id) is Some,
    decreases s.len(),
{
    if s.len() == 0 {
        assert(s.push((id, arena)).first() == (id, arena));
    } else {
        if s.first().0 == id {
        } else {
            assert(s.push((id, arena)).drop_first() =~= s.drop_first().push((id, arena)));
            lemma_registry_get_push(s.drop_first(), id, arena);
        }
    }
}

/// Gets the arena of a document.
pub fn get(docs: &Documents, document_id: DocumentId) -> (r: Option<&Objects>)
    ensures
        match r {
            Option::Some(o) => registry_get(docs.model(), document_id) == Option::Some(o.model())
                && (docs.wf() ==> o.wf()),
            Option::None => registry_get(docs.model(), document_id) is None,
        },
{
    docs.get_arena(document_id)
}

/// Gets the document record of a document: the first document object of
/// its arena, or nothing when the document or the record is absent.
pub fn get_document(docs: &Documents, document_id: DocumentId) -> (r: Option<Object>)
    ensures
        match registry_get(docs.model(), document_id) {
            Option::Some(arena) => match super::objects::find_document(arena) {
                Option::Some(d) => r == Option::Some(Object::Document(d)),
                Option::None => r is None,
            },
            Option::None => r is None,
        },
{
    match docs.get_arena(document_id) {
        Option::Some(objects) => match objects.find_document_exec() {
            Option::Some(d) => Option::Some(Object::Document(d)),
            Option::None => Option::None,
        },
        Option::None => Option::None,
    }
}

/// Gets an object from a document by object id.
pub fn get_object(docs: &Documents, document_id: DocumentId, object_id: &ObjectId) -> (r: Option<
    Object,
>)
    ensures
        match registry_get(docs.model(), document_id) {
            Option::Some(arena) => match arena_get(arena, *object_id) {
                Option::Some(o) => r is Some && super::object_model(r->Some_0)
                    == super::object_model(o),
                Option::None => r is None,
            },
            Option::None => r is None,
        },
{
    match docs.get_arena(document_id) {
        Option::Some(objects) => match objects.get(object_id) {
            Option::Some(o) => Option::Some(o.duplicate()),
            Option::None => Option::None,
        },
        Option::None => Option::None,
    }
}

/// Replaces or adds one object in a document's arena; does nothing when the
/// document does not exist.
pub fn upsert_object(docs: &mut Documents, document_id: DocumentId, object: Object)
    requires
        old(docs).wf(),
        object.get_id_spec().object_number < u32::MAX,
    ensures
        final(docs).wf(),
        match registry_get(old(docs).model(), document_id) {
            Option::Some(arena) => registry_get(final(docs).model(), document_id)
                == Option::Some(
                super::objects::arena_upsert(arena, object.get_id_spec(), object),
            ),
            Option::None => final(docs).model() == old(docs).model(),
        },
{
    let ghost m0 = docs.model();
    proof {
        assert(m0.skip(0) =~= m0);
    }
    let mut i: usize = 0;
    while i < docs.documents.len()
        invariant
            i <= docs.documents@.len(),
            docs.wf(),
            object.get_id_spec().object_number < u32::MAX,
            *docs == *old(docs),
            m0 == docs.model(),
            m0.len() == docs.documents@.len(),
            forall|j: int|
                0 <= j < docs.documents@.len() ==> #[trigger] m0[j] == (
                    docs.documents@[j].0,
                    docs.documents@[j].1.model(),
                ),
            forall|j: int| 0 <= j < i ==> (#[trigger] m0[j]).0 != document_id,
            registry_get(m0, document_id) == registry_get(m0.skip(i as int), document_id),
        decreases docs.documents@.len() - i,
    {
        proof {
            assert(m0.skip(i as int).first() == m0[i as int]);
            assert(m0.skip(i as int).drop_first() =~= m0.skip(i as int + 1));
        }
        if docs.documents[i].0 == document_id {
            proof {
                assert(registry_get(m0, document_id) == Option::Some(m0[i as int].1));
            }
            let mut pair = docs.documents.remove(i);
            pair.1.insert(object);
            docs.documents.insert(i, pair);
            proof {
                assert forall|j: int| 0 <= j < docs.documents@.len() implies (
                #[trigger] docs.documents@[j].1).wf() by {
                    if j < i as int {
                    } else if j == i as int {
                    } else {
                    }
                }
                assert(docs.model().len() == m0.len());
                assert forall|j: int| 0 <= j < m0.len() implies #[trigger] docs.model()[j] == (
                if j == i as int {
                    (document_id, super::objects::arena_upsert(
                        m0[i as int].1,
                        object.get_id_spec(),
                        object,
                    ))
                } else {
                    m0[j]
                }) by {
                    if j < i as int {
                        assert(docs.documents@[j] == old(docs).documents@[j]);
                    } else if j > i as int {
                        assert(docs.documents@[j] == old(docs).documents@[j]);
                    }
                }
                lemma_registry_get_update(m0, docs.model(), document_id, i as int);
            }
            return ;
        }
        i = i + 1;
    }
    proof {
        assert(m0.skip(m0.len() as int).len() == 0);
    }
}

/// Updating the first matching entry updates what lookup returns.
proof fn lemma_registry_get_update(
    m0: Seq<(DocumentId, Seq<(ObjectId, Object)>)>,
    m1: Seq<(DocumentId, Seq<(ObjectId, Object)>)>,
    id: DocumentId,
    i: int,
)
    requires
        0 <= i < m0.len(),
        m0.len() == m1.len(),
        m0[i].0 == id,
        forall|j: int| 0 <= j < i ==> (#[trigger] m0[j]).0 != id,
        forall|j: int| 0 <= j < m0.len() && j != i ==> #[trigger] m1[j] == m0[j],
        m1[i].0 == id,
    ensures
        registry_get(m1, id) == Option::Some(m1[i].1),
    decreases i,
{
    if i == 0 {
        assert(m1.first() == m1[0]);
    } else {
        assert(m1.first() == m1[0]);
        assert(m1[0] == m0[0]);
        assert(m0[0].0 != id);
        let t0 = m0.drop_first();
        let t1 = m1.drop_first();
        assert(forall|j: int| 0 <= j < i - 1 ==> (#[trigger] t0[j]).0 != id) by {
            assert(forall|j: int| 0 <= j < i - 1 ==> t0[j] == m0[j + 1]);
        }
        assert(forall|j: int| 0 <= j < t0.len() && j != i - 1 ==> #[trigger] t1[j] == t0[j]) by {
            assert(forall|j: int| 0 <= j < t0.len() ==> t0[j] == m0[j + 1] && t1[j] == m1[j + 1]);
        }
        assert(t0[i - 1] == m0[i]);
        assert(t1[i - 1] == m1[i]);
        lemma_registry_get_update(t0, t1, id, i - 1);
    }
}

/// Applies one mutation to a document's arena, replacing the arena with
/// the closure's output and handing back its result; a document that does
/// not exist is left untouched and yields nothing.
pub fn mutate<F, R>(docs: &mut Documents, document_id: DocumentId, f: F) -> (r: Option<R>) where
    F: FnOnce(Objects) -> (Objects, Option<R>)
    requires
        old(docs).wf(),
        forall|o: Objects| o.wf() ==> #[trigger] f.requires((o,)),
        forall|o: Objects, p: (Objects, Option<R>)| #[trigger]
            f.ensures((o,), p) ==> p.0.wf(),
    ensures
        final(docs).wf(),
        registry_get(old(docs).model(), document_id) is None ==> r is None && *final(docs)
            == *old(docs),
        registry_get(old(docs).model(), document_id) is Some ==> exists|
            j: int,
            a2: Objects,
            ret: Option<R>,
        |
            {
                &&& 0 <= j < old(docs).documents@.len()
                &&& old(docs).documents@[j].0 == document_id
                &&& (forall|k: int|
                    0 <= k < j ==> (#[trigger] old(docs).documents@[k]).0 != document_id)
                &&& #[trigger] f.ensures((old(docs).documents@[j].1,), (a2, ret))
                &&& final(docs).documents@ == old(docs).documents@.update(j, (document_id, a2))
                &&& r == ret
            },
{
    let ghost m0 = docs.model();
    proof {
        assert(m0.skip(0) =~= m0);
    }
    let mut i: usize = 0;
    while i < docs.documents.len()
        invariant
            i <= docs.documents@.len(),
            docs.wf(),
            *docs == *old(docs),
            m0 == docs.model(),
            m0.len() == docs.documents@.len(),
            forall|j: int|
                0 <= j < docs.documents@.len() ==> #[trigger] m0[j] == (
                    docs.documents@[j].0,
                    docs.documents@[j].1.model(),
                ),
            forall|k: int| 0 <= k < i ==> (#[trigger] docs.documents@[k]).0 != document_id,
            registry_get(m0, document_id) == registry_get(m0.skip(i as int), document_id),
            forall|o: Objects| o.wf() ==> #[trigger] f.requires((o,)),
            forall|o: Objects, p: (Objects, Option<R>)| #[trigger]
                f.ensures((o,), p) ==> p.0.wf(),
        decreases docs.documents@.len() - i,
    {
        proof {
            assert(m0.skip(i as int).first() == m0[i as int]);
            assert(m0.skip(i as int).drop_first() =~= m0.skip(i as int + 1));
        }
        if docs.documents[i].0 == document_id {
            let ghost j = i as int;
            let pair = docs.documents.remove(i);
            let (arena2, ret) = f(pair.1);
            docs.documents.insert(i, (pair.0, arena2));
            proof {
                assert forall|k: int| 0 <= k < docs.documents@.len() implies (
                #[trigger] docs.documents@[k].1).wf() by {}
                assert(docs.documents@ =~= old(docs).documents@.update(
                    j,
                    (document_id, arena2),
                ));
                assert(registry_get(m0, document_id) is Some);
                assert(f.ensures((old(docs).documents@[j].1,), (arena2, ret)));
            }
            return ret;
        }
        i = i + 1;
    }
    proof {
        assert(m0.skip(m0.len() as int).len() == 0);
        assert(registry_get(m0, document_id) is None);
    }
    Option::None
}

} // verus!
