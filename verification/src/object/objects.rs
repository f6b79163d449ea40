//! The per-document arena owning all indirect objects.

use vstd::prelude::*;
use super::object_id::{id_lt, ObjectId};
use super::{IndirectObject, Object, ObjectType};
use super::pages::Pages;

verus! {

/// Looks an object up by identifier.
pub open spec fn arena_get(s: Seq<(ObjectId, Object)>, id: ObjectId) -> Option<Object>
    decreases s.len(),
{
    if s.len() == 0 {
        Option::None
    } else if s.first().0 == id {
        Option::Some(s.first().1)
    } else {
        arena_get(s.drop_first(), id)
    }
}

/// Whether an identifier is present.
pub open spec fn arena_contains(s: Seq<(ObjectId, Object)>, id: ObjectId) -> bool {
    arena_get(s, id) is Some
}

/// Replaces the first entry with the given id, or appends a new entry.
pub open spec fn arena_upsert(s: Seq<(ObjectId, Object)>, id: ObjectId, o: Object) -> Seq<
    (ObjectId, Object),
>
    decreases s.len(),
{
    if s.len() == 0 {
        seq![(id, o)]
    } else if s.first().0 == id {
        seq![(id, o)] + s.drop_first()
    } else {
        seq![s.first()] + arena_upsert(s.drop_first(), id, o)
    }
}

/// The first document record, if any.
pub open spec fn find_document(s: Seq<(ObjectId, Object)>) -> Option<super::document::Document>
    decreases s.len(),
{
    if s.len() == 0 {
        Option::None
    } else if s.first().1 is Document {
        Option::Some(s.first().1->Document_0)
    } else {
        find_document(s.drop_first())
    }
}

/// The objects of one type, in arena order.
pub open spec fn arena_of_type(s: Seq<(ObjectId, Object)>, t: super::ObjectType) -> Seq<Object>
    decreases s.len(),
{
    if s.len() == 0 {
        Seq::empty()
    } else if s.first().1.get_type_spec() == t {
        seq![s.first().1] + arena_of_type(s.drop_first(), t)
    } else {
        arena_of_type(s.drop_first(), t)
    }
}

/// The first page-tree object, if any.
pub open spec fn find_pages(s: Seq<(ObjectId, Object)>) -> Option<Pages>
    decreases s.len(),
{
    if s.len() == 0 {
        Option::None
    } else if s.first().1 is Pages {
        Option::Some(s.first().1->Pages_0)
    } else {
        find_pages(s.drop_first())
    }
}

/// Holds all indirect objects to be included in a document.
#[derive(Debug)]
pub struct Objects {
    pub max_id: ObjectId,
    pub objects: Vec<(ObjectId, Object)>,
}

impl Objects {
    /// The stored entries in insertion order.
    pub closed spec fn model(&self) -> Seq<(ObjectId, Object)> {
        self.objects@
    }

    /// The running maximum issued identifier.
    pub closed spec fn max_id_spec(&self) -> ObjectId {
        self.max_id
    }

    /// Fresh identifiers can still be issued.
    pub open spec fn wf(&self) -> bool {
        self.max_id_spec().object_number < u32::MAX
    }

    /// The model is the stored entry view.
    pub proof fn lemma_model(&self)
        ensures
            self.model() == self.objects@,
    {
    }

    /// Creates an empty arena.
    pub fn new() -> (r: Objects)
        ensures
            r.model() == Seq::<(ObjectId, Object)>::empty(),
            r.max_id_spec() == (ObjectId { object_number: 0, generation_number: 0 }),
            r.wf(),
    {
        let r = Objects { max_id: ObjectId::new(0, 0), objects: Vec::new() };
        proof {
            assert(r.model() =~= Seq::<(ObjectId, Object)>::empty());
        }
        r
    }

    /// Number of objects.
    pub fn len(&self) -> (n: usize)
        ensures
            n == self.model().len(),
    {
        self.objects.len()
    }

    /// All identifiers, in insertion order.
    pub fn keys(&self) -> (r: Vec<ObjectId>)
        ensures
            r@.len() == self.model().len(),
            forall|i: int| 0 <= i < r@.len() ==> r@[i] == #[trigger] self.model()[i].0,
    {
        let mut r: Vec<ObjectId> = Vec::new();
        let mut i: usize = 0;
        while i < self.objects.len()
            invariant
                i <= self.objects@.len(),
                r@.len() == i,
                forall|j: int| 0 <= j < i ==> r@[j] == #[trigger] self.objects@[j].0,
            decreases self.objects@.len() - i,
        {
            r.push(self.objects[i].0);
            i = i + 1;
        }
        r
    }

    /// The next available object id: one past the running maximum, at
    /// generation zero.
    pub fn new_object_id(&self) -> (r: ObjectId)
        requires
            self.wf(),
        ensures
            r.object_number == self.max_id_spec().object_number + 1,
            r.generation_number == 0,
    {
        self.max_id.next()
    }

    /// Gets an object by its id.
    pub fn get(&self, id: &ObjectId) -> (r: Option<&Object>)
        ensures
            match r {
                Option::Some(o) => arena_get(self.model(), *id) == Option::Some(*o),
                Option::None => arena_get(self.model(), *id) is None,
            },
    {
        let mut i: usize = 0;
        proof {
            assert(self.objects@.skip(0) =~= self.objects@);
        }
        while i < self.objects.len()
            invariant
                i <= self.objects@.len(),
                arena_get(self.objects@, *id) == arena_get(self.objects@.skip(i as int), *id),
            decreases self.objects@.len() - i,
        {
            proof {
                assert(self.objects@.skip(i as int).first() == self.objects@[i as int]);
                assert(self.objects@.skip(i as int).drop_first() =~= self.objects@.skip(
                    i as int + 1,
                ));
            }
            if self.objects[i].0 == *id {
                return Option::Some(&self.objects[i].1);
            }
            i = i + 1;
        }
        proof {
            assert(self.objects@.skip(self.objects@.len() as int).len() == 0);
        }
        Option::None
    }

    /// Gets copies of all objects of one type, in insertion order.
    pub fn by_type(&self, object_type: ObjectType) -> (r: Vec<Object>)
        ensures
            r@.len() == arena_of_type(self.model(), object_type).len(),
            forall|i: int|
                0 <= i < r@.len() ==> super::object_model(#[trigger] r@[i])
                    == super::object_model(arena_of_type(self.model(), object_type)[i]),
    {
        let mut r: Vec<Object> = Vec::new();
        let mut i: usize = 0;
        proof {
            assert(self.objects@.skip(0) =~= self.objects@);
            lemma_arena_of_type_skip_empty(object_type);
        }
        while i < self.objects.len()
            invariant
                i <= self.objects@.len(),
                arena_of_type(self.objects@, object_type) == arena_of_type(
                    self.objects@.take(i as int),
                    object_type,
                ) + arena_of_type(self.objects@.skip(i as int), object_type),
                r@.len() == arena_of_type(self.objects@.take(i as int), object_type).len(),
                forall|j: int|
                    0 <= j < r@.len() ==> super::object_model(#[trigger] r@[j])
                        == super::object_model(
                        arena_of_type(self.objects@.take(i as int), object_type)[j],
                    ),
            decreases self.objects@.len() - i,
        {
            proof {
                assert(self.objects@.skip(i as int).first() == self.objects@[i as int]);
                assert(self.objects@.skip(i as int).drop_first() =~= self.objects@.skip(
                    i as int + 1,
                ));
                lemma_arena_of_type_take_snoc(self.objects@, object_type, i as int);
            }
            let t = self.objects[i].1.get_type();
            if t == object_type {
                r.push(self.objects[i].1.duplicate());
            }
            i = i + 1;
        }
        proof {
            assert(self.objects@.take(self.objects@.len() as int) =~= self.objects@);
        }
        r
    }

    /// The first document record in this arena.
    pub fn find_document_exec(&self) -> (r: Option<super::document::Document>)
        ensures
            r == find_document(self.model()),
    {
        let mut i: usize = 0;
        proof {
            assert(self.objects@.skip(0) =~= self.objects@);
        }
        while i < self.objects.len()
            invariant
                i <= self.objects@.len(),
                find_document(self.objects@) == find_document(self.objects@.skip(i as int)),
            decreases self.objects@.len() - i,
        {
            proof {
                assert(self.objects@.skip(i as int).first() == self.objects@[i as int]);
                assert(self.objects@.skip(i as int).drop_first() =~= self.objects@.skip(
                    i as int + 1,
                ));
            }
            if let Object::Document(d) = &self.objects[i].1 {
                return Option::Some(*d);
            }
            i = i + 1;
        }
        proof {
            assert(self.objects@.skip(self.objects@.len() as int).len() == 0);
        }
        Option::None
    }

    /// Gets the page tree: the first `Pages` object in the arena.
    pub fn page_tree(&self) -> (r: Option<Pages>)
        ensures
            match r {
                Option::Some(p) => {
                    &&& find_pages(self.model()) is Some
                    &&& super::pages::pages_model(p) == super::pages::pages_model(
                        find_pages(self.model())->Some_0,
                    )
                },
                Option::None => find_pages(self.model()) is None,
            },
    {
        let mut i: usize = 0;
        proof {
            assert(self.objects@.skip(0) =~= self.objects@);
        }
        while i < self.objects.len()
            invariant
                i <= self.objects@.len(),
                find_pages(self.objects@) == find_pages(self.objects@.skip(i as int)),
            decreases self.objects@.len() - i,
        {
            proof {
                assert(self.objects@.skip(i as int).first() == self.objects@[i as int]);
                assert(self.objects@.skip(i as int).drop_first() =~= self.objects@.skip(
                    i as int + 1,
                ));
            }
            if let Object::Pages(p) = &self.objects[i].1 {
                return Option::Some(p.duplicate());
            }
            i = i + 1;
        }
        proof {
            assert(self.objects@.skip(self.objects@.len() as int).len() == 0);
        }
        Option::None
    }

    /// Inserts an object keyed by its own id.  An existing object with the
    /// same id is replaced and returned; the running maximum advances when
    /// the id exceeds it.
    pub fn insert(&mut self, object: Object) -> (prev: Option<Object>)
        requires
            old(self).wf(),
            object.get_id_spec().object_number < u32::MAX,
        ensures
            final(self).wf(),
            final(self).model() == arena_upsert(
                old(self).model(),
                object.get_id_spec(),
                object,
            ),
            (prev is Some) == arena_contains(old(self).model(), object.get_id_spec()),
            final(self).max_id_spec() == if id_lt(old(self).max_id_spec(), object.get_id_spec()) {
                object.get_id_spec()
            } else {
                old(self).max_id_spec()
            },
    {
        let id = object.get_id();
        if (self.max_id.object_number < id.object_number) || (self.max_id.object_number
            == id.object_number && self.max_id.generation_number < id.generation_number) {
            self.max_id = id;
        }
        let ghost m0 = self.objects@;
        let ghost max1 = self.max_id;
        let mut i: usize = 0;
        while i < self.objects.len()
            invariant
                i <= self.objects@.len(),
                self.objects@ == m0,
                m0 == old(self).objects@,
                self.max_id == max1,
                max1 == if id_lt(old(self).max_id_spec(), object.get_id_spec()) {
                    object.get_id_spec()
                } else {
                    old(self).max_id_spec()
                },
                max1.object_number < u32::MAX,
                forall|j: int| 0 <= j < i ==> (#[trigger] m0[j]).0 != object.get_id_spec(),
                id == object.get_id_spec(),
            decreases self.objects@.len() - i,
        {
            if self.objects[i].0 == id {
                let old_pair = self.objects.remove(i);
                self.objects.insert(i, (id, object));
                proof {
                    lemma_arena_upsert_at(m0, id, object, i as int, true);
                    assert(self.objects@ =~= m0.take(i as int) + seq![(id, object)] + m0.skip(
                        i as int + 1,
                    ));
                    lemma_arena_get_at(m0, id, i as int);
                }
                return Option::Some(old_pair.1);
            }
            i = i + 1;
        }
        self.objects.push((id, object));
        proof {
            lemma_arena_upsert_at(m0, id, object, m0.len() as int, false);
            assert(self.objects@ =~= m0.take(m0.len() as int) + seq![(id, object)] + m0.skip(
                m0.len() as int,
            ));
            lemma_arena_get_at(m0, id, m0.len() as int);
        }
        Option::None
    }
}

/// Filtering an empty suffix yields nothing.
proof fn lemma_arena_of_type_skip_empty(t: super::ObjectType)
    ensures
        arena_of_type(Seq::<(ObjectId, Object)>::empty(), t) == Seq::<Object>::empty(),
{
}

/// Splitting one element off the suffix moves it into the prefix filter.
proof fn lemma_arena_of_type_take_snoc(s: Seq<(ObjectId, Object)>, t: super::ObjectType, i: int)
    requires
        0 <= i < s.len(),
    ensures
        arena_of_type(s.take(i + 1), t) == if s[i].1.get_type_spec() == t {
            arena_of_type(s.take(i), t).push(s[i].1)
        } else {
            arena_of_type(s.take(i), t)
        },
    decreases i,
{
    if i == 0 {
        assert(s.take(1).first() == s[0]);
        assert(s.take(1).drop_first() =~= Seq::<(ObjectId, Object)>::empty());
        assert(s.take(0) =~= Seq::<(ObjectId, Object)>::empty());
        if s[0].1.get_type_spec() == t {
            assert(arena_of_type(s.take(1), t) =~= arena_of_type(s.take(0), t).push(s[0].1));
        }
    } else {
        assert(s.take(i + 1).first() == s[0]);
        assert(s.take(i).first() == s[0]);
        assert(s.take(i + 1).drop_first() =~= s.drop_first().take(i));
        assert(s.take(i).drop_first() =~= s.drop_first().take(i - 1));
        assert(s.drop_first()[i - 1] == s[i]);
        lemma_arena_of_type_take_snoc(s.drop_first(), t, i - 1);
        if s[i].1.get_type_spec() == t {
            assert(arena_of_type(s.take(i + 1), t) =~= arena_of_type(s.take(i), t).push(s[i].1));
        } else {
            assert(arena_of_type(s.take(i + 1), t) =~= arena_of_type(s.take(i), t));
        }
    }
}

/// Upsert at the first matching position is splice-over; with no match it
/// is an append.
proof fn lemma_arena_upsert_at(s: Seq<(ObjectId, Object)>, id: ObjectId, o: Object, i: int, hit: bool)
    requires
        0 <= i <= s.len(),
        forall|j: int| 0 <= j < i ==> (#[trigger] s[j]).0 != id,
        hit ==> i < s.len() && s[i].0 == id,
        !hit ==> i == s.len(),
    ensures
        hit ==> arena_upsert(s, id, o) == s.take(i) + seq![(id, o)] + s.skip(i + 1),
        !hit ==> arena_upsert(s, id, o) == s.take(i) + seq![(id, o)] + s.skip(i),
    decreases s.len(),
{
    if s.len() == 0 {
        assert(arena_upsert(s, id, o) =~= s.take(0) + seq![(id, o)] + s.skip(0));
    } else if i == 0 {
        if hit {
            assert(arena_upsert(s, id, o) =~= s.take(0) + seq![(id, o)] + s.skip(1));
        }
    } else {
        assert(s.first().0 != id);
        let t = s.drop_first();
        assert(forall|j: int| 0 <= j < i - 1 ==> (#[trigger] t[j]).0 != id) by {
            assert(forall|j: int| 0 <= j < i - 1 ==> t[j] == s[j + 1]);
        }
        if hit {
            assert(t[i - 1] == s[i]);
        }
        lemma_arena_upsert_at(t, id, o, i - 1, hit);
        if hit {
            assert(seq![s.first()] + (t.take(i - 1) + seq![(id, o)] + t.skip(i)) =~= s.take(i)
                + seq![(id, o)] + s.skip(i + 1));
        } else {
            assert(seq![s.first()] + (t.take(i - 1) + seq![(id, o)] + t.skip(i - 1)) =~= s.take(i)
                + seq![(id, o)] + s.skip(i));
        }
    }
}

/// A scan that matched at `i` (or ran off the end) settles membership.
proof fn lemma_arena_get_at(s: Seq<(ObjectId, Object)>, id: ObjectId, i: int)
    requires
        0 <= i <= s.len(),
        forall|j: int| 0 <= j < i ==> (#[trigger] s[j]).0 != id,
        i < s.len() ==> s[i].0 == id,
    ensures
        i < s.len() ==> arena_contains(s, id),
        i == s.len() ==> !arena_contains(s, id),
    decreases s.len(),
{
    if s.len() > 0 {
        if i > 0 {
            let t = s.drop_first();
            assert(forall|j: int| 0 <= j < i - 1 ==> (#[trigger] t[j]).0 != id) by {
                assert(forall|j: int| 0 <= j < i - 1 ==> t[j] == s[j + 1]);
            }
            if i < s.len() {
                assert(t[i - 1] == s[i]);
            }
            lemma_arena_get_at(t, id, i - 1);
        }
    }
}

} // verus!
