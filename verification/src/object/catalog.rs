//! The catalog: the single root dictionary anchoring the page tree.

use vstd::prelude::*;
use super::object_id::{id_obj_bytes, id_ref_bytes, ObjectId};
use super::objects::arena_get;
use super::{Object, Objects};
use super::documents::{DocumentId, Documents};
use crate::cross_reference::CrossReferenceTable;
use crate::error::PdfError;

verus! {

/// Primary dictionary of all objects in the document.
#[derive(Debug, Clone, Copy, PartialEq)]
pub struct Catalog {
    pub id: ObjectId,
    pub pages: Option<ObjectId>,
}

/// The first catalog in an arena, if any.
pub open spec fn find_catalog(s: Seq<(ObjectId, Object)>) -> Option<Catalog>
    decreases s.len(),
{
    if s.len() == 0 {
        Option::None
    } else if s.first().1 is Catalog {
        Option::Some(s.first().1->Catalog_0)
    } else {
        find_catalog(s.drop_first())
    }
}

/// The exact bytes a catalog renders as.
pub open spec fn catalog_bytes(c: Catalog) -> Seq<u8> {
    id_obj_bytes(c.id) + seq![10u8] + seq![60u8, 60u8, 32u8] + (match c.pages {
        Option::Some(p) => seq![47u8, 80u8, 97u8, 103u8, 101u8, 115u8, 32u8] + id_ref_bytes(p)
            + seq![32u8],
        Option::None => Seq::<u8>::empty(),
    }) + seq![47u8, 84u8, 121u8, 112u8, 101u8, 32u8, 47u8, 67u8, 97u8, 116u8, 97u8, 108u8, 111u8, 103u8, 32u8]
        + seq![62u8, 62u8] + seq![10u8, 101u8, 110u8, 100u8, 111u8, 98u8, 106u8, 10u8]
}

impl Catalog {
    /// Gets the object id for the page tree.
    pub fn pages(&self) -> (r: Option<ObjectId>)
        ensures
            r == self.pages,
    {
        self.pages
    }

    /// Sets the object id for the page tree.
    pub fn set_pages(&mut self, pages: Option<ObjectId>)
        ensures
            final(self).pages == pages,
            final(self).id == old(self).id,
    {
        self.pages = pages;
    }

    /// Interprets a generic object as a catalog.
    pub fn try_from(value: Object) -> (r: Result<Catalog, PdfError>)
        ensures
            match r {
                Result::Ok(c) => value == Object::Catalog(c),
                Result::Err(e) => !(value is Catalog) && e == PdfError::TypeMismatch,
            },
    {
        match value {
            Object::Catalog(c) => Result::Ok(c),
            _ => Result::Err(PdfError::TypeMismatch),
        }
    }

    /// Writes the catalog dictionary and records its cross-reference entry.
    #[verifier::rlimit(100)]
    pub fn render_catalog(&self, writer: &mut Vec<u8>, xref: &mut CrossReferenceTable) -> (res:
        Result<(), PdfError>)
        requires
            old(xref).total_spec() + catalog_bytes(*self).len() < usize::MAX,
        ensures
            final(writer)@ == old(writer)@ + catalog_bytes(*self),
            final(xref).entries_spec() == old(xref).entries_spec().push(
                crate::cross_reference::CrossReferenceTableEntry {
                    offset: (old(xref).total_spec() + 1) as usize,
                    generation: self.id.generation_number,
                    in_use: true,
                },
            ),
            final(xref).total_spec() == old(xref).total_spec() + catalog_bytes(*self).len(),
            res is Ok,
    {
        let start = writer.len();
        xref.add_entry(self.id.generation_number, true);
        self.id.push_obj_header(writer);
        let g1: &[u8] = &[10, 60, 60, 32];
        crate::helpers::write_all_count(writer, g1);
        proof {
            assert(g1@ =~= seq![10u8, 60u8, 60u8, 32u8]);
        }
        if let Option::Some(p) = self.pages {
            let g2: &[u8] = &[47, 80, 97, 103, 101, 115, 32];
            crate::helpers::write_all_count(writer, g2);
            proof {
                assert(g2@ =~= seq![47u8, 80u8, 97u8, 103u8, 101u8, 115u8, 32u8]);
            }
            p.push_ref(writer);
            let g3: &[u8] = &[32];
            crate::helpers::write_all_count(writer, g3);
            proof {
                assert(g3@ =~= seq![32u8]);
            }
        }
        let g4: &[u8] = &[
            47, 84, 121, 112, 101, 32, 47, 67, 97, 116, 97, 108, 111, 103, 32, 62, 62, 10, 101,
            110, 100, 111, 98, 106, 10,
        ];
        crate::helpers::write_all_count(writer, g4);
        proof {
            assert(g4@ =~= seq![
                47u8, 84u8, 121u8, 112u8, 101u8, 32u8, 47u8, 67u8, 97u8, 116u8, 97u8, 108u8,
                111u8, 103u8, 32u8, 62u8, 62u8, 10u8, 101u8, 110u8, 100u8, 111u8, 98u8, 106u8,
                10u8,
            ]);
            assert(writer@ =~= old(writer)@ + catalog_bytes(*self));
        }
        let n = writer.len() - start;
        xref.add_bytes(n);
        Result::Ok(())
    }

    /// Gets the catalog for the specified document, or nothing when the
    /// document or its catalog does not exist.
    pub fn get_catalog(docs: &Documents, document_id: DocumentId) -> (r: Option<Catalog>)
        ensures
            match super::documents::registry_get(docs.model(), document_id) {
                Option::Some(arena) => r == find_catalog(arena),
                Option::None => r is None,
            },
    {
        match super::documents::get(docs, document_id) {
            Option::Some(objects) => objects.find_catalog_exec(),
            Option::None => Option::None,
        }
    }

    /// Replaces the catalog for the specified document, returning the old
    /// one, or nothing when the document or its catalog does not exist.
    pub fn update_catalog(docs: &mut Documents, document_id: DocumentId, new_catalog: Catalog) -> (r:
        Option<Catalog>)
        requires
            old(docs).wf(),
            new_catalog.id.object_number < u32::MAX,
        ensures
            final(docs).wf(),
            match super::documents::registry_get(old(docs).model(), document_id) {
                Option::Some(arena) => match find_catalog(arena) {
                    Option::Some(old_cat) => r == Option::Some(old_cat)
                        && super::documents::registry_get(final(docs).model(), document_id)
                        == Option::Some(
                        super::objects::arena_upsert(
                            arena,
                            new_catalog.id,
                            Object::Catalog(new_catalog),
                        ),
                    ),
                    Option::None => r is None && final(docs).model() == old(docs).model(),
                },
                Option::None => r is None && final(docs).model() == old(docs).model(),
            },
    {
        let existing = Catalog::get_catalog(docs, document_id);
        match existing {
            Option::Some(old_cat) => {
                super::documents::upsert_object(docs, document_id, Object::Catalog(new_catalog));
                Option::Some(old_cat)
            },
            Option::None => Option::None,
        }
    }
}

impl Objects {
    /// The first catalog in this arena.
    pub fn find_catalog_exec(&self) -> (r: Option<Catalog>)
        ensures
            r == find_catalog(self.model()),
    {
        proof {
            self.lemma_model();
            assert(self.objects@.skip(0) =~= self.objects@);
        }
        let mut i: usize = 0;
        while i < self.objects.len()
            invariant
                i <= self.objects@.len(),
                self.model() == self.objects@,
                find_catalog(self.objects@) == find_catalog(self.objects@.skip(i as int)),
            decreases self.objects@.len() - i,
        {
            proof {
                assert(self.objects@.skip(i as int).first() == self.objects@[i as int]);
                assert(self.objects@.skip(i as int).drop_first() =~= self.objects@.skip(
                    i as int + 1,
                ));
            }
            if let Object::Catalog(c) = &self.objects[i].1 {
                return Option::Some(*c);
            }
            i = i + 1;
        }
        proof {
            assert(self.objects@.skip(self.objects@.len() as int).len() == 0);
        }
        Option::None
    }
}


impl super::IndirectObject for Catalog {
    open spec fn id_spec(&self) -> ObjectId {
        self.id
    }

    open spec fn render_fits(
        &self,
        objects: &Objects,
        parent_id: ObjectId,
        total: nat,
        entries: Seq<crate::cross_reference::CrossReferenceTableEntry>,
    ) -> bool {
        total + catalog_bytes(*self).len() < usize::MAX
    }

    fn new(id: ObjectId) -> (r: Catalog)
        ensures
            r.pages is None,
    {
        Catalog { id, pages: Option::None }
    }

    fn get_id(&self) -> ObjectId {
        self.id
    }

    fn set_id(&mut self, id: ObjectId)
        ensures
            final(self).pages == old(self).pages,
    {
        self.id = id;
    }

    fn get_type(&self) -> (r: super::ObjectType)
        ensures
            r == super::ObjectType::Catalog,
    {
        super::ObjectType::Catalog
    }

    fn render(
        &self,
        objects: &Objects,
        parent_id: ObjectId,
        writer: &mut Vec<u8>,
        xref: &mut CrossReferenceTable,
    ) -> (res: Result<(), PdfError>)
        ensures
            final(writer)@ == old(writer)@ + catalog_bytes(*self),
            final(xref).entries_spec() == old(xref).entries_spec().push(
                crate::cross_reference::CrossReferenceTableEntry {
                    offset: (old(xref).total_spec() + 1) as usize,
                    generation: self.id.generation_number,
                    in_use: true,
                },
            ),
            final(xref).total_spec() == old(xref).total_spec() + catalog_bytes(*self).len(),
            res is Ok,
    {
        self.render_catalog(writer, xref)
    }
}

} // verus!
