//! A single page of the document.

use vstd::prelude::*;
use super::object_id::{id_obj_bytes, id_ref_bytes, ObjectId};
use super::page_attributes::{media_box_entry_bytes, rotate_entry_bytes, InheritedPageAttributes};
use super::{IndirectObject, ObjectType};
use crate::cross_reference::CrossReferenceTable;
use crate::error::PdfError;

verus! {

/// A page displayed in the document.
#[derive(Debug, Clone, Copy, PartialEq)]
pub struct Page {
    pub id: ObjectId,
    pub inherited: InheritedPageAttributes,
}

/// The exact bytes a page renders as: its definition header, its dictionary
/// with entries in ascending key order, and the object terminator.
pub open spec fn page_bytes(p: Page, parent: ObjectId) -> Seq<u8> {
    id_obj_bytes(p.id) + seq![10u8] + seq![60u8, 60u8, 32u8] + media_box_entry_bytes(p.inherited)
        + seq![47u8, 80u8, 97u8, 114u8, 101u8, 110u8, 116u8, 32u8] + id_ref_bytes(parent) + seq![
        32u8,
    ] + rotate_entry_bytes(p.inherited) + seq![47u8, 84u8, 121u8, 112u8, 101u8, 32u8, 47u8, 80u8, 97u8, 103u8, 101u8, 32u8]
        + seq![62u8, 62u8] + seq![10u8, 101u8, 110u8, 100u8, 111u8, 98u8, 106u8, 10u8]
}

impl Page {
    /// Writes the page dictionary and records its cross-reference entry.
    #[verifier::rlimit(100)]
    pub fn render_page(
        &self,
        parent: ObjectId,
        writer: &mut Vec<u8>,
        xref: &mut CrossReferenceTable,
    ) -> (res: Result<(), PdfError>)
        requires
            old(xref).total_spec() + page_bytes(*self, parent).len() < usize::MAX,
        ensures
            final(writer)@ == old(writer)@ + page_bytes(*self, parent),
            final(xref).entries_spec() == old(xref).entries_spec().push(
                crate::cross_reference::CrossReferenceTableEntry {
                    offset: (old(xref).total_spec() + 1) as usize,
                    generation: self.id.generation_number,
                    in_use: true,
                },
            ),
            final(xref).total_spec() == old(xref).total_spec() + page_bytes(*self, parent).len(),
            res is Ok,
    {
        let start = writer.len();
        xref.add_entry(self.id.generation_number, true);
        self.id.push_obj_header(writer);
        let g1: &[u8] = &[10, 60, 60, 32];
        crate::helpers::write_all_count(writer, g1);
        proof {
            assert(g1@ =~= seq![10u8, 60u8, 60u8, 32u8]);
        }
        self.inherited.push_media_box_entry(writer);
        let g2: &[u8] = &[47, 80, 97, 114, 101, 110, 116, 32];
        crate::helpers::write_all_count(writer, g2);
        proof {
            assert(g2@ =~= seq![47u8, 80u8, 97u8, 114u8, 101u8, 110u8, 116u8, 32u8]);
        }
        parent.push_ref(writer);
        let g3: &[u8] = &[32];
        crate::helpers::write_all_count(writer, g3);
        proof {
            assert(g3@ =~= seq![32u8]);
        }
        self.inherited.push_rotate_entry(writer);
        let g4: &[u8] = &[
            47, 84, 121, 112, 101, 32, 47, 80, 97, 103, 101, 32, 62, 62, 10, 101, 110, 100, 111,
            98, 106, 10,
        ];
        crate::helpers::write_all_count(writer, g4);
        proof {
            assert(g4@ =~= seq![
                47u8, 84u8, 121u8, 112u8, 101u8, 32u8, 47u8, 80u8, 97u8, 103u8, 101u8, 32u8, 62u8,
                62u8, 10u8, 101u8, 110u8, 100u8, 111u8, 98u8, 106u8, 10u8,
            ]);
            assert(writer@ =~= old(writer)@ + page_bytes(*self, parent));
        }
        let n = writer.len() - start;
        xref.add_bytes(n);
        Result::Ok(())
    }
}


impl super::IndirectObject for Page {
    open spec fn id_spec(&self) -> ObjectId {
        self.id
    }

    open spec fn render_fits(
        &self,
        objects: &super::Objects,
        parent_id: ObjectId,
        total: nat,
        entries: Seq<crate::cross_reference::CrossReferenceTableEntry>,
    ) -> bool {
        total + page_bytes(*self, parent_id).len() < usize::MAX
    }

    fn new(id: ObjectId) -> (r: Page)
        ensures
            r.inherited.media_box_spec() is None,
            r.inherited.rotation_spec() is None,
    {
        Page { id, inherited: InheritedPageAttributes::empty() }
    }

    fn get_id(&self) -> ObjectId {
        self.id
    }

    fn set_id(&mut self, id: ObjectId)
        ensures
            final(self).inherited == old(self).inherited,
    {
        self.id = id;
    }

    fn get_type(&self) -> (r: super::ObjectType)
        ensures
            r == super::ObjectType::Page,
    {
        super::ObjectType::Page
    }

    fn render(
        &self,
        objects: &super::Objects,
        parent_id: ObjectId,
        writer: &mut Vec<u8>,
        xref: &mut crate::cross_reference::CrossReferenceTable,
    ) -> (res: Result<(), PdfError>)
        ensures
            final(writer)@ == old(writer)@ + page_bytes(*self, parent_id),
            final(xref).entries_spec() == old(xref).entries_spec().push(
                crate::cross_reference::CrossReferenceTableEntry {
                    offset: (old(xref).total_spec() + 1) as usize,
                    generation: self.id.generation_number,
                    in_use: true,
                },
            ),
            final(xref).total_spec() == old(xref).total_spec() + page_bytes(
                *self,
                parent_id,
            ).len(),
            res is Ok,
    {
        self.render_page(parent_id, writer, xref)
    }
}

} // verus!
