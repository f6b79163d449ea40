//! The document record and the whole-file renderer.

use vstd::prelude::*;
use super::catalog::{catalog_bytes, find_catalog, Catalog};
use super::information::{find_info, info_bytes, DocInfo};
use super::object_id::{id_obj_bytes, id_ref_bytes, ObjectId};
use super::objects::{find_pages, Objects};
use super::pages::{pages_subtree, Pages};
use super::documents::{DocumentId, Documents};
use super::Object;
use crate::cross_reference::{
    xref_section_bytes, CrossReferenceTable, CrossReferenceTableEntry,
};
use crate::digits::dec_digits;
use crate::error::PdfError;

verus! {

/// The document record, cached at sequence zero of its arena.
#[derive(Debug, Clone, Copy, PartialEq)]
pub struct Document {
    pub id: ObjectId,
    pub document_id: DocumentId,
}

/// The fixed one-line version header.
pub open spec fn header_bytes() -> Seq<u8> {
    seq![37u8, 80u8, 68u8, 70u8, 45u8, 49u8, 46u8, 55u8, 10u8]
}

/// The trailer block: the `Info`/`Root`/`Size` dictionary, the cross-
/// reference offset, and the end-of-file marker.
pub open spec fn trailer_bytes(
    info_id: ObjectId,
    cat_id: ObjectId,
    size: nat,
    startxref: nat,
) -> Seq<u8> {
    seq![116u8, 114u8, 97u8, 105u8, 108u8, 101u8, 114u8, 10u8] + seq![60u8, 60u8, 32u8] + seq![
        47u8, 73u8, 110u8, 102u8, 111u8, 32u8,
    ] + id_ref_bytes(info_id) + seq![32u8] + seq![47u8, 82u8, 111u8, 111u8, 116u8, 32u8]
        + id_ref_bytes(cat_id) + seq![32u8] + seq![47u8, 83u8, 105u8, 122u8, 101u8, 32u8]
        + dec_digits(size as int) + seq![32u8, 62u8, 62u8] + seq![
        10u8, 115u8, 116u8, 97u8, 114u8, 116u8, 120u8, 114u8, 101u8, 102u8, 10u8,
    ] + dec_digits(startxref as int) + seq![10u8, 37u8, 37u8, 69u8, 79u8, 70u8, 10u8]
}

/// The byte total after the body (header, information, catalog and page
/// tree) has been written, together with the cross-reference entries.
pub open spec fn body_state(om: Seq<(ObjectId, Object)>, fuel: nat) -> (nat, Seq<
    CrossReferenceTableEntry,
>) {
    let sentinel = seq![CrossReferenceTableEntry { offset: 0, generation: 65535, in_use: false }];
    let t0 = header_bytes().len() as nat;
    let info = find_info(om)->Some_0;
    let e1 = sentinel.push(
        CrossReferenceTableEntry {
            offset: (t0 + 1) as usize,
            generation: info.id.generation_number,
            in_use: true,
        },
    );
    let t1 = t0 + info_bytes(info).len();
    let cat = find_catalog(om)->Some_0;
    let e2 = e1.push(
        CrossReferenceTableEntry {
            offset: (t1 + 1) as usize,
            generation: cat.id.generation_number,
            in_use: true,
        },
    );
    let t2 = t1 + catalog_bytes(cat).len();
    let tree = find_pages(om)->Some_0;
    let (tb, t3, e3) = pages_subtree(om, tree, t2, e2, fuel);
    (t3, e3)
}

/// The exact bytes of a complete rendered document.
pub open spec fn document_bytes(om: Seq<(ObjectId, Object)>, fuel: nat) -> Seq<u8> {
    let info = find_info(om)->Some_0;
    let cat = find_catalog(om)->Some_0;
    let tree = find_pages(om)->Some_0;
    let t0 = header_bytes().len() as nat;
    let sentinel = seq![CrossReferenceTableEntry { offset: 0, generation: 65535, in_use: false }];
    let e1 = sentinel.push(
        CrossReferenceTableEntry {
            offset: (t0 + 1) as usize,
            generation: info.id.generation_number,
            in_use: true,
        },
    );
    let t1 = t0 + info_bytes(info).len();
    let e2 = e1.push(
        CrossReferenceTableEntry {
            offset: (t1 + 1) as usize,
            generation: cat.id.generation_number,
            in_use: true,
        },
    );
    let t2 = t1 + catalog_bytes(cat).len();
    let (tb, t3, e3) = pages_subtree(om, tree, t2, e2, fuel);
    header_bytes() + info_bytes(info) + catalog_bytes(cat) + tb + xref_section_bytes(e3)
        + trailer_bytes(info.id, cat.id, e3.len(), t3 + 1)
}

/// A whole document can be rendered: its required parts are present and the
/// output stays addressable.
pub open spec fn renderable(om: Seq<(ObjectId, Object)>, fuel: nat) -> bool {
    &&& find_info(om) is Some
    &&& find_catalog(om) is Some
    &&& find_pages(om) is Some
    &&& body_state(om, fuel).0 < usize::MAX
}

impl Document {
    /// Creates a document record for a registry handle.
    pub fn new_with_id(document_id: DocumentId) -> (r: Document)
        ensures
            r.id == (ObjectId { object_number: 0, generation_number: 0 }),
            r.document_id == document_id,
    {
        Document { id: ObjectId::new(0, 0), document_id }
    }

    /// Gets the document id.
    pub fn document_id(&self) -> (r: DocumentId)
        ensures
            r == self.document_id,
    {
        self.document_id
    }

    /// Interprets a generic object as a document record.
    pub fn try_from(value: Object) -> (r: Result<Document, PdfError>)
        ensures
            match r {
                Result::Ok(d) => value == Object::Document(d),
                Result::Err(e) => !(value is Document) && e == PdfError::TypeMismatch,
            },
    {
        match value {
            Object::Document(d) => Result::Ok(d),
            _ => Result::Err(PdfError::TypeMismatch),
        }
    }

    /// Renders the complete file: header, information, catalog, page tree,
    /// cross-reference table and trailer.  Fails, leaving a partial prefix,
    /// exactly when a required part is missing.
    #[verifier::rlimit(100)]
    pub fn render_body(&self, objects: &Objects, writer: &mut Vec<u8>) -> (res: Result<
        (),
        PdfError,
    >)
        requires
            objects.model().len() < u32::MAX,
            find_info(objects.model()) is Some && find_catalog(objects.model()) is Some
                && find_pages(objects.model()) is Some ==> body_state(
                objects.model(),
                (objects.model().len() + 1) as nat,
            ).0 < usize::MAX,
        ensures
            res is Ok <==> find_info(objects.model()) is Some && find_catalog(objects.model())
                is Some && find_pages(objects.model()) is Some,
            ({
                let om = objects.model();
                let fuel = (om.len() + 1) as nat;
                match res {
                    Result::Ok(_) => renderable(om, fuel) && final(writer)@ == old(writer)@
                        + document_bytes(om, fuel),
                    Result::Err(e) => {
                        &&& (e == PdfError::MissingInfo || e == PdfError::MissingCatalog || e
                            == PdfError::MissingPageTree)
                        &&& (e == PdfError::MissingInfo <==> find_info(om) is None)
                        &&& (e == PdfError::MissingCatalog <==> find_info(om) is Some
                            && find_catalog(om) is None)
                        &&& (e == PdfError::MissingPageTree <==> find_info(om) is Some
                            && find_catalog(om) is Some && find_pages(om) is None)
                    },
                }
            }),
    {
        let ghost om = objects.model();
        let ghost fuel_s = (om.len() + 1) as nat;
        let mut xref = CrossReferenceTable::new();
        let fuel: u32 = objects.len() as u32 + 1;
        // header
        let h: &[u8] = &[37, 80, 68, 70, 45, 49, 46, 55, 10];
        crate::helpers::write_all_count(writer, h);
        xref.add_bytes(9);
        proof {
            assert(h@ =~= seq![37u8, 80u8, 68u8, 70u8, 45u8, 49u8, 46u8, 55u8, 10u8]);
            assert(writer@ =~= old(writer)@ + header_bytes());
        }
        // information
        let info = match objects.find_info_exec() {
            Option::Some(i) => i,
            Option::None => {
                return Result::Err(PdfError::MissingInfo);
            },
        };
        let catalog = match objects.find_catalog_exec() {
            Option::Some(c) => c,
            Option::None => {
                return Result::Err(PdfError::MissingCatalog);
            },
        };
        let page_tree = match objects.page_tree() {
            Option::Some(p) => p,
            Option::None => {
                return Result::Err(PdfError::MissingPageTree);
            },
        };
        proof {
            lemma_body_parts_bound(om, fuel_s);
        }
        let ghost acc1 = old(writer)@ + header_bytes();
        info.render_info(writer, &mut xref);
        let ghost acc2 = acc1 + info_bytes(info);
        proof {
            assert(writer@ == acc2);
        }
        catalog.render_catalog(writer, &mut xref);
        let ghost acc3 = acc2 + catalog_bytes(catalog);
        proof {
            assert(writer@ == acc3);
            super::pages::lemma_subtree_model_same_pub(
                om,
                page_tree,
                find_pages(om)->Some_0,
                xref.total_spec(),
                xref.entries_spec(),
                fuel_s,
            );
        }
        let ghost tree_out = super::pages::pages_subtree(
            om,
            find_pages(om)->Some_0,
            xref.total_spec(),
            xref.entries_spec(),
            fuel_s,
        );
        page_tree.render_tree(objects, writer, &mut xref, fuel);
        let ghost acc4 = acc3 + tree_out.0;
        proof {
            assert(writer@ == acc4);
            assert(xref.total_spec() == tree_out.1);
            assert(xref.entries_spec() == tree_out.2);
        }
        let startxref = xref.render(writer);
        let ghost acc5 = acc4 + crate::cross_reference::xref_section_bytes(tree_out.2);
        proof {
            assert(writer@ == acc5);
        }
        let n = xref.num_entries();
        push_trailer(writer, info.id, catalog.id, n, startxref);
        proof {
            assert(writer@ == acc5 + trailer_bytes(
                info.id,
                catalog.id,
                tree_out.2.len(),
                tree_out.1 + 1,
            ));
            assert(acc5 + trailer_bytes(info.id, catalog.id, tree_out.2.len(), tree_out.1 + 1)
                =~= old(writer)@ + document_bytes(om, fuel_s));
        }
        Result::Ok(())
    }

    /// Writes the document to the sink.
    pub fn write(&self, objects: &Objects, writer: &mut Vec<u8>) -> (res: Result<(), PdfError>)
        requires
            objects.model().len() < u32::MAX,
            find_info(objects.model()) is Some && find_catalog(objects.model()) is Some
                && find_pages(objects.model()) is Some ==> body_state(
                objects.model(),
                (objects.model().len() + 1) as nat,
            ).0 < usize::MAX,
        ensures
            res is Ok <==> find_info(objects.model()) is Some && find_catalog(objects.model())
                is Some && find_pages(objects.model()) is Some,
            res is Ok ==> renderable(objects.model(), (objects.model().len() + 1) as nat)
                && final(writer)@ == old(writer)@ + document_bytes(
                objects.model(),
                (objects.model().len() + 1) as nat,
            ),
            res matches Result::Err(e) ==> {
                &&& (e == PdfError::MissingInfo || e == PdfError::MissingCatalog || e
                    == PdfError::MissingPageTree)
                &&& (e == PdfError::MissingInfo <==> find_info(objects.model()) is None)
                &&& (e == PdfError::MissingCatalog <==> find_info(objects.model()) is Some
                    && find_catalog(objects.model()) is None)
                &&& (e == PdfError::MissingPageTree <==> find_info(objects.model()) is Some
                    && find_catalog(objects.model()) is Some && find_pages(objects.model())
                    is None)
            },
    {
        self.render_body(objects, writer)
    }
}

/// The body byte totals stay below the addressable limit at each stage.
proof fn lemma_body_parts_bound(om: Seq<(ObjectId, Object)>, fuel: nat)
    requires
        find_info(om) is Some,
        find_catalog(om) is Some,
        find_pages(om) is Some,
        body_state(om, fuel).0 < usize::MAX,
    ensures
        9 + info_bytes(find_info(om)->Some_0).len() + catalog_bytes(find_catalog(om)->Some_0).len()
            <= body_state(om, fuel).0,
        body_state(om, fuel).0 == ({
            let t0 = header_bytes().len() as nat;
            let info = find_info(om)->Some_0;
            let t1 = t0 + info_bytes(info).len();
            let cat = find_catalog(om)->Some_0;
            let t2 = t1 + catalog_bytes(cat).len();
            let sentinel = seq![
                CrossReferenceTableEntry { offset: 0, generation: 65535, in_use: false },
            ];
            let e1 = sentinel.push(
                CrossReferenceTableEntry {
                    offset: (t0 + 1) as usize,
                    generation: info.id.generation_number,
                    in_use: true,
                },
            );
            let e2 = e1.push(
                CrossReferenceTableEntry {
                    offset: (t1 + 1) as usize,
                    generation: cat.id.generation_number,
                    in_use: true,
                },
            );
            pages_subtree(om, find_pages(om)->Some_0, t2, e2, fuel).1
        }),
{
    super::pages::lemma_subtree_total_monotone_pub(
        om,
        find_pages(om)->Some_0,
        ({
            let t0 = header_bytes().len() as nat;
            let info = find_info(om)->Some_0;
            let t1 = t0 + info_bytes(info).len();
            let cat = find_catalog(om)->Some_0;
            t1 + catalog_bytes(cat).len()
        }),
        ({
            let t0 = header_bytes().len() as nat;
            let info = find_info(om)->Some_0;
            let t1 = t0 + info_bytes(info).len();
            let cat = find_catalog(om)->Some_0;
            let sentinel = seq![
                CrossReferenceTableEntry { offset: 0, generation: 65535, in_use: false },
            ];
            sentinel.push(
                CrossReferenceTableEntry {
                    offset: (t0 + 1) as usize,
                    generation: info.id.generation_number,
                    in_use: true,
                },
            ).push(
                CrossReferenceTableEntry {
                    offset: (t1 + 1) as usize,
                    generation: cat.id.generation_number,
                    in_use: true,
                },
            )
        }),
        fuel,
    );
}

/// Appends the trailer block.
#[verifier::rlimit(100)]
fn push_trailer(
    writer: &mut Vec<u8>,
    info_id: ObjectId,
    cat_id: ObjectId,
    size: usize,
    startxref: usize,
) -> (count: usize)
    ensures
        final(writer)@ == old(writer)@ + trailer_bytes(
            info_id,
            cat_id,
            size as nat,
            startxref as nat,
        ),
{
    let start = writer.len();
    let t1: &[u8] = &[116, 114, 97, 105, 108, 101, 114, 10, 60, 60, 32, 47, 73, 110, 102, 111, 32];
    crate::helpers::write_all_count(writer, t1);
    proof {
        assert(t1@ =~= seq![
            116u8, 114u8, 97u8, 105u8, 108u8, 101u8, 114u8, 10u8, 60u8, 60u8, 32u8, 47u8, 73u8,
            110u8, 102u8, 111u8, 32u8,
        ]);
    }
    info_id.push_ref(writer);
    let t2: &[u8] = &[32, 47, 82, 111, 111, 116, 32];
    crate::helpers::write_all_count(writer, t2);
    proof {
        assert(t2@ =~= seq![32u8, 47u8, 82u8, 111u8, 111u8, 116u8, 32u8]);
    }
    cat_id.push_ref(writer);
    let t3: &[u8] = &[32, 47, 83, 105, 122, 101, 32];
    crate::helpers::write_all_count(writer, t3);
    proof {
        assert(t3@ =~= seq![32u8, 47u8, 83u8, 105u8, 122u8, 101u8, 32u8]);
    }
    crate::digits::push_u128_decimal(writer, size as u128);
    let t4: &[u8] = &[32, 62, 62, 10, 115, 116, 97, 114, 116, 120, 114, 101, 102, 10];
    crate::helpers::write_all_count(writer, t4);
    proof {
        assert(t4@ =~= seq![
            32u8, 62u8, 62u8, 10u8, 115u8, 116u8, 97u8, 114u8, 116u8, 120u8, 114u8, 101u8, 102u8,
            10u8,
        ]);
    }
    crate::digits::push_u128_decimal(writer, startxref as u128);
    let t5: &[u8] = &[10, 37, 37, 69, 79, 70, 10];
    crate::helpers::write_all_count(writer, t5);
    proof {
        assert(t5@ =~= seq![10u8, 37u8, 37u8, 69u8, 79u8, 70u8, 10u8]);
        assert(writer@ =~= old(writer)@ + trailer_bytes(
            info_id,
            cat_id,
            size as nat,
            startxref as nat,
        ));
    }
    writer.len() - start
}

/// Renders a registered document to the sink: the single render entry
/// point over the registry.
pub fn render_document(docs: &Documents, document_id: DocumentId, writer: &mut Vec<u8>) -> (res:
    Result<(), PdfError>)
    requires
        match super::documents::registry_get(docs.model(), document_id) {
            Option::Some(arena) => arena.len() < u32::MAX && (find_info(arena) is Some
                && find_catalog(arena) is Some && find_pages(arena) is Some ==> body_state(
                arena,
                (arena.len() + 1) as nat,
            ).0 < usize::MAX),
            Option::None => true,
        },
    ensures
        ({
            match super::documents::registry_get(docs.model(), document_id) {
                Option::Some(arena) => {
                    &&& (res is Ok <==> find_info(arena) is Some && find_catalog(arena) is Some
                        && find_pages(arena) is Some)
                    &&& (res is Ok ==> final(writer)@ == old(writer)@ + document_bytes(
                        arena,
                        (arena.len() + 1) as nat,
                    ))
                    &&& (res matches Result::Err(e) ==> {
                        &&& (e == PdfError::MissingInfo || e == PdfError::MissingCatalog || e
                            == PdfError::MissingPageTree)
                        &&& (e == PdfError::MissingInfo <==> find_info(arena) is None)
                        &&& (e == PdfError::MissingCatalog <==> find_info(arena) is Some
                            && find_catalog(arena) is None)
                        &&& (e == PdfError::MissingPageTree <==> find_info(arena) is Some
                            && find_catalog(arena) is Some && find_pages(arena) is None)
                    })
                },
                Option::None => res == Result::<(), PdfError>::Err(PdfError::NotFound),
            }
        }),
{
    match super::documents::get(docs, document_id) {
        Option::Some(objects) => {
            let doc = Document::new_with_id(document_id);
            doc.render_body(objects, writer)
        },
        Option::None => Result::Err(PdfError::NotFound),
    }
}

/// Rendering is deterministic: the output is a function of the arena
/// alone, so rendering the same unmutated document twice produces
/// byte-identical output.  The only time-dependent entries are the
/// information dates, which are explicit fields a caller can fix.
pub proof fn lemma_render_idempotent(
    om: Seq<(ObjectId, Object)>,
    fuel: nat,
    out1: Seq<u8>,
    out2: Seq<u8>,
)
    requires
        out1 == document_bytes(om, fuel),
        out2 == document_bytes(om, fuel),
    ensures
        out1 == out2,
{
}


impl super::IndirectObject for Document {
    open spec fn id_spec(&self) -> ObjectId {
        self.id
    }

    open spec fn render_fits(
        &self,
        objects: &Objects,
        parent_id: ObjectId,
        total: nat,
        entries: Seq<CrossReferenceTableEntry>,
    ) -> bool {
        objects.model().len() < u32::MAX && (find_info(objects.model()) is Some && find_catalog(
            objects.model(),
        ) is Some && find_pages(objects.model()) is Some ==> body_state(
            objects.model(),
            (objects.model().len() + 1) as nat,
        ).0 < usize::MAX)
    }

    fn new(id: ObjectId) -> (r: Document)
        ensures
            r.document_id == 0,
    {
        Document { id, document_id: 0 }
    }

    fn get_id(&self) -> ObjectId {
        self.id
    }

    fn set_id(&mut self, id: ObjectId)
        ensures
            final(self).document_id == old(self).document_id,
    {
        self.id = id;
    }

    fn get_type(&self) -> (r: super::ObjectType)
        ensures
            r == super::ObjectType::Document,
    {
        super::ObjectType::Document
    }

    /// Renders the whole file: the document record is the entry object, so
    /// its render drives the complete output.
    fn render(
        &self,
        objects: &Objects,
        parent_id: ObjectId,
        writer: &mut Vec<u8>,
        xref: &mut CrossReferenceTable,
    ) -> (res: Result<(), PdfError>)
        ensures
            res is Ok <==> find_info(objects.model()) is Some && find_catalog(objects.model())
                is Some && find_pages(objects.model()) is Some,
            res is Ok ==> final(writer)@ == old(writer)@ + document_bytes(
                objects.model(),
                (objects.model().len() + 1) as nat,
            ),
            res matches Result::Err(e) ==> e == PdfError::MissingInfo || e
                == PdfError::MissingCatalog || e == PdfError::MissingPageTree,
    {
        self.render_body(objects, writer)
    }
}

} // verus!
