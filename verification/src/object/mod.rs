//! Indirect objects: identifiers, the closed set of object variants, the
//! per-document arena, and the process-wide document registry.

pub mod catalog;
pub mod document;
pub mod documents;
pub mod information;
pub mod object_id;
pub mod objects;
pub mod page;
pub mod page_attributes;
pub mod pages;

pub use catalog::Catalog;
pub use document::Document;
pub use documents::DocumentId;
pub use information::DocInfo;
pub use object_id::ObjectId;
pub use objects::Objects;
pub use page::Page;
pub use pages::Pages;

use vstd::prelude::*;
use vstd::string::StringSliceAdditionalSpecFns;
use crate::cross_reference::CrossReferenceTable;
use crate::error::PdfError;

verus! {

/// Object types.
#[derive(Debug, Clone, Copy, PartialEq, Eq, Structural)]
pub enum ObjectType {
    Document,
    DocInfo,
    Catalog,
    Pages,
    Page,
}

/// The textual tag of an object type, as written into `Type` entries.
pub open spec fn type_name_bytes(t: ObjectType) -> Seq<u8> {
    match t {
        ObjectType::Document => seq![68u8, 111u8, 99u8, 117u8, 109u8, 101u8, 110u8, 116u8],
        ObjectType::DocInfo => seq![
            73u8, 110u8, 102u8, 111u8, 114u8, 109u8, 97u8, 116u8, 105u8, 111u8, 110u8,
        ],
        ObjectType::Catalog => seq![67u8, 97u8, 116u8, 97u8, 108u8, 111u8, 103u8],
        ObjectType::Pages => seq![80u8, 97u8, 103u8, 101u8, 115u8],
        ObjectType::Page => seq![80u8, 97u8, 103u8, 101u8],
    }
}

impl ObjectType {
    /// The type tag as text; the information type prints as `Information`,
    /// the name its dictionary carries.
    pub fn to_string(&self) -> (r: String)
        ensures
            vstd::utf8::encode_utf8(r@) == type_name_bytes(*self),
    {
        let mut bytes: Vec<u8> = Vec::new();
        self.push_name(&mut bytes);
        proof {
            lemma_type_name_ascii(*self);
            crate::helpers::lemma_ascii_valid_utf8(bytes@);
        }
        crate::helpers::string_from_utf8_bytes(bytes)
    }

    /// Appends the type tag bytes.
    pub fn push_name(&self, out: &mut Vec<u8>) -> (count: usize)
        ensures
            final(out)@ == old(out)@ + type_name_bytes(*self),
            count == type_name_bytes(*self).len(),
    {
        let start = out.len();
        match self {
            ObjectType::Document => {
                out.push(68);
                out.push(111);
                out.push(99);
                out.push(117);
                out.push(109);
                out.push(101);
                out.push(110);
                out.push(116);
            },
            ObjectType::DocInfo => {
                out.push(73);
                out.push(110);
                out.push(102);
                out.push(111);
                out.push(114);
                out.push(109);
                out.push(97);
                out.push(116);
                out.push(105);
                out.push(111);
                out.push(110);
            },
            ObjectType::Catalog => {
                out.push(67);
                out.push(97);
                out.push(116);
                out.push(97);
                out.push(108);
                out.push(111);
                out.push(103);
            },
            ObjectType::Pages => {
                out.push(80);
                out.push(97);
                out.push(103);
                out.push(101);
                out.push(115);
            },
            ObjectType::Page => {
                out.push(80);
                out.push(97);
                out.push(103);
                out.push(101);
            },
        }
        proof {
            assert(out@ =~= old(out)@ + type_name_bytes(*self));
        }
        out.len() - start
    }
}

/// Type tags are plain ASCII.
pub proof fn lemma_type_name_ascii(t: ObjectType)
    ensures
        forall|i: int|
            0 <= i < type_name_bytes(t).len() ==> #[trigger] type_name_bytes(t)[i] < 128,
{
}

/// The error returned when a type tag cannot be parsed back.
#[derive(Debug, Clone, Copy, PartialEq, Eq, Structural)]
pub struct ParseObjectTypeError;

impl ObjectType {
    /// Parses a type tag name (`Document`, `DocInfo`, `Catalog`, `Pages`,
    /// `Page`) back into a type.
    pub fn from_str(s: &str) -> (r: Result<ObjectType, ParseObjectTypeError>) {
        let b = s.as_bytes();
        if crate::pdf_object::bytes_eq(b, &[68, 111, 99, 117, 109, 101, 110, 116]) {
            Result::Ok(ObjectType::Document)
        } else if crate::pdf_object::bytes_eq(b, &[68, 111, 99, 73, 110, 102, 111]) {
            Result::Ok(ObjectType::DocInfo)
        } else if crate::pdf_object::bytes_eq(b, &[67, 97, 116, 97, 108, 111, 103]) {
            Result::Ok(ObjectType::Catalog)
        } else if crate::pdf_object::bytes_eq(b, &[80, 97, 103, 101, 115]) {
            Result::Ok(ObjectType::Pages)
        } else if crate::pdf_object::bytes_eq(b, &[80, 97, 103, 101]) {
            Result::Ok(ObjectType::Page)
        } else {
            Result::Err(ParseObjectTypeError)
        }
    }
}

/// Objects that are labeled and referenced in a PDF file: the closed set of
/// indirect object variants.
#[derive(Debug)]
pub enum Object {
    /// The document itself; cached at sequence zero, not part of the body.
    Document(Document),
    /// Information for the document.
    DocInfo(DocInfo),
    /// Primary dictionary of all objects in the document.
    Catalog(Catalog),
    /// A collection of pages within the page tree.
    Pages(Pages),
    /// A page displayed in the document.
    Page(Page),
}

impl Object {
    /// The identifier of the carried object.
    pub open spec fn get_id_spec(&self) -> ObjectId {
        match *self {
            Object::Document(d) => d.id,
            Object::DocInfo(ref i) => i.id,
            Object::Catalog(c) => c.id,
            Object::Pages(ref p) => p.id,
            Object::Page(p) => p.id,
        }
    }

    /// The type tag of the carried object.
    pub open spec fn get_type_spec(&self) -> ObjectType {
        match *self {
            Object::Document(_) => ObjectType::Document,
            Object::DocInfo(_) => ObjectType::DocInfo,
            Object::Catalog(_) => ObjectType::Catalog,
            Object::Pages(_) => ObjectType::Pages,
            Object::Page(_) => ObjectType::Page,
        }
    }

    /// Creates a default object: a document cached at sequence zero.
    /// Variants should normally be created directly.
    pub fn new(_id: ObjectId) -> (r: Object)
        ensures
            r.get_id_spec() == (ObjectId { object_number: 0, generation_number: 0 }),
            r.get_type_spec() == ObjectType::Document,
    {
        Object::Document(Document { id: ObjectId::new(0, 0), document_id: 0 })
    }

    /// Gets the object's id.
    pub fn get_id(&self) -> (r: ObjectId)
        ensures
            r == self.get_id_spec(),
    {
        match self {
            Object::Document(d) => d.id,
            Object::DocInfo(i) => i.id,
            Object::Catalog(c) => c.id,
            Object::Pages(p) => p.id,
            Object::Page(p) => p.id,
        }
    }

    /// Sets the object's id.
    pub fn set_id(&mut self, value: ObjectId)
        ensures
            final(self).get_id_spec() == value,
            final(self).get_type_spec() == old(self).get_type_spec(),
    {
        match self {
            Object::Document(d) => d.id = value,
            Object::DocInfo(i) => i.id = value,
            Object::Catalog(c) => c.id = value,
            Object::Pages(p) => p.id = value,
            Object::Page(p) => p.id = value,
        }
    }

    /// Gets the object's type.
    pub fn get_type(&self) -> (r: ObjectType)
        ensures
            r == self.get_type_spec(),
    {
        match self {
            Object::Document(_) => ObjectType::Document,
            Object::DocInfo(_) => ObjectType::DocInfo,
            Object::Catalog(_) => ObjectType::Catalog,
            Object::Pages(_) => ObjectType::Pages,
            Object::Page(_) => ObjectType::Page,
        }
    }

    /// Whether there is headroom for this object to write itself.
    pub open spec fn obj_render_fits(
        &self,
        objects: &Objects,
        parent_id: ObjectId,
        total: nat,
        entries: Seq<crate::cross_reference::CrossReferenceTableEntry>,
    ) -> bool {
        match *self {
            Object::Document(d) => IndirectObject::render_fits(&d, objects, parent_id, total, entries),
            Object::DocInfo(ref i) => IndirectObject::render_fits(i, objects, parent_id, total, entries),
            Object::Catalog(c) => IndirectObject::render_fits(&c, objects, parent_id, total, entries),
            Object::Pages(ref p) => IndirectObject::render_fits(p, objects, parent_id, total, entries),
            Object::Page(p) => IndirectObject::render_fits(&p, objects, parent_id, total, entries),
        }
    }

    /// Writes the carried object through the renderer.
    pub fn render(
        &self,
        objects: &Objects,
        parent_id: ObjectId,
        writer: &mut Vec<u8>,
        xref: &mut CrossReferenceTable,
    ) -> (res: Result<(), PdfError>)
        requires
            self.obj_render_fits(objects, parent_id, old(xref).total_spec(), old(xref).entries_spec()),
    {
        match self {
            Object::Document(d) => IndirectObject::render(d, objects, parent_id, writer, xref),
            Object::DocInfo(i) => IndirectObject::render(i, objects, parent_id, writer, xref),
            Object::Catalog(c) => IndirectObject::render(c, objects, parent_id, writer, xref),
            Object::Pages(p) => IndirectObject::render(p, objects, parent_id, writer, xref),
            Object::Page(p) => IndirectObject::render(p, objects, parent_id, writer, xref),
        }
    }

    /// A deep copy with the same identifier, type and contents.
    pub fn duplicate(&self) -> (r: Object)
        ensures
            r.get_id_spec() == self.get_id_spec(),
            r.get_type_spec() == self.get_type_spec(),
            object_model(r) == object_model(*self),
    {
        match self {
            Object::Document(d) => Object::Document(*d),
            Object::DocInfo(i) => Object::DocInfo(i.duplicate()),
            Object::Catalog(c) => Object::Catalog(*c),
            Object::Pages(p) => Object::Pages(p.duplicate()),
            Object::Page(p) => Object::Page(*p),
        }
    }
}

/// The abstract value of an object: the variants' own values, with the
/// page-tree kid list as a sequence.
pub open spec fn object_model(o: Object) -> ObjectModel {
    match o {
        Object::Document(d) => ObjectModel::Document(d),
        Object::DocInfo(i) => ObjectModel::DocInfo(i),
        Object::Catalog(c) => ObjectModel::Catalog(c),
        Object::Pages(p) => ObjectModel::Pages(pages::pages_model(p)),
        Object::Page(p) => ObjectModel::Page(p),
    }
}

/// Abstract object values.
pub enum ObjectModel {
    Document(Document),
    DocInfo(DocInfo),
    Catalog(Catalog),
    Pages((ObjectId, Seq<ObjectId>, nat, page_attributes::InheritedPageAttributes)),
    Page(Page),
}

/// A trait shared by all indirect (referenced) objects.
pub trait IndirectObject: Sized {
    /// The object's identifier.
    spec fn id_spec(&self) -> ObjectId;

    /// The byte total stays addressable while this object writes itself.
    spec fn render_fits(
        &self,
        objects: &Objects,
        parent_id: ObjectId,
        total: nat,
        entries: Seq<crate::cross_reference::CrossReferenceTableEntry>,
    ) -> bool;

    /// Creates a new indirect object.
    fn new(id: ObjectId) -> (r: Self)
        ensures
            r.id_spec() == id,
    ;

    /// Gets the object's id.
    fn get_id(&self) -> (r: ObjectId)
        ensures
            r == self.id_spec(),
    ;

    /// Sets the object's id.
    fn set_id(&mut self, id: ObjectId)
        ensures
            final(self).id_spec() == id,
    ;

    /// Gets the object's type.
    fn get_type(&self) -> ObjectType;

    /// Writes the object through the renderer, recording cross-reference
    /// entries as it goes.
    fn render(
        &self,
        objects: &Objects,
        parent_id: ObjectId,
        writer: &mut Vec<u8>,
        xref: &mut CrossReferenceTable,
    ) -> Result<(), PdfError>
        requires
            self.render_fits(
                objects,
                parent_id,
                old(xref).total_spec(),
                old(xref).entries_spec(),
            ),
    ;
}

} // verus!
