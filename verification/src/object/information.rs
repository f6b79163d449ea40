//! The document information dictionary.

use vstd::prelude::*;
use vstd::string::StringSliceAdditionalSpecFns;
use super::object_id::{id_obj_bytes, ObjectId};
use super::{Object, Objects};
use super::documents::{DocumentId, Documents};
use crate::cross_reference::CrossReferenceTable;
use crate::dates::{date_bytes, now_date, DateStamp};
use crate::error::PdfError;
use crate::pdf_object::escape_string_bytes;

verus! {

/// Information for the document: title, author and related fields, plus
/// creation and modification stamps.
#[derive(Debug)]
pub struct DocInfo {
    pub id: ObjectId,
    pub title: Option<String>,
    pub author: Option<String>,
    pub subject: Option<String>,
    pub keywords: Option<String>,
    pub creator: Option<String>,
    pub producer: Option<String>,
    pub creation_date: Option<DateStamp>,
    pub modification_date: Option<DateStamp>,
}

/// The first information object in an arena, if any.
pub open spec fn find_info(s: Seq<(ObjectId, Object)>) -> Option<DocInfo>
    decreases s.len(),
{
    if s.len() == 0 {
        Option::None
    } else if s.first().1 is DocInfo {
        Option::Some(s.first().1->DocInfo_0)
    } else {
        find_info(s.drop_first())
    }
}

/// One optional text entry: `/Key (escaped value) `, or nothing.
pub open spec fn text_entry_bytes(key: Seq<u8>, v: Option<String>) -> Seq<u8> {
    match v {
        Option::Some(s) => seq![47u8] + key + seq![32u8, 40u8] + escape_string_bytes(
            vstd::utf8::encode_utf8(s@),
        ) + seq![41u8, 32u8],
        Option::None => Seq::empty(),
    }
}

/// One optional date entry: `/Key (D:...) `, or nothing.
pub open spec fn date_entry_bytes(key: Seq<u8>, v: Option<DateStamp>) -> Seq<u8> {
    match v {
        Option::Some(d) => seq![47u8] + key + seq![32u8, 40u8] + date_bytes(d) + seq![41u8, 32u8],
        Option::None => Seq::empty(),
    }
}

/// The dictionary entries of the information object, in ascending key
/// order.
pub open spec fn info_entries_bytes(i: DocInfo) -> Seq<u8> {
    text_entry_bytes(
        seq![65u8, 117u8, 116u8, 104u8, 111u8, 114u8],
        i.author,
    ) + date_entry_bytes(
        seq![
            67u8, 114u8, 101u8, 97u8, 116u8, 105u8, 111u8, 110u8, 68u8, 97u8, 116u8, 101u8,
        ],
        i.creation_date,
    ) + text_entry_bytes(seq![67u8, 114u8, 101u8, 97u8, 116u8, 111u8, 114u8], i.creator)
        + text_entry_bytes(
        seq![75u8, 101u8, 121u8, 119u8, 111u8, 114u8, 100u8, 115u8],
        i.keywords,
    ) + date_entry_bytes(
        seq![77u8, 111u8, 100u8, 68u8, 97u8, 116u8, 101u8],
        i.modification_date,
    ) + text_entry_bytes(
        seq![80u8, 114u8, 111u8, 100u8, 117u8, 99u8, 101u8, 114u8],
        i.producer,
    ) + text_entry_bytes(
        seq![83u8, 117u8, 98u8, 106u8, 101u8, 99u8, 116u8],
        i.subject,
    ) + text_entry_bytes(seq![84u8, 105u8, 116u8, 108u8, 101u8], i.title)
}

/// The exact bytes the information object renders as.
pub open spec fn info_bytes(i: DocInfo) -> Seq<u8> {
    id_obj_bytes(i.id) + seq![10u8, 60u8, 60u8, 32u8] + info_entries_bytes(i) + seq![
        62u8, 62u8, 10u8, 101u8, 110u8, 100u8, 111u8, 98u8, 106u8, 10u8,
    ]
}

impl DocInfo {
    /// A deep copy with equal fields.
    pub fn duplicate(&self) -> (r: DocInfo)
        ensures
            r == *self,
    {
        DocInfo {
            id: self.id,
            title: clone_opt_string(&self.title),
            author: clone_opt_string(&self.author),
            subject: clone_opt_string(&self.subject),
            keywords: clone_opt_string(&self.keywords),
            creator: clone_opt_string(&self.creator),
            producer: clone_opt_string(&self.producer),
            creation_date: self.creation_date,
            modification_date: self.modification_date,
        }
    }

    /// Gets the title.
    pub fn title(&self) -> (r: Option<String>)
        ensures
            r == self.title,
    {
        clone_opt_string(&self.title)
    }

    /// Sets the title.
    pub fn set_title(&mut self, title: Option<String>)
        ensures
            *final(self) == (DocInfo { title, ..*old(self) }),
    {
        self.title = title;
    }

    /// Gets the author.
    pub fn author(&self) -> (r: Option<String>)
        ensures
            r == self.author,
    {
        clone_opt_string(&self.author)
    }

    /// Sets the author.
    pub fn set_author(&mut self, author: Option<String>)
        ensures
            *final(self) == (DocInfo { author, ..*old(self) }),
    {
        self.author = author;
    }

    /// Gets the subject.
    pub fn subject(&self) -> (r: Option<String>)
        ensures
            r == self.subject,
    {
        clone_opt_string(&self.subject)
    }

    /// Sets the subject.
    pub fn set_subject(&mut self, subject: Option<String>)
        ensures
            *final(self) == (DocInfo { subject, ..*old(self) }),
    {
        self.subject = subject;
    }

    /// Gets the keywords.
    pub fn keywords(&self) -> (r: Option<String>)
        ensures
            r == self.keywords,
    {
        clone_opt_string(&self.keywords)
    }

    /// Sets the keywords.
    pub fn set_keywords(&mut self, keywords: Option<String>)
        ensures
            *final(self) == (DocInfo { keywords, ..*old(self) }),
    {
        self.keywords = keywords;
    }

    /// Gets the creator.
    pub fn creator(&self) -> (r: Option<String>)
        ensures
            r == self.creator,
    {
        clone_opt_string(&self.creator)
    }

    /// Sets the creator.
    pub fn set_creator(&mut self, creator: Option<String>)
        ensures
            *final(self) == (DocInfo { creator, ..*old(self) }),
    {
        self.creator = creator;
    }

    /// Gets the producer.
    pub fn producer(&self) -> (r: Option<String>)
        ensures
            r == self.producer,
    {
        clone_opt_string(&self.producer)
    }

    /// Sets the producer.
    pub fn set_producer(&mut self, producer: Option<String>)
        ensures
            *final(self) == (DocInfo { producer, ..*old(self) }),
    {
        self.producer = producer;
    }

    /// Gets the creation date.
    pub fn creation_date(&self) -> (r: Option<DateStamp>)
        ensures
            r == self.creation_date,
    {
        self.creation_date
    }

    /// Sets the creation date.
    pub fn set_creation_date(&mut self, creation_date: Option<DateStamp>)
        ensures
            *final(self) == (DocInfo { creation_date, ..*old(self) }),
    {
        self.creation_date = creation_date;
    }

    /// Gets the modification date.
    pub fn modification_date(&self) -> (r: Option<DateStamp>)
        ensures
            r == self.modification_date,
    {
        self.modification_date
    }

    /// Sets the modification date.
    pub fn set_modification_date(&mut self, modification_date: Option<DateStamp>)
        ensures
            *final(self) == (DocInfo { modification_date, ..*old(self) }),
    {
        self.modification_date = modification_date;
    }

    /// Sets the modification date to the clock's current reading.
    pub fn set_modification_date_now(&mut self)
        ensures
            final(self).modification_date is Some,
            final(self).id == old(self).id,
    {
        self.modification_date = Option::Some(now_date());
    }

    /// Interprets a generic object as an information object.
    pub fn try_from(value: Object) -> (r: Result<DocInfo, PdfError>)
        ensures
            match r {
                Result::Ok(i) => value is DocInfo && i == value->DocInfo_0,
                Result::Err(e) => !(value is DocInfo) && e == PdfError::TypeMismatch,
            },
    {
        match value {
            Object::DocInfo(i) => Result::Ok(i),
            _ => Result::Err(PdfError::TypeMismatch),
        }
    }

    /// Writes the information dictionary and records its cross-reference
    /// entry.
    #[verifier::rlimit(100)]
    #[verifier::spinoff_prover]
    pub fn render_info(&self, writer: &mut Vec<u8>, xref: &mut CrossReferenceTable) -> (res: Result<
        (),
        PdfError,
    >)
        requires
            old(xref).total_spec() + info_bytes(*self).len() < usize::MAX,
        ensures
            final(writer)@ == old(writer)@ + info_bytes(*self),
            final(xref).entries_spec() == old(xref).entries_spec().push(
                crate::cross_reference::CrossReferenceTableEntry {
                    offset: (old(xref).total_spec() + 1) as usize,
                    generation: self.id.generation_number,
                    in_use: true,
                },
            ),
            final(xref).total_spec() == old(xref).total_spec() + info_bytes(*self).len(),
            res is Ok,
    {
        let start = writer.len();
        xref.add_entry(self.id.generation_number, true);
        self.id.push_obj_header(writer);
        let g1: &[u8] = &[10, 60, 60, 32];
        crate::helpers::write_all_count(writer, g1);
        proof {
            assert(g1@ =~= seq![10u8, 60u8, 60u8, 32u8]);
        }
        let k1: &[u8] = &[65, 117, 116, 104, 111, 114];
        proof {
            assert(k1@ =~= seq![65u8, 117u8, 116u8, 104u8, 111u8, 114u8]);
        }
        push_text_entry(writer, k1, &self.author);
        let k2: &[u8] = &[67, 114, 101, 97, 116, 105, 111, 110, 68, 97, 116, 101];
        proof {
            assert(k2@ =~= seq![
                67u8, 114u8, 101u8, 97u8, 116u8, 105u8, 111u8, 110u8, 68u8, 97u8, 116u8, 101u8,
            ]);
        }
        push_date_entry(writer, k2, &self.creation_date);
        let k3: &[u8] = &[67, 114, 101, 97, 116, 111, 114];
        proof {
            assert(k3@ =~= seq![67u8, 114u8, 101u8, 97u8, 116u8, 111u8, 114u8]);
        }
        push_text_entry(writer, k3, &self.creator);
        let k4: &[u8] = &[75, 101, 121, 119, 111, 114, 100, 115];
        proof {
            assert(k4@ =~= seq![75u8, 101u8, 121u8, 119u8, 111u8, 114u8, 100u8, 115u8]);
        }
        push_text_entry(writer, k4, &self.keywords);
        let k5: &[u8] = &[77, 111, 100, 68, 97, 116, 101];
        proof {
            assert(k5@ =~= seq![77u8, 111u8, 100u8, 68u8, 97u8, 116u8, 101u8]);
        }
        push_date_entry(writer, k5, &self.modification_date);
        let k6: &[u8] = &[80, 114, 111, 100, 117, 99, 101, 114];
        proof {
            assert(k6@ =~= seq![80u8, 114u8, 111u8, 100u8, 117u8, 99u8, 101u8, 114u8]);
        }
        push_text_entry(writer, k6, &self.producer);
        let k7: &[u8] = &[83, 117, 98, 106, 101, 99, 116];
        proof {
            assert(k7@ =~= seq![83u8, 117u8, 98u8, 106u8, 101u8, 99u8, 116u8]);
        }
        push_text_entry(writer, k7, &self.subject);
        let k8: &[u8] = &[84, 105, 116, 108, 101];
        proof {
            assert(k8@ =~= seq![84u8, 105u8, 116u8, 108u8, 101u8]);
        }
        push_text_entry(writer, k8, &self.title);
        proof {
            assert(writer@ =~= old(writer)@ + id_obj_bytes(self.id) + seq![
                10u8, 60u8, 60u8, 32u8,
            ] + info_entries_bytes(*self));
        }
        let ghost mid = writer@;
        let g2: &[u8] = &[62, 62, 10, 101, 110, 100, 111, 98, 106, 10];
        crate::helpers::write_all_count(writer, g2);
        proof {
            assert(g2@ =~= seq![
                62u8, 62u8, 10u8, 101u8, 110u8, 100u8, 111u8, 98u8, 106u8, 10u8,
            ]);
            assert(writer@ == mid + g2@);
            assert(writer@ =~= old(writer)@ + info_bytes(*self));
        }
        let n = writer.len() - start;
        xref.add_bytes(n);
        Result::Ok(())
    }

    /// Gets the information object of a document, or nothing when the
    /// document or the object is absent.
    pub fn get_doc_info(docs: &Documents, document_id: DocumentId) -> (r: Option<DocInfo>)
        ensures
            match super::documents::registry_get(docs.model(), document_id) {
                Option::Some(arena) => r == find_info(arena),
                Option::None => r is None,
            },
    {
        match super::documents::get(docs, document_id) {
            Option::Some(objects) => objects.find_info_exec(),
            Option::None => Option::None,
        }
    }

    /// Replaces the information object of a document, returning the old
    /// one, or nothing when the document or the object does not exist.
    pub fn update_doc_info(docs: &mut Documents, document_id: DocumentId, new_doc_info: DocInfo) -> (r:
        Option<DocInfo>)
        requires
            old(docs).wf(),
            new_doc_info.id.object_number < u32::MAX,
        ensures
            final(docs).wf(),
            match super::documents::registry_get(old(docs).model(), document_id) {
                Option::Some(arena) => match find_info(arena) {
                    Option::Some(old_info) => r == Option::Some(old_info)
                        && super::documents::registry_get(final(docs).model(), document_id)
                        == Option::Some(
                        super::objects::arena_upsert(
                            arena,
                            new_doc_info.id,
                            Object::DocInfo(new_doc_info),
                        ),
                    ),
                    Option::None => r is None && final(docs).model() == old(docs).model(),
                },
                Option::None => r is None && final(docs).model() == old(docs).model(),
            },
    {
        let existing = DocInfo::get_doc_info(docs, document_id);
        match existing {
            Option::Some(old_info) => {
                super::documents::upsert_object(docs, document_id, Object::DocInfo(new_doc_info));
                Option::Some(old_info)
            },
            Option::None => Option::None,
        }
    }
}

impl Objects {
    /// The first information object in this arena.
    pub fn find_info_exec(&self) -> (r: Option<DocInfo>)
        ensures
            r == find_info(self.model()),
    {
        proof {
            self.lemma_model();
            assert(self.objects@.skip(0) =~= self.objects@);
        }
        let mut i: usize = 0;
        while i < self.objects.len()
            invariant
                i <= self.objects@.len(),
                self.model() == self.objects@,
                find_info(self.objects@) == find_info(self.objects@.skip(i as int)),
            decreases self.objects@.len() - i,
        {
            proof {
                assert(self.objects@.skip(i as int).first() == self.objects@[i as int]);
                assert(self.objects@.skip(i as int).drop_first() =~= self.objects@.skip(
                    i as int + 1,
                ));
            }
            if let Object::DocInfo(info) = &self.objects[i].1 {
                return Option::Some(info.duplicate());
            }
            i = i + 1;
        }
        proof {
            assert(self.objects@.skip(self.objects@.len() as int).len() == 0);
        }
        Option::None
    }
}

/// Clones an optional string, preserving its value.
fn clone_opt_string(s: &Option<String>) -> (r: Option<String>)
    ensures
        r == *s,
{
    match s {
        Option::Some(v) => Option::Some(v.clone()),
        Option::None => Option::None,
    }
}

/// Appends one `/Key (value) ` text entry, or nothing when absent.
fn push_text_entry(writer: &mut Vec<u8>, key: &[u8], v: &Option<String>) -> (count: usize)
    ensures
        final(writer)@ == old(writer)@ + text_entry_bytes(key@, *v),
{
    match v {
        Option::Some(s) => {
            let start = writer.len();
            writer.push(47);
            crate::helpers::write_all_count(writer, key);
            writer.push(32);
            crate::pdf_object::push_literal_string(writer, s.as_str());
            writer.push(32);
            proof {
                assert(writer@ =~= old(writer)@ + text_entry_bytes(key@, *v));
            }
            writer.len() - start
        },
        Option::None => {
            proof {
                assert(writer@ =~= old(writer)@ + text_entry_bytes(key@, *v));
            }
            0
        },
    }
}

/// Appends one `/Key (D:...) ` date entry, or nothing when absent.
fn push_date_entry(writer: &mut Vec<u8>, key: &[u8], v: &Option<DateStamp>) -> (count: usize)
    ensures
        final(writer)@ == old(writer)@ + date_entry_bytes(key@, *v),
{
    match v {
        Option::Some(d) => {
            let start = writer.len();
            writer.push(47);
            crate::helpers::write_all_count(writer, key);
            writer.push(32);
            writer.push(40);
            d.push_date(writer);
            writer.push(41);
            writer.push(32);
            proof {
                assert(writer@ =~= old(writer)@ + date_entry_bytes(key@, *v));
            }
            writer.len() - start
        },
        Option::None => {
            proof {
                assert(writer@ =~= old(writer)@ + date_entry_bytes(key@, *v));
            }
            0
        },
    }
}


impl super::IndirectObject for DocInfo {
    open spec fn id_spec(&self) -> ObjectId {
        self.id
    }

    open spec fn render_fits(
        &self,
        objects: &Objects,
        parent_id: ObjectId,
        total: nat,
        entries: Seq<crate::cross_reference::CrossReferenceTableEntry>,
    ) -> bool {
        total + info_bytes(*self).len() < usize::MAX
    }

    /// A fresh information object names this library as creator and
    /// producer and stamps both dates from the clock.
    fn new(id: ObjectId) -> (r: DocInfo)
        ensures
            r.title is None,
            r.author is None,
            r.subject is None,
            r.keywords is None,
            r.creator is Some && r.creator->0@ == "easy-pdf v0.1.0"@,
            r.producer is Some && r.producer->0@ == "easy-pdf v0.1.0"@,
            r.creation_date is Some,
            r.modification_date is Some,
    {
        DocInfo {
            id,
            title: Option::None,
            author: Option::None,
            subject: Option::None,
            keywords: Option::None,
            creator: Option::Some(crate::helpers::get_lib_name()),
            producer: Option::Some(crate::helpers::get_lib_name()),
            creation_date: Option::Some(now_date()),
            modification_date: Option::Some(now_date()),
        }
    }

    fn get_id(&self) -> ObjectId {
        self.id
    }

    fn set_id(&mut self, id: ObjectId)
        ensures
            *final(self) == (DocInfo { id, ..*old(self) }),
    {
        self.id = id;
    }

    fn get_type(&self) -> (r: super::ObjectType)
        ensures
            r == super::ObjectType::DocInfo,
    {
        super::ObjectType::DocInfo
    }

    fn render(
        &self,
        objects: &Objects,
        parent_id: ObjectId,
        writer: &mut Vec<u8>,
        xref: &mut CrossReferenceTable,
    ) -> (res: Result<(), PdfError>)
        ensures
            final(writer)@ == old(writer)@ + info_bytes(*self),
            final(xref).entries_spec() == old(xref).entries_spec().push(
                crate::cross_reference::CrossReferenceTableEntry {
                    offset: (old(xref).total_spec() + 1) as usize,
                    generation: self.id.generation_number,
                    in_use: true,
                },
            ),
            final(xref).total_spec() == old(xref).total_spec() + info_bytes(*self).len(),
            res is Ok,
    {
        self.render_info(writer, xref)
    }
}

} // verus!
