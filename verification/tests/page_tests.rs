use easy_pdf::cross_reference::CrossReferenceTable;
use easy_pdf::dates::DateStamp;
use easy_pdf::geometry::paper_size::PaperSize;
use easy_pdf::object::documents::{self, Documents};
use easy_pdf::object::information::DocInfo;
use easy_pdf::object::object_id::ObjectId;
use easy_pdf::object::objects::Objects;
use easy_pdf::object::page::Page;
use easy_pdf::object::page_attributes::PageRotation;
use easy_pdf::object::pages::Pages;
use easy_pdf::object::{IndirectObject, Object, ObjectType};

#[test]
fn page_test_from_object() {
    let id = ObjectId::new(1, 2);
    let page = Page::new(id);
    let object = Object::Page(page);
    let page1 = match object {
        Object::Page(p) => p,
        _ => panic!(),
    };
    assert_eq!(page, page1);
    assert_eq!(page1.get_id(), id);
}

#[test]
fn page_test_render() {
    let parent_id = ObjectId::new(3, 1);
    let id = ObjectId::new(10, 2);
    let mut page = Page::new(id);
    page.inherited.set_media_box(Some(PaperSize::Tabloid));
    page.inherited.set_rotation(Some(PageRotation::R90));
    let mut writer: Vec<u8> = Vec::new();
    let mut xref = CrossReferenceTable::new();
    let objects = Objects::new();
    assert!(page.render(&objects, parent_id, &mut writer, &mut xref).is_ok());
    let results = String::from_utf8(writer).unwrap();
    assert_eq!(results, "10 2 obj\n<< /MediaBox [0 0 792 1224] /Parent 3 1 R /Rotate 90 /Type /Page >>\nendobj\n");
}

#[test]
fn pages_test_from_object() {
    let id = ObjectId::new(1, 2);
    let pages = Pages::new(id);
    let object = Object::Pages(pages);
    let pages1 = match object {
        Object::Pages(p) => p,
        _ => panic!(),
    };
    assert_eq!(pages1.get_id(), id);
}

#[test]
fn pages_test_add_child() {
    let id = ObjectId::new(1, 2);
    let mut pages = Pages::new(id);

    // test adding pages
    let id1 = ObjectId::new(3, 4);
    let pages1 = Object::Pages(Pages::new(id1));
    pages.add_child(pages1).unwrap();
    assert_eq!(pages.kids().len(), 1);
    assert_eq!(pages.kids()[0], id1);

    // test adding page
    let id2 = ObjectId::new(7, 8);
    pages.add_child(Object::Page(Page::new(id2))).unwrap();
    assert_eq!(pages.kids().len(), 2);
    assert_eq!(pages.kids()[1], id2);

    // test adding invalid
    assert!(pages.add_child(Object::new(ObjectId::new(5, 6))).is_err());
}

#[test]
fn information_test_from_object() {
    let id = ObjectId::from((1, 2));
    let doc_info = DocInfo::new(id);
    let object = Object::DocInfo(doc_info.duplicate());
    let doc_info1 = DocInfo::try_from(object).unwrap();
    assert_eq!(doc_info.get_id(), doc_info1.get_id());
    assert_eq!(doc_info.creator(), doc_info1.creator());

    let object2 = Object::Document(easy_pdf::object::document::Document::new_with_id(123));
    let doc_info2 = DocInfo::try_from(object2);
    assert!(doc_info2.is_err());
}

#[test]
fn information_test_render() {
    // setup doc_info with fixed dates in a fixed zone
    let id = ObjectId::from((1, 2));
    let mut doc_info = DocInfo::new(id);
    doc_info.set_author(Some("some author".to_string()));
    doc_info.set_title(Some("some title".to_string()));
    doc_info.set_subject(Some("some subject".to_string()));
    doc_info.set_keywords(Some("some keywords".to_string()));
    doc_info.set_creation_date(Some(DateStamp::new(2025, 6, 19, 18, 38, 58, -7 * 60)));
    doc_info.set_modification_date(Some(DateStamp::new(2025, 7, 19, 18, 38, 58, -7 * 60)));

    // test render
    let mut writer = Vec::new();
    let mut xref = CrossReferenceTable::new();
    let objects = Objects::new();
    doc_info.render(&objects, id, &mut writer, &mut xref).unwrap();
    assert_eq!(
        String::from_utf8(writer).unwrap(),
        format!(
            "1 2 obj\n<< /Author (some author) /CreationDate (D:20250619183858-07'00) /Creator ({}) /Keywords (some keywords) /ModDate (D:20250719183858-07'00) /Producer ({}) /Subject (some subject) /Title (some title) >>\nendobj\n",
            easy_pdf::helpers::get_lib_name(),
            easy_pdf::helpers::get_lib_name(),
        )
    );
}

#[test]
fn test_get_doc_info() {
    let mut docs = Documents::new();

    // test no document
    let document_id = 123;
    let doc_info = DocInfo::get_doc_info(&docs, document_id);
    assert!(doc_info.is_none());

    // test with document: a fresh arena has no information object yet
    let document_id = documents::register_document(&mut docs);
    let doc_info = DocInfo::get_doc_info(&docs, document_id);
    assert!(doc_info.is_none());
    let arena = documents::get(&docs, document_id).unwrap();
    assert_eq!(arena.by_type(ObjectType::Document).len(), 1);
}

#[test]
fn test_update_doc_info() {
    let mut docs = Documents::new();
    let document_id = documents::register_document(&mut docs);
    let info_id = documents::get(&docs, document_id).unwrap().new_object_id();
    documents::upsert_object(&mut docs, document_id, Object::DocInfo(DocInfo::new(info_id)));

    // test title
    let title = Some("some title".to_string());
    let mut doc_info = DocInfo::get_doc_info(&docs, document_id).unwrap();
    doc_info.set_title(title.clone());
    DocInfo::update_doc_info(&mut docs, document_id, doc_info);
    assert_eq!(DocInfo::get_doc_info(&docs, document_id).unwrap().title(), title);

    // test author
    let author = Some("some author".to_string());
    let mut doc_info = DocInfo::get_doc_info(&docs, document_id).unwrap();
    doc_info.set_author(author.clone());
    DocInfo::update_doc_info(&mut docs, document_id, doc_info);
    assert_eq!(DocInfo::get_doc_info(&docs, document_id).unwrap().author(), author);

    // test subject
    let subject = Some("some subject".to_string());
    let mut doc_info = DocInfo::get_doc_info(&docs, document_id).unwrap();
    doc_info.set_subject(subject.clone());
    DocInfo::update_doc_info(&mut docs, document_id, doc_info);
    assert_eq!(DocInfo::get_doc_info(&docs, document_id).unwrap().subject(), subject);

    // test keywords
    let keywords = Some("some keywords".to_string());
    let mut doc_info = DocInfo::get_doc_info(&docs, document_id).unwrap();
    doc_info.set_keywords(keywords.clone());
    DocInfo::update_doc_info(&mut docs, document_id, doc_info);
    assert_eq!(DocInfo::get_doc_info(&docs, document_id).unwrap().keywords(), keywords);

    // test creator
    let creator = Some("some creator".to_string());
    let mut doc_info = DocInfo::get_doc_info(&docs, document_id).unwrap();
    doc_info.set_creator(creator.clone());
    DocInfo::update_doc_info(&mut docs, document_id, doc_info);
    assert_eq!(DocInfo::get_doc_info(&docs, document_id).unwrap().creator(), creator);

    // test producer
    let producer = Some("some producer".to_string());
    let mut doc_info = DocInfo::get_doc_info(&docs, document_id).unwrap();
    doc_info.set_producer(producer.clone());
    DocInfo::update_doc_info(&mut docs, document_id, doc_info);
    assert_eq!(DocInfo::get_doc_info(&docs, document_id).unwrap().producer(), producer);

    // test creation_date
    let creation_date = Some(DateStamp::new(2025, 1, 2, 3, 4, 5, 0));
    let mut doc_info = DocInfo::get_doc_info(&docs, document_id).unwrap();
    doc_info.set_creation_date(creation_date);
    DocInfo::update_doc_info(&mut docs, document_id, doc_info);
    assert_eq!(
        DocInfo::get_doc_info(&docs, document_id).unwrap().creation_date(),
        creation_date
    );

    // test modification_date
    let modification_date = Some(DateStamp::new(2026, 6, 7, 8, 9, 10, 60));
    let mut doc_info = DocInfo::get_doc_info(&docs, document_id).unwrap();
    doc_info.set_modification_date(modification_date);
    DocInfo::update_doc_info(&mut docs, document_id, doc_info);
    assert_eq!(
        DocInfo::get_doc_info(&docs, document_id).unwrap().modification_date(),
        modification_date
    );
}
