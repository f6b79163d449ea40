use easy_pdf::object::catalog::Catalog;
use easy_pdf::object::document::Document;
use easy_pdf::object::documents::{self, Documents};
use easy_pdf::object::object_id::ObjectId;
use easy_pdf::object::objects::Objects;
use easy_pdf::object::page::Page;
use easy_pdf::object::pages::Pages;
use easy_pdf::object::{IndirectObject, Object, ObjectType};

#[test]
fn test_object() {
    let object_id = ObjectId::new(1, 2);
    let new_object_id = ObjectId::new(3, 4);

    // test default object (document)
    let object = Object::new(object_id);
    assert_eq!(object.get_id(), ObjectId::new(0, 0));
    assert_eq!(object.get_type(), ObjectType::Document);

    // test catalog
    let catalog = Catalog::new(object_id);
    let object = Object::Catalog(catalog);
    assert_eq!(object.get_id(), object_id);
    assert_eq!(object.get_type(), ObjectType::Catalog);

    // test pages
    let pages = Pages::new(object_id);
    let mut object = Object::Pages(pages);
    assert_eq!(object.get_id(), object_id);
    assert_eq!(object.get_type(), ObjectType::Pages);
    object.set_id(new_object_id);
    assert_eq!(object.get_id(), new_object_id);

    // test page
    let page = Page::new(object_id);
    let mut object = Object::Page(page);
    assert_eq!(object.get_id(), object_id);
    assert_eq!(object.get_type(), ObjectType::Page);
    object.set_id(new_object_id);
    assert_eq!(object.get_id(), new_object_id);
}

#[test]
fn objects_test_objects() {
    let mut objects = Objects::new();

    // test object id
    let new_id = objects.new_object_id();
    assert_eq!(new_id, ObjectId::new(1, 0));

    // test object (Document)
    let object = Object::new(new_id);
    objects.insert(object);
    assert_eq!(objects.len(), 1);
    assert!(objects.get(&ObjectId::from((0, 0))).is_some());
    assert_eq!(objects.get(&ObjectId::from((0, 0))).unwrap().get_type(), ObjectType::Document);

    // test catalog
    let new_id = objects.new_object_id();
    let catalog = Catalog::new(new_id);
    let object = Object::Catalog(catalog);
    objects.insert(object);
    assert_eq!(objects.len(), 2);
    assert_eq!(objects.get(&new_id).unwrap().get_id(), new_id);

    // test next id
    assert_eq!(objects.new_object_id(), ObjectId::new(2, 0));
    assert!(objects.get(&objects.new_object_id()).is_none());

    // test by type
    assert_eq!(objects.by_type(ObjectType::Document).len(), 1);
    assert_eq!(objects.by_type(ObjectType::Catalog).len(), 1);
}

#[test]
fn catalog_test_from_object() {
    let id = ObjectId::from((1, 2));
    let catalog = Catalog::new(id);
    let object = Object::Catalog(catalog);
    let catalog1 = Catalog::try_from(object).unwrap();
    assert_eq!(catalog, catalog1);

    let object2 = Object::Document(Document::new_with_id(123));
    let catalog2 = Catalog::try_from(object2);
    assert!(catalog2.is_err());
}

#[test]
fn test_get_catalog() {
    let mut docs = Documents::new();

    // test no document
    let document_id = 123;
    let catalog = Catalog::get_catalog(&docs, document_id);
    assert!(catalog.is_none());

    // test with document
    let document_id = documents::register_document(&mut docs);
    let catalog = Catalog::get_catalog(&docs, document_id);
    assert!(catalog.is_some());

    // test page tree
    let catalog = catalog.unwrap();
    assert!(catalog.pages().is_some());
    let pages_id = catalog.pages().unwrap();
    let pages = documents::get_object(&docs, document_id, &pages_id);
    assert_eq!(pages.unwrap().get_type(), ObjectType::Pages);
}

#[test]
fn test_update_catalog() {
    let mut docs = Documents::new();
    let document_id = documents::register_document(&mut docs);
    let mut catalog = Catalog::get_catalog(&docs, document_id).unwrap();
    let pages_id = documents::get(&docs, document_id).unwrap().new_object_id();
    catalog.set_pages(Some(pages_id));
    let _ = Catalog::update_catalog(&mut docs, document_id, catalog);
    let new_catalog = Catalog::get_catalog(&docs, document_id).unwrap();
    assert_eq!(new_catalog.pages(), Some(pages_id));
}

#[test]
fn document_test_from_object() {
    let id: u16 = 123;
    let document = Document::new_with_id(id);
    let object = Object::Document(document);
    let document1 = Document::try_from(object).unwrap();
    assert_eq!(document, document1);
    assert_eq!(document1.get_id(), ObjectId::new(0, 0));
    assert_eq!(document1.document_id(), id);
}

#[test]
fn test_new_document_id() {
    let documents = Documents::new();
    assert!(documents.new_document_id() > 0 || documents.new_document_id() == 0);
}

#[test]
fn test_register_document() {
    let mut documents = Documents::new();
    assert_eq!(documents.documents.len(), 0);
    documents.register_document();
    assert_eq!(documents.documents.len(), 1);
}

#[test]
fn test_get_document() {
    let mut docs = Documents::new();
    let doc_id = documents::register_document(&mut docs);
    let document = Document::try_from(documents::get_document(&docs, doc_id).unwrap()).unwrap();
    assert_eq!(document.document_id(), doc_id);
}

#[test]
fn documents_test_objects() {
    let mut documents = Documents::new();
    let doc_id = documents.register_document();
    let len_before = documents.get_arena(doc_id).unwrap().len();
    assert_eq!(len_before, 3);
    let new_id = documents.get_arena(doc_id).unwrap().new_object_id();
    let new_catalog = Catalog::new(new_id);
    let new_object = Object::Catalog(new_catalog);
    documents::upsert_object(&mut documents, doc_id, new_object);
    assert_eq!(documents.get_arena(doc_id).unwrap().len(), 4);
}

#[test]
fn test_mutate() {
    // start with a new document
    let mut docs = Documents::new();
    let doc_id = documents::register_document(&mut docs);

    // test objects (includes document and catalog)
    assert_eq!(documents::get(&docs, doc_id).unwrap().len(), 3);

    // insert a new object
    let res = documents::mutate(&mut docs, doc_id, |mut objects: Objects| {
        let new_id = objects.new_object_id();
        let new_catalog = Catalog::new(new_id);
        let new_object = Object::Catalog(new_catalog);
        let prev = objects.insert(new_object);
        (objects, prev)
    });
    assert!(res.is_none());

    // test objects
    assert_eq!(documents::get(&docs, doc_id).unwrap().len(), 4);
}

#[test]
fn test_object_type_strings() {
    assert_eq!(ObjectType::Catalog.to_string(), "Catalog");
    assert_eq!(ObjectType::Pages.to_string(), "Pages");
    assert_eq!(ObjectType::Page.to_string(), "Page");
    assert_eq!(ObjectType::DocInfo.to_string(), "Information");
    assert_eq!(ObjectType::from_str("Catalog"), Ok(ObjectType::Catalog));
    assert_eq!(ObjectType::from_str("DocInfo"), Ok(ObjectType::DocInfo));
    assert!(ObjectType::from_str("Nonsense").is_err());
}
