use easy_pdf::dates::DateStamp;
use easy_pdf::error::PdfError;
use easy_pdf::geometry::paper_size::PaperSize;
use easy_pdf::object::document::{render_document, Document};
use easy_pdf::object::documents::{self, Documents};
use easy_pdf::object::information::DocInfo;
use easy_pdf::object::objects::Objects;
use easy_pdf::object::page::Page;
use easy_pdf::object::page_attributes::PageRotation;
use easy_pdf::object::{IndirectObject, Object};

fn sample_document() -> (Documents, u16) {
    let mut docs = Documents::new();
    let doc_id = documents::register_document(&mut docs);

    // fix the information dates so the output is reproducible
    let info_id = documents::get(&docs, doc_id).unwrap().new_object_id();
    let mut info = DocInfo::new(info_id);
    info.set_creation_date(Some(DateStamp::new(2025, 6, 19, 18, 38, 58, -7 * 60)));
    info.set_modification_date(Some(DateStamp::new(2025, 7, 19, 18, 38, 58, -7 * 60)));
    documents::upsert_object(&mut docs, doc_id, Object::DocInfo(info));

    // add a page and link it into the tree
    let res = documents::mutate(&mut docs, doc_id, |mut objects: Objects| {
        let new_id = objects.new_object_id();
        let mut page = Page::new(new_id);
        page.inherited.set_media_box(Some(PaperSize::Tabloid));
        page.inherited.set_rotation(Some(PageRotation::R90));
        objects.insert(Object::Page(page));
        let mut page_tree = objects.page_tree().unwrap();
        assert!(page_tree.add_child(Object::Page(page)).is_ok());
        objects.insert(Object::Pages(page_tree));
        (objects, None::<Object>)
    });
    assert!(res.is_none());
    (docs, doc_id)
}

#[test]
fn test_render_document() {
    let (docs, doc_id) = sample_document();
    let mut out: Vec<u8> = Vec::new();
    assert!(render_document(&docs, doc_id, &mut out).is_ok());
    let text = String::from_utf8(out).unwrap();
    assert!(text.starts_with("%PDF-1.7\n"));
    assert!(text.ends_with("%%EOF\n"));
    // info, catalog, tree and one page, plus the free sentinel
    assert!(text.contains("xref\n0 5\n"));
    assert!(text.contains("/Type /Catalog"));
    assert!(text.contains("/Type /Pages"));
    assert!(text.contains("/Type /Page"));
    assert!(text.contains("/MediaBox [0 0 792 1224]"));
    assert!(text.contains("/Rotate 90"));
    assert!(text.contains("trailer\n<< /Info "));
    assert!(text.contains("/Root "));
    assert!(text.contains("/Size 5"));
    assert!(text.contains("\nstartxref\n"));
}

#[test]
fn test_render_twice_identical() {
    // rendering the same unmutated document twice is byte-identical
    let (docs, doc_id) = sample_document();
    let mut out1: Vec<u8> = Vec::new();
    let mut out2: Vec<u8> = Vec::new();
    assert!(render_document(&docs, doc_id, &mut out1).is_ok());
    assert!(render_document(&docs, doc_id, &mut out2).is_ok());
    assert_eq!(out1, out2);
}

#[test]
fn test_render_missing_info() {
    // a fresh arena with no information object must fail distinctly
    let objects = Objects::new();
    let doc = Document::new_with_id(7);
    let mut out: Vec<u8> = Vec::new();
    assert_eq!(doc.write(&objects, &mut out), Err(PdfError::MissingInfo));
}

#[test]
fn test_render_missing_catalog() {
    // an arena with information but no catalog fails at the catalog step
    let mut objects = Objects::new();
    let info_id = objects.new_object_id();
    objects.insert(Object::DocInfo(DocInfo::new(info_id)));
    let doc = Document::new_with_id(3);
    let mut out: Vec<u8> = Vec::new();
    assert_eq!(doc.write(&objects, &mut out), Err(PdfError::MissingCatalog));
}

#[test]
fn test_render_missing_page_tree() {
    // an arena with information and a catalog but no page tree fails last
    let mut objects = Objects::new();
    let info_id = objects.new_object_id();
    objects.insert(Object::DocInfo(DocInfo::new(info_id)));
    let cat_id = objects.new_object_id();
    objects.insert(Object::Catalog(easy_pdf::object::catalog::Catalog::new(cat_id)));
    let doc = Document::new_with_id(3);
    let mut out: Vec<u8> = Vec::new();
    assert_eq!(doc.write(&objects, &mut out), Err(PdfError::MissingPageTree));
}

#[test]
fn test_render_missing_document() {
    let docs = Documents::new();
    let mut out: Vec<u8> = Vec::new();
    assert_eq!(render_document(&docs, 9, &mut out), Err(PdfError::NotFound));
}

#[test]
fn test_register_document_arena() {
    // registering yields exactly a document, a page tree and a catalog
    let mut docs = Documents::new();
    let doc_id = documents::register_document(&mut docs);
    let arena = documents::get(&docs, doc_id).unwrap();
    assert_eq!(arena.len(), 3);
    let keys = arena.keys();
    assert_eq!(keys.len(), 3);
    let tree = arena.page_tree().unwrap();
    assert_eq!(tree.kids().len(), 0);

    // one page plus one link grows the arena by one object and the kid
    // list by one id
    let res = documents::mutate(&mut docs, doc_id, |mut objects: Objects| {
        let new_id = objects.new_object_id();
        let page = Page::new(new_id);
        objects.insert(Object::Page(page));
        let mut page_tree = objects.page_tree().unwrap();
        page_tree.add_child(Object::Page(page)).unwrap();
        objects.insert(Object::Pages(page_tree));
        (objects, None::<Object>)
    });
    assert!(res.is_none());
    let arena = documents::get(&docs, doc_id).unwrap();
    assert_eq!(arena.len(), 4);
    assert_eq!(arena.page_tree().unwrap().kids().len(), 1);
}
