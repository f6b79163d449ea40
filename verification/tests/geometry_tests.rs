use easy_pdf::geometry::point::Point;
use easy_pdf::geometry::rect::Rect;
use easy_pdf::geometry::unit::Unit;
use easy_pdf::pdf_object::PdfObject;

#[test]
fn test_rect() {
    let rect = Rect::from_units((Unit::from(1), Unit::from(20), Unit::from(300), Unit::from(4000)));
    assert_eq!(PdfObject::from_rect(&rect).to_string(), "[1 20 301 4020]");
}

#[test]
fn test_center() {
    let rect = Rect::from((1, 20, 300, 4000));
    assert_eq!(
        rect.center(),
        Point { x: Unit::from(151), y: Unit::from(2020) }
    );
}
