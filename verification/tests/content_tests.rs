use easy_pdf::content::contents::{get_content, insert_content, new_content_id, Contents};
use easy_pdf::content::frame::Frame;
use easy_pdf::content::{Content, Layout};
use easy_pdf::geometry::point::Point;
use easy_pdf::geometry::rect::Rect;

#[test]
fn test_set_bounds() {
    let mut content = Frame::new(0, Rect::from((10, 20, 300, 4000)));
    assert_eq!(content.bounds(), Rect::from((0, 0, 300, 4000)));
    content.set_bounds(Rect::from((100, 200, 400, 5000)));
    assert_eq!(content.bounds(), Rect::from((0, 0, 400, 5000)));
    assert_eq!(content.frame(), Rect::from((-40, -480, 400, 5000)));
}

#[test]
fn test_set_center() {
    let mut content = Frame::new(0, Rect::from((10, 20, 300, 4000)));
    assert_eq!(content.center(), Point::from((160, 2020)));
    content.set_center(Point::from((100, 200)));
    assert_eq!(content.frame(), Rect::from((-50, -1800, 300, 4000)));
}

#[test]
fn test_new_content_id() {
    let contents = Contents::new();
    assert_ne!(new_content_id(&contents), new_content_id(&contents));
}

#[test]
fn test_insert_and_get_content() {
    let mut store = Contents::new();
    let content_id = 123;
    let frame = Frame::new(content_id, Rect::from((0, 0, 0, 0)));
    let content = Content::Frame(frame);
    assert!(insert_content(&mut store, content).is_none());
    let content1 = get_content(&store, content_id).unwrap();
    assert_eq!(content, content1);
}
