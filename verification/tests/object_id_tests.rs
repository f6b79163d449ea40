use easy_pdf::object::object_id::ObjectId;

#[test]
fn test_object_id() {
    let id1 = ObjectId::new(1, 0);
    let id2 = ObjectId::new(2, 0);
    let id3 = ObjectId::new(1, 1);
    let id1_clone = ObjectId::new(1, 0);

    // test equality
    assert_eq!(id1, id1_clone);
    assert_ne!(id1, id2);
    assert_ne!(id1, id3);

    // test ordering
    assert!(id1 < id2);
    assert!(id1 < id3);
    assert!(id2 > id1);
    assert!(id3 > id1);
    assert!(id2 > id3);
}

#[test]
fn test_into_tuple() {
    // test into tuple
    let id = ObjectId::new(42, 7);
    let tuple: (u32, u16) = id.into_tuple();
    assert_eq!(tuple, (42, 7));

    // another test into tuple
    let id1 = ObjectId::new(100, 5);
    let tuple1 = id1.into_tuple();
    assert_eq!(tuple1, (100, 5));
}

#[test]
fn test_from_tuple() {
    // test from tuple
    let tuple = (42, 7);
    let id: ObjectId = ObjectId::from(tuple);
    assert_eq!(id, ObjectId::new(42, 7));
}

#[test]
fn test_next() {
    let id = ObjectId::new(1, 2);
    let next_id = id.next();
    assert_eq!(next_id, ObjectId::new(2, 0));
}

#[test]
fn test_to_string() {
    assert_eq!(ObjectId::new(1, 2).to_string(), "1 2 obj");
}

#[test]
fn test_to_string_ref() {
    assert_eq!(ObjectId::new(1, 2).to_string_ref(), "1 2 R")
}

#[test]
fn test_to_stream_ref() {
    assert_eq!(ObjectId::new(7, 3).to_stream_ref(), "7 0 R")
}
