use easy_pdf::resources::{get_resource_data, get_resource_string};

#[test]
fn test_get_resource_data() {
    let data = get_resource_data(".keep");
    assert_eq!(data.unwrap(), br##"{"message": "nothing to see here"}"##.to_vec());
}

#[test]
fn test_get_resource_string() {
    let string = get_resource_string(".keep");
    assert_eq!(string.unwrap(), r##"{"message": "nothing to see here"}"##);
}

#[test]
fn test_get_resource_unknown() {
    assert!(get_resource_data("absent").is_none());
    assert!(get_resource_string("absent").is_none());
}
