use easy_pdf::add;
use easy_pdf::decimal::Decimal;
use easy_pdf::helpers::{get_lib_name, round, write_all_count};

#[test]
fn it_works() {
    let result = add(2, 2);
    assert_eq!(result, 4);
}

#[test]
fn test_get_lib_name() {
    // matches the shape `easy-pdf v<digit>.<digit>.<digit>`
    let name = get_lib_name();
    let bytes = name.as_bytes();
    let prefix = b"easy-pdf v";
    assert!(bytes.len() >= prefix.len() + 5);
    assert_eq!(&bytes[..prefix.len()], prefix);
    let rest = &bytes[prefix.len()..];
    assert!(rest[0].is_ascii_digit());
    assert_eq!(rest[1], b'.');
    assert!(rest[2].is_ascii_digit());
    assert_eq!(rest[3], b'.');
    assert!(rest[4].is_ascii_digit());
}

#[test]
fn test_write_all_count() {
    let mut buffer: Vec<u8> = Vec::new();
    assert_eq!(write_all_count(&mut buffer, b"hello world\n"), 12);
    assert_eq!(buffer, b"hello world\n".to_vec());
}

#[test]
fn test_round() {
    let diff = Decimal::from(400).sub(&Decimal::from(300));
    let halved = diff.div(&Decimal::from(2));
    let value = Decimal::from(10).sub(&halved);
    assert_eq!(round(value), Decimal::from(-40));
}
