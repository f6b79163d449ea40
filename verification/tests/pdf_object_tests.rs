use easy_pdf::decimal::Decimal;
use easy_pdf::pdf_object::{Dict, PdfObject};

#[test]
fn test_null() {
    let mut bytes: Vec<u8> = Vec::new();
    assert_eq!(PdfObject::Null.render(&mut bytes), 4);
    assert_eq!(PdfObject::Null.to_string(), "null");
}

#[test]
fn test_bool() {
    let mut bytes: Vec<u8> = Vec::new();
    assert_eq!(PdfObject::Bool(true).render(&mut bytes), 4);
    assert_eq!(PdfObject::Bool(true).to_string(), "true");
    assert_eq!(PdfObject::from(true).to_string(), "true");
    assert_eq!(PdfObject::Bool(false).to_string(), "false");
    assert_eq!(PdfObject::from(false).to_string(), "false");
}

#[test]
fn test_number_integer() {
    let mut bytes: Vec<u8> = Vec::new();
    assert_eq!(PdfObject::Number(Decimal::from(123)).render(&mut bytes), 3);
    assert_eq!(PdfObject::Number(Decimal::from(123)).to_string(), "123");
    assert_eq!(PdfObject::from_usize(43445).to_string(), "43445");
    assert_eq!(PdfObject::from_int(-98).to_string(), "-98");
    assert_eq!(PdfObject::Number(Decimal::from(0)).to_string(), "0");
}

#[test]
fn test_number_float() {
    let mut bytes: Vec<u8> = Vec::new();
    assert_eq!(PdfObject::Number(Decimal::new(345, 1)).render(&mut bytes), 4);
    assert_eq!(PdfObject::Number(Decimal::new(345, 1)).to_string(), "34.5");
    assert_eq!(PdfObject::Number(Decimal::new(-362, 2)).to_string(), "-3.62");
    assert_eq!(PdfObject::Number(Decimal::new(-2, 3)).to_string(), "-0.002");
    assert_eq!(PdfObject::Number(Decimal::new(-123456, 3)).to_string(), "-123.456");
}

#[test]
fn test_string() {
    let mut bytes: Vec<u8> = Vec::new();
    let input = "This is a string".to_string();
    let output = "(This is a string)";
    assert_eq!(PdfObject::String(input.clone()).render(&mut bytes), output.len());
    assert_eq!(PdfObject::String(input).to_string(), output);
    assert_eq!(
        PdfObject::from_str_lit("Strings may contain newlines\nand such").to_string(),
        "(Strings may contain newlines\nand such)"
    );
    assert_eq!(
        PdfObject::from_str_lit(
            r#"Strings may contain balanced parentheses ( ) and special characters (*!&}^% and so on)."#
        ).to_string(),
        r#"(Strings may contain balanced parentheses \( \) and special characters \(*!&}^% and so on\).)"#
    );
    assert_eq!(PdfObject::from_str_lit("").to_string(), "()");
}

#[test]
fn test_hex_string() {
    let mut bytes: Vec<u8> = Vec::new();
    let input = "4E6F762073686D6F7A206B6120706F702E".to_string();
    let output = "<4E6F762073686D6F7A206B6120706F702E>";
    assert_eq!(PdfObject::HexString(input.clone()).render(&mut bytes), output.len());
    assert_eq!(PdfObject::HexString(input).to_string(), output);
}

#[test]
fn test_name() {
    let mut bytes: Vec<u8> = Vec::new();
    assert_eq!(PdfObject::Name("Name1".to_string()).render(&mut bytes), 6);
    assert_eq!(PdfObject::Name("Name1".to_string()).to_string(), "/Name1");
    assert_eq!(
        PdfObject::Name("ASomewhatLongerName".to_string()).to_string(),
        "/ASomewhatLongerName"
    );
    assert_eq!(
        PdfObject::Name(r#"A;Name_With-Various***Characters?"#.to_string()).to_string(),
        r#"/A;Name_With-Various***Characters?"#
    );
    assert_eq!(PdfObject::Name("1.2".to_string()).to_string(), "/1.2");
    assert_eq!(PdfObject::Name("$$".to_string()).to_string(), "/$$");
    assert_eq!(PdfObject::Name("@pattern".to_string()).to_string(), "/@pattern");
    assert_eq!(PdfObject::Name(".notdef".to_string()).to_string(), "/.notdef");
    assert_eq!(PdfObject::Name("Lime Green".to_string()).to_string(), "/Lime#20Green");
    assert_eq!(
        PdfObject::Name("paired()parentheses".to_string()).to_string(),
        "/paired#28#29parentheses"
    );
    assert_eq!(
        PdfObject::Name("The_Key_of_F#_Minor".to_string()).to_string(),
        "/The_Key_of_F#_Minor"
    );
}

#[test]
fn test_array() {
    let mut bytes: Vec<u8> = Vec::new();

    // test empty
    assert_eq!(PdfObject::Array(Vec::new()).render(&mut bytes), 2);
    assert_eq!(PdfObject::Array(Vec::new()).to_string(), "[]");

    // test full
    let mut inner_dict = Dict::new();
    inner_dict.insert("a".to_string(), PdfObject::from_usize(1));
    inner_dict.insert("b".to_string(), PdfObject::from_usize(2));
    inner_dict.insert("c".to_string(), PdfObject::from_usize(3));
    let arr = PdfObject::Array(vec![
        PdfObject::from(true),
        PdfObject::from_usize(123),
        PdfObject::from_str_lit("This is a string"),
        PdfObject::HexString("4E6F".to_string()),
        PdfObject::Array(vec![
            PdfObject::from_usize(1),
            PdfObject::from_usize(2),
            PdfObject::from_usize(3),
        ]),
        PdfObject::Dictionary(inner_dict),
        PdfObject::Null,
    ]);
    let output = b"[true 123 (This is a string) <4E6F> [1 2 3] << /a 1 /b 2 /c 3 >> null]";
    let mut bytes: Vec<u8> = Vec::new();
    assert_eq!(arr.render(&mut bytes), output.len());
    assert_eq!(arr.to_string(), String::from_utf8(output.to_vec()).unwrap());
}

#[test]
fn test_dictionary() {
    let mut bytes: Vec<u8> = Vec::new();

    // test empty
    assert_eq!(PdfObject::Dictionary(Dict::new()).render(&mut bytes), 6);
    assert_eq!(PdfObject::Dictionary(Dict::new()).to_string(), "<<  >>");

    // test full, inserting keys in a deliberately scrambled order: the
    // rendering must come out ascending by key regardless
    let mut inner = Dict::new();
    inner.insert("c".to_string(), PdfObject::from_usize(3));
    inner.insert("a".to_string(), PdfObject::from_usize(1));
    inner.insert("b".to_string(), PdfObject::from_usize(2));
    let mut dict = Dict::new();
    dict.insert("Null".to_string(), PdfObject::Null);
    dict.insert("Bool".to_string(), PdfObject::from(true));
    dict.insert("String".to_string(), PdfObject::from_str_lit("This is a string"));
    dict.insert("Number".to_string(), PdfObject::from_usize(123));
    dict.insert("Dictionary".to_string(), PdfObject::Dictionary(inner));
    dict.insert(
        "Array".to_string(),
        PdfObject::Array(vec![
            PdfObject::from_usize(1),
            PdfObject::from_usize(2),
            PdfObject::from_usize(3),
        ]),
    );
    dict.insert("HexString".to_string(), PdfObject::HexString("4E6F".to_string()));
    let output = b"<< /Array [1 2 3] /Bool true /Dictionary << /a 1 /b 2 /c 3 >> /HexString <4E6F> /Null null /Number 123 /String (This is a string) >>";
    assert_eq!(
        PdfObject::Dictionary(dict).to_string(),
        String::from_utf8(output.to_vec()).unwrap()
    );
}

#[test]
fn test_dictionary_order_independent() {
    // the same entries inserted in two different orders render identically
    let mut d1 = Dict::new();
    d1.insert("Zebra".to_string(), PdfObject::from_usize(1));
    d1.insert("Apple".to_string(), PdfObject::from_usize(2));
    let mut d2 = Dict::new();
    d2.insert("Apple".to_string(), PdfObject::from_usize(2));
    d2.insert("Zebra".to_string(), PdfObject::from_usize(1));
    assert_eq!(
        PdfObject::Dictionary(d1).to_string(),
        PdfObject::Dictionary(d2).to_string()
    );
}

#[test]
fn test_dictionary_replace() {
    // inserting an existing key replaces its value in place
    let mut d = Dict::new();
    assert!(d.insert("K".to_string(), PdfObject::from_usize(1)).is_none());
    let old = d.insert("K".to_string(), PdfObject::from_usize(2));
    assert!(old.is_some());
    assert_eq!(PdfObject::Dictionary(d).to_string(), "<< /K 2 >>");
}
