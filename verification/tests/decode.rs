use ferreline::celeste_map::attribute::AttributeValue;
use ferreline::celeste_map::element::AttributeMap;
use ferreline::celeste_map::string::SimpleString;
use ferreline::celeste_map::attribute::ReadError as AttrReadError;
use ferreline::celeste_map::attribute::ReadErrorInner;
use ferreline::celeste_map::codec::CelesteMap;
use ferreline::celeste_map::codec::CelesteMapReadError;
use ferreline::celeste_map::element::ReadError as ElementReadError;
use ferreline::celeste_map::header::HeaderError;
use ferreline::celeste_map::lookup::ReadIndexGetError;
use ferreline::celeste_map::prim::SevenBitError;
use ferreline::celeste_map::prim::StrError;
use ferreline::celeste_map::string::ReadError as StringReadError;
use ferreline::celeste_map::types::AttributeType;
use ferreline::celeste_map::types::ReadError as TypeReadError;

/// A length-prefixed string for contents shorter than 128 bytes.
fn lp(content: &[u8]) -> Vec<u8> {
    assert!(content.len() < 128);
    let mut v = vec![content.len() as u8];
    v.extend_from_slice(content);
    v
}

/// The smallest valid document: header, package name "Test", a one-entry
/// lookup table ["root"], and a root element with no attributes and no
/// children.
fn minimal_doc() -> Vec<u8> {
    let mut v = Vec::new();
    v.extend_from_slice(&lp(b"CELESTE MAP"));
    v.extend_from_slice(&lp(b"Test"));
    v.extend_from_slice(&[1, 0]); // lookup count (i16 LE)
    v.extend_from_slice(&lp(b"root"));
    v.extend_from_slice(&[0, 0]); // element name index
    v.push(0); // attribute count
    v.extend_from_slice(&[0, 0]); // child count
    v
}

/// Whether a decode failure reports a premature end of input.
fn is_io_error(e: &CelesteMapReadError) -> bool {
    match e {
        CelesteMapReadError::Header(inner) => matches!(inner, HeaderError::Io),
        CelesteMapReadError::PackageName(inner) => is_io_string_error(inner),
        CelesteMapReadError::Lookup(inner) => match inner {
            ferreline::celeste_map::lookup::ReadError::Length => true,
            ferreline::celeste_map::lookup::ReadError::String(s) => is_io_string_error(s),
        },
        CelesteMapReadError::Element(inner) => is_io_element_error(inner),
    }
}

fn is_io_string_error(e: &StringReadError) -> bool {
    match e {
        StringReadError::Content(StrError::Io) => true,
        StringReadError::Content(StrError::Length(SevenBitError::Io)) => true,
        _ => false,
    }
}

fn is_io_element_error(e: &ElementReadError) -> bool {
    match e {
        ElementReadError::Length => true,
        ElementReadError::Lookup(ReadIndexGetError::ReadIndex) => true,
        ElementReadError::Lookup(_) => false,
        ElementReadError::Attribute(a) => match a {
            AttrReadError::Type(TypeReadError::Read) => true,
            AttrReadError::Type(_) => false,
            AttrReadError::Name(ReadIndexGetError::ReadIndex) => true,
            AttrReadError::Name(_) => false,
            AttrReadError::Content { source, .. } => match source {
                ReadErrorInner::Io => true,
                ReadErrorInner::Length => true,
                ReadErrorInner::Lookup(ReadIndexGetError::ReadIndex) => true,
                ReadErrorInner::Lookup(_) => false,
                ReadErrorInner::String(s) => is_io_string_error(s),
                ReadErrorInner::Rle => false,
            },
        },
    }
}

#[test]
fn end_to_end_minimal_document() {
    let bytes = minimal_doc();
    let map = CelesteMap::read(&bytes).expect("minimal document must decode");
    assert_eq!("Test", map.package_name.as_str());
    assert_eq!("root", map.tree.name.as_str());
    assert!(map.tree.attributes.is_empty());
    assert!(map.tree.children.is_empty());
    assert_eq!(1, map.lookup.len());
    assert_eq!("root", map.lookup.get(0).unwrap().as_str());
}

#[test]
fn trailing_bytes_are_ignored() {
    let mut bytes = minimal_doc();
    bytes.extend_from_slice(&[0xDE, 0xAD, 0xBE, 0xEF]);
    let map = CelesteMap::read(&bytes).expect("trailing bytes do not matter");
    assert_eq!("Test", map.package_name.as_str());
}

#[test]
fn truncated_document_fails_with_io() {
    let bytes = minimal_doc();
    for j in 0..bytes.len() {
        let r = CelesteMap::read(&bytes[..j]);
        match r {
            Ok(_) => panic!("truncation at {} must not yield a document", j),
            Err(e) => assert!(is_io_error(&e), "truncation at {} gave {:?}", j, e),
        }
    }
}

#[test]
fn duplicate_attribute_last_wins() {
    let mut v = Vec::new();
    v.extend_from_slice(&lp(b"CELESTE MAP"));
    v.extend_from_slice(&lp(b"Test"));
    v.extend_from_slice(&[2, 0]); // lookup count
    v.extend_from_slice(&lp(b"root"));
    v.extend_from_slice(&lp(b"flag"));
    v.extend_from_slice(&[0, 0]); // element name index -> "root"
    v.push(2); // two attributes, both named "flag"
    v.extend_from_slice(&[1, 0, 0, 0]); // name idx 1, tag 0 (bool), false
    v.extend_from_slice(&[1, 0, 0, 1]); // name idx 1, tag 0 (bool), true
    v.extend_from_slice(&[0, 0]); // child count
    let map = CelesteMap::read(&v).expect("document must decode");
    match map.tree.attributes.get(b"flag") {
        Some(AttributeValue::Boolean(b)) => assert!(*b, "the later value must win"),
        other => panic!("expected a boolean flag, got {:?}", other),
    }
}

#[test]
fn header_length_may_use_continuation_bytes() {
    // The header is one length-prefixed string; eleven can also be
    // written in two 7-bit chunks.
    let mut v = vec![0x8B, 0x00];
    v.extend_from_slice(b"CELESTE MAP");
    v.extend_from_slice(&minimal_doc()[12..]);
    let map = CelesteMap::read(&v).expect("the longer length encoding is still the header");
    assert_eq!("Test", map.package_name.as_str());
}

#[test]
fn header_mismatch_is_reported() {
    let mut v = Vec::new();
    v.extend_from_slice(&lp(b"CELESTE MAX"));
    v.extend_from_slice(&lp(b"Test"));
    let r = CelesteMap::read(&v);
    assert_eq!(r.unwrap_err(), CelesteMapReadError::Header(HeaderError::NotMatch));
}

#[test]
fn empty_input_is_header_io() {
    let r = CelesteMap::read(&[]);
    assert_eq!(r.unwrap_err(), CelesteMapReadError::Header(HeaderError::Io));
}

#[test]
fn invalid_utf8_package_name_is_reported() {
    let mut v = Vec::new();
    v.extend_from_slice(&lp(b"CELESTE MAP"));
    v.extend_from_slice(&lp(&[0xFF]));
    let r = CelesteMap::read(&v);
    assert_eq!(
        r.unwrap_err(),
        CelesteMapReadError::PackageName(StringReadError::Utf8)
    );
}

#[test]
fn element_name_out_of_bounds_is_reported() {
    let mut v = Vec::new();
    v.extend_from_slice(&lp(b"CELESTE MAP"));
    v.extend_from_slice(&lp(b"Test"));
    v.extend_from_slice(&[1, 0]);
    v.extend_from_slice(&lp(b"root"));
    v.extend_from_slice(&[5, 0]); // index 5, table has one entry
    let r = CelesteMap::read(&v);
    assert_eq!(
        r.unwrap_err(),
        CelesteMapReadError::Element(ElementReadError::Lookup(ReadIndexGetError::OutOfBounds(
            5, 1
        )))
    );
}

#[test]
fn unknown_attribute_tag_is_reported() {
    let mut v = Vec::new();
    v.extend_from_slice(&lp(b"CELESTE MAP"));
    v.extend_from_slice(&lp(b"Test"));
    v.extend_from_slice(&[1, 0]);
    v.extend_from_slice(&lp(b"root"));
    v.extend_from_slice(&[0, 0]);
    v.push(1);
    v.extend_from_slice(&[0, 0, 9]); // attribute named "root", tag 9
    let r = CelesteMap::read(&v);
    assert_eq!(
        r.unwrap_err(),
        CelesteMapReadError::Element(ElementReadError::Attribute(AttrReadError::Type(
            TypeReadError::Invalid(9)
        )))
    );
}

#[test]
fn odd_rle_length_is_reported() {
    let mut v = Vec::new();
    v.extend_from_slice(&lp(b"CELESTE MAP"));
    v.extend_from_slice(&lp(b"Test"));
    v.extend_from_slice(&[1, 0]);
    v.extend_from_slice(&lp(b"root"));
    v.extend_from_slice(&[0, 0]);
    v.push(1);
    v.extend_from_slice(&[0, 0, 7]); // attribute named "root", tag 7 (RLE)
    v.extend_from_slice(&[3, 0]); // payload length 3 (odd)
    v.extend_from_slice(&[1, 2, 3]);
    let r = CelesteMap::read(&v);
    assert_eq!(
        r.unwrap_err(),
        CelesteMapReadError::Element(ElementReadError::Attribute(AttrReadError::Content {
            attr_type: AttributeType::Rle,
            source: ReadErrorInner::Rle,
        }))
    );
}

#[test]
fn all_attribute_types_decode() {
    let mut v = Vec::new();
    v.extend_from_slice(&lp(b"CELESTE MAP"));
    v.extend_from_slice(&lp(b"Test"));
    v.extend_from_slice(&[9, 0]); // lookup count 9
    for name in [
        b"root" as &[u8],
        b"b",
        b"y",
        b"s",
        b"i",
        b"f",
        b"l",
        b"t",
        b"r",
    ] {
        v.extend_from_slice(&lp(name));
    }
    v.extend_from_slice(&[0, 0]); // name "root"
    v.push(8); // eight attributes
    v.extend_from_slice(&[1, 0, 0, 1]); // "b": bool true
    v.extend_from_slice(&[2, 0, 1, 0xAB]); // "y": byte 0xAB
    v.extend_from_slice(&[3, 0, 2, 0xFE, 0xFF]); // "s": short -2
    v.extend_from_slice(&[4, 0, 3, 0x40, 0xE2, 0x01, 0x00]); // "i": integer 123456
    let bits = 1.5f32.to_bits().to_le_bytes();
    v.extend_from_slice(&[5, 0, 4]); // "f": float 1.5
    v.extend_from_slice(&bits);
    v.extend_from_slice(&[6, 0, 5, 7, 0]); // "l": lookup ref -> entry 7 ("t")
    v.extend_from_slice(&[7, 0, 6]); // "t": string "hi"
    v.extend_from_slice(&lp(b"hi"));
    v.extend_from_slice(&[8, 0, 7, 4, 0, 9, 48, 2, 49]); // "r": RLE, 4 bytes
    v.extend_from_slice(&[0, 0]); // child count
    let map = CelesteMap::read(&v).expect("document must decode");
    let a = &map.tree.attributes;
    assert!(matches!(a.get(b"b"), Some(AttributeValue::Boolean(true))));
    assert!(matches!(a.get(b"y"), Some(AttributeValue::Byte(0xAB))));
    assert!(matches!(a.get(b"s"), Some(AttributeValue::Short(-2))));
    assert!(matches!(a.get(b"i"), Some(AttributeValue::Integer(123456))));
    match a.get(b"f") {
        Some(AttributeValue::Float(bits)) => assert_eq!(f32::from_bits(*bits), 1.5f32),
        other => panic!("expected a float, got {:?}", other),
    }
    match a.get(b"l") {
        Some(AttributeValue::Lookup(s)) => assert_eq!("t", s.as_str()),
        other => panic!("expected a lookup ref, got {:?}", other),
    }
    match a.get(b"t") {
        Some(AttributeValue::String(s)) => assert_eq!("hi", s.as_str()),
        other => panic!("expected a string, got {:?}", other),
    }
    match a.get(b"r") {
        Some(AttributeValue::RunLengthEncoded(r)) => assert_eq!(&[9, 48, 2, 49], r.as_bytes()),
        other => panic!("expected an RLE payload, got {:?}", other),
    }
}

#[test]
fn children_preserve_wire_order() {
    let mut v = Vec::new();
    v.extend_from_slice(&lp(b"CELESTE MAP"));
    v.extend_from_slice(&lp(b"Test"));
    v.extend_from_slice(&[3, 0]);
    v.extend_from_slice(&lp(b"root"));
    v.extend_from_slice(&lp(b"first"));
    v.extend_from_slice(&lp(b"second"));
    v.extend_from_slice(&[0, 0]); // root
    v.push(0);
    v.extend_from_slice(&[2, 0]); // two children
    v.extend_from_slice(&[1, 0, 0, 0, 0]); // child "first", no attrs, no children
    v.extend_from_slice(&[2, 0, 0, 1, 0]); // child "second" with one grandchild
    v.extend_from_slice(&[1, 0, 0, 0, 0]); // grandchild "first"
    let map = CelesteMap::read(&v).expect("document must decode");
    assert_eq!(2, map.tree.children.len());
    assert_eq!("first", map.tree.children[0].name.as_str());
    assert_eq!("second", map.tree.children[1].name.as_str());
    assert_eq!(1, map.tree.children[1].children.len());
    assert_eq!("first", map.tree.children[1].children[0].name.as_str());
}

#[test]
fn attribute_map_insert_overwrites() {
    let mut m = AttributeMap::new();
    assert!(m.is_empty());
    let k1 = SimpleString::new(b"x".to_vec()).unwrap();
    m.insert(k1, AttributeValue::Byte(1));
    let k2 = SimpleString::new(b"x".to_vec()).unwrap();
    m.insert(k2, AttributeValue::Byte(2));
    assert!(!m.is_empty());
    assert!(matches!(m.get(b"x"), Some(AttributeValue::Byte(2))));
    assert!(m.get(b"y").is_none());
}
