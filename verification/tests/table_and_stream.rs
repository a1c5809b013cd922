use ferreline::celeste_map::lookup::Lookup;
use ferreline::celeste_map::lookup::ReadIndexGetError;
use ferreline::celeste_map::stream;
use ferreline::celeste_map::string::ReadError as StringReadError;
use ferreline::celeste_map::string::SimpleString;

/// A length-prefixed string for contents shorter than 128 bytes.
fn lp(content: &[u8]) -> Vec<u8> {
    assert!(content.len() < 128);
    let mut v = vec![content.len() as u8];
    v.extend_from_slice(content);
    v
}

fn two_entry_table() -> (Lookup, Vec<u8>) {
    let mut v = Vec::new();
    v.extend_from_slice(&[2, 0]);
    v.extend_from_slice(&lp(b"ab"));
    v.extend_from_slice(&lp(b"cd"));
    let (table, rest) = Lookup::read(&v).expect("table must decode");
    assert!(rest.is_empty());
    (table, v)
}

#[test]
fn lookup_builds_in_wire_order() {
    let (table, _) = two_entry_table();
    assert_eq!(2, table.len());
    assert_eq!("ab", table.get(0).unwrap().as_str());
    assert_eq!("cd", table.get(1).unwrap().as_str());
    assert!(table.get(2).is_none());
}

#[test]
fn lookup_negative_count_is_empty() {
    let v = [0xFF, 0xFF]; // count -1
    let (table, rest) = Lookup::read(&v).expect("a negative count reads no entries");
    assert_eq!(0, table.len());
    assert!(rest.is_empty());
}

#[test]
fn resolve_returns_entry_at_index() {
    let (table, _) = two_entry_table();
    let (entry, rest) = table.read_index_get(&[1, 0]).expect("index 1 is in range");
    assert_eq!("cd", entry.as_str());
    assert!(rest.is_empty());
}

#[test]
fn resolve_out_of_range_reports_index_and_len() {
    let (table, _) = two_entry_table();
    assert_eq!(
        table.read_index_get(&[5, 0]).unwrap_err(),
        ReadIndexGetError::OutOfBounds(5, 2)
    );
    assert_eq!(
        table.read_index_get(&[0xFF, 0xFF]).unwrap_err(),
        ReadIndexGetError::OutOfBounds(-1, 2)
    );
    assert_eq!(
        table.read_index_get(&[5]).unwrap_err(),
        ReadIndexGetError::ReadIndex
    );
}

#[test]
fn string_of_zero_length_is_empty() {
    let v = lp(b"");
    let (s, rest) = ferreline::celeste_map::string::read_dotnet_str(&v).expect("empty is fine");
    assert_eq!("", s.as_str());
    assert!(rest.is_empty());
}

#[test]
fn string_with_two_byte_length_prefix() {
    // 200 exceeds one 7-bit chunk: 0xC8 carries the low seven bits with
    // the continuation bit, 0x01 the eighth.
    let mut v = vec![0xC8, 0x01];
    v.extend(std::iter::repeat(b'a').take(200));
    let (s, rest) = ferreline::celeste_map::string::read_dotnet_str(&v).expect("length 200");
    assert_eq!(200, s.as_str().len());
    assert!(rest.is_empty());
}

#[test]
fn string_invalid_utf8_is_rejected() {
    let v = lp(&[0xC3]); // a lone UTF-8 leading byte
    let r = ferreline::celeste_map::string::read_dotnet_str(&v);
    assert_eq!(r.unwrap_err(), StringReadError::Utf8);
}

#[test]
fn simple_string_checks_utf8() {
    assert!(SimpleString::new(vec![0xFF]).is_err());
    let s = SimpleString::new("héllo".as_bytes().to_vec()).unwrap();
    assert_eq!("héllo", s.as_str());
    assert_eq!("héllo".as_bytes(), s.as_bytes());
    assert_eq!("héllo".as_bytes().to_vec(), s.clone().into_inner());
}

#[test]
fn staged_decode_walks_the_prefix() {
    let mut v = Vec::new();
    v.extend_from_slice(&lp(b"CELESTE MAP"));
    v.extend_from_slice(&lp(b"Test"));
    v.extend_from_slice(&[1, 0]);
    v.extend_from_slice(&lp(b"root"));
    let mut buf = Vec::new();
    let stage = stream::decode(&v)
        .validate(&mut buf)
        .expect("header reads")
        .expect("header matches");
    assert_eq!(b"CELESTE MAP", buf.as_slice());
    let mut name = Vec::new();
    let table = stage.read(&mut name).expect("package name reads");
    assert_eq!(b"Test", name.as_slice());
    let reader = table.start().expect("count reads");
    assert_eq!(1, reader.len());
    let (reader, item) = reader.next_or_tail().expect("one entry left");
    assert_eq!(b"root", item.expect("entry reads").as_slice());
    assert!(reader.next_or_tail().is_none());
}

#[test]
fn staged_decode_rejects_other_header() {
    let v = lp(b"SOMETHING ELSE");
    let mut buf = Vec::new();
    let r = stream::decode(&v).validate(&mut buf).expect("header string reads");
    assert!(r.is_none());
    assert_eq!(b"SOMETHING ELSE", buf.as_slice());
}

#[test]
fn staged_decode_negative_count_has_no_entries() {
    let v = [0xFE, 0xFF]; // count -2
    let mut buf = Vec::new();
    let mut input = Vec::new();
    input.extend_from_slice(&lp(b"CELESTE MAP"));
    input.extend_from_slice(&lp(b"x"));
    input.extend_from_slice(&v);
    let stage = stream::decode(&input)
        .validate(&mut buf)
        .expect("header reads")
        .expect("header matches");
    let mut name = Vec::new();
    let table = stage.read(&mut name).expect("package name reads");
    let reader = table.start().expect("count reads");
    assert_eq!(-2, reader.len());
    assert!(reader.next_or_tail().is_none());
}
