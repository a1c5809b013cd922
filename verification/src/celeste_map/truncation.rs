//! The truncation law: cutting a valid encoded document at any byte
//! boundary before its end makes the decode fail with an end-of-input
//! failure — never yield a document.  Each reader gets two facts: on a
//! prefix cut inside what it consumed it fails by running out of input,
//! and on a cut at or past that point it succeeds with the same value.

use crate::celeste_map::attribute;
use crate::celeste_map::attribute::SpecAttributeValue;
use crate::celeste_map::codec;
use crate::celeste_map::element;
use crate::celeste_map::element::SpecElement;
use crate::celeste_map::header;
use crate::celeste_map::lookup;
use crate::celeste_map::prim;
use crate::celeste_map::prim::SevenBitError;
use crate::celeste_map::prim::StrError;
use crate::celeste_map::string;
use crate::celeste_map::types;
use vstd::prelude::*;

verus! {

/// Whether a byte-string failure is a premature end of input.
pub open spec fn io_str_error(e: StrError) -> bool {
    e == StrError::Io || e == StrError::Length(SevenBitError::Io)
}

/// Whether a string failure is a premature end of input.
pub open spec fn io_string_error(e: string::ReadError) -> bool {
    match e {
        string::ReadError::Content(inner) => io_str_error(inner),
        string::ReadError::Utf8 => false,
    }
}

/// Whether a header failure is a premature end of input.
pub open spec fn io_header_error(e: header::HeaderError) -> bool {
    e == header::HeaderError::Io
}

/// Whether a lookup-table build failure is a premature end of input.
pub open spec fn io_lookup_error(e: lookup::ReadError) -> bool {
    match e {
        lookup::ReadError::Length => true,
        lookup::ReadError::String(inner) => io_string_error(inner),
    }
}

/// Whether a table-reference failure is a premature end of input.
pub open spec fn io_resolve_error(e: lookup::ReadIndexGetError) -> bool {
    e == lookup::ReadIndexGetError::ReadIndex
}

/// Whether a type-tag failure is a premature end of input.
pub open spec fn io_type_error(e: types::ReadError) -> bool {
    e == types::ReadError::Read
}

/// Whether a payload failure is a premature end of input.
pub open spec fn io_inner_error(e: attribute::ReadErrorInner) -> bool {
    match e {
        attribute::ReadErrorInner::Io => true,
        attribute::ReadErrorInner::Length => true,
        attribute::ReadErrorInner::Lookup(inner) => io_resolve_error(inner),
        attribute::ReadErrorInner::String(inner) => io_string_error(inner),
        attribute::ReadErrorInner::Rle => false,
    }
}

/// Whether an attribute failure is a premature end of input.
pub open spec fn io_attribute_error(e: attribute::ReadError) -> bool {
    match e {
        attribute::ReadError::Type(inner) => io_type_error(inner),
        attribute::ReadError::Name(inner) => io_resolve_error(inner),
        attribute::ReadError::Content { attr_type: _, source } => io_inner_error(source),
    }
}

/// Whether an element failure is a premature end of input.
pub open spec fn io_element_error(e: element::ReadError) -> bool {
    match e {
        element::ReadError::Length => true,
        element::ReadError::Lookup(inner) => io_resolve_error(inner),
        element::ReadError::Attribute(inner) => io_attribute_error(inner),
    }
}

/// Whether a whole-document failure is a premature end of input.
pub open spec fn io_map_error(e: codec::CelesteMapReadError) -> bool {
    match e {
        codec::CelesteMapReadError::Header(inner) => io_header_error(inner),
        codec::CelesteMapReadError::PackageName(inner) => io_string_error(inner),
        codec::CelesteMapReadError::Lookup(inner) => io_lookup_error(inner),
        codec::CelesteMapReadError::Element(inner) => io_element_error(inner),
    }
}

/// Taking then skipping commutes with skipping then taking.
proof fn lemma_take_skip(s: Seq<u8>, j: int, k: int)
    requires
        0 <= k <= j <= s.len(),
    ensures
        s.take(j).skip(k) == s.skip(k).take(j - k),
{
    assert(s.take(j).skip(k) =~= s.skip(k).take(j - k));
}

/// Truncation of a one-byte read.
proof fn lemma_trunc_u8(s: Seq<u8>, j: int, v: u8, rest: Seq<u8>)
    requires
        prim::sp_read_u8(s) == Some((v, rest)),
        0 <= j <= s.len(),
    ensures
        j < 1 ==> prim::sp_read_u8(s.take(j)) is None,
        j >= 1 ==> (prim::sp_read_u8(s.take(j)) matches Some(q) && q.0 == v && q.1 == rest.take(
            j - 1,
        )),
{
    if j >= 1 {
        lemma_take_skip(s, j, 1);
    }
}

/// Truncation of a two-byte read, unsigned.
proof fn lemma_trunc_u16(s: Seq<u8>, j: int, v: u16, rest: Seq<u8>)
    requires
        prim::sp_read_u16(s) == Some((v, rest)),
        0 <= j <= s.len(),
    ensures
        j < 2 ==> prim::sp_read_u16(s.take(j)) is None,
        j >= 2 ==> (prim::sp_read_u16(s.take(j)) matches Some(q) && q.0 == v && q.1 == rest.take(
            j - 2,
        )),
{
    if j >= 2 {
        lemma_take_skip(s, j, 2);
    }
}

/// Truncation of a two-byte read, signed.
proof fn lemma_trunc_i16(s: Seq<u8>, j: int, v: i16, rest: Seq<u8>)
    requires
        prim::sp_read_i16(s) == Some((v, rest)),
        0 <= j <= s.len(),
    ensures
        j < 2 ==> prim::sp_read_i16(s.take(j)) is None,
        j >= 2 ==> (prim::sp_read_i16(s.take(j)) matches Some(q) && q.0 == v && q.1 == rest.take(
            j - 2,
        )),
{
    if j >= 2 {
        lemma_take_skip(s, j, 2);
    }
}

/// Truncation of a four-byte read, signed.
proof fn lemma_trunc_i32(s: Seq<u8>, j: int, v: i32, rest: Seq<u8>)
    requires
        prim::sp_read_i32(s) == Some((v, rest)),
        0 <= j <= s.len(),
    ensures
        j < 4 ==> prim::sp_read_i32(s.take(j)) is None,
        j >= 4 ==> (prim::sp_read_i32(s.take(j)) matches Some(q) && q.0 == v && q.1 == rest.take(
            j - 4,
        )),
{
    if j >= 4 {
        lemma_take_skip(s, j, 4);
    }
}

/// Truncation of a four-byte read, unsigned.
proof fn lemma_trunc_u32(s: Seq<u8>, j: int, v: u32, rest: Seq<u8>)
    requires
        prim::sp_read_u32(s) == Some((v, rest)),
        0 <= j <= s.len(),
    ensures
        j < 4 ==> prim::sp_read_u32(s.take(j)) is None,
        j >= 4 ==> (prim::sp_read_u32(s.take(j)) matches Some(q) && q.0 == v && q.1 == rest.take(
            j - 4,
        )),
{
    if j >= 4 {
        lemma_take_skip(s, j, 4);
    }
}

/// Truncation of a 7-bit encoded length read: a cut inside the length
/// runs out of input, a cut past it leaves the value unchanged.
proof fn lemma_trunc_7bc_at(s: Seq<u8>, acc: u32, offset: u32, j: int, v: u32, rest: Seq<u8>)
    requires
        prim::sp_read_7bc_at(s, acc, offset) == Ok::<_, SevenBitError>((v, rest)),
        0 <= j <= s.len(),
    ensures
        j < s.len() - rest.len() ==> prim::sp_read_7bc_at(s.take(j), acc, offset) == Err::<
            (u32, Seq<u8>),
            _,
        >(SevenBitError::Io),
        j >= s.len() - rest.len() ==> (prim::sp_read_7bc_at(s.take(j), acc, offset) matches Ok(q)
            && q.0 == v && q.1 == rest.take(j - (s.len() - rest.len()))),
    decreases s.len(),
{
    prim::lemma_7bc_monotone(s, acc, offset);
    let b = s[0];
    let acc2 = acc | (((b & 0x7f) as u32) << offset);
    if b & 0x80 == 0 {
        if j >= 1 {
            lemma_take_skip(s, j, 1);
        }
    } else {
        if j == 0 {
        } else {
            lemma_take_skip(s, j, 1);
            lemma_trunc_7bc_at(s.skip(1), acc2, (offset + 7) as u32, j - 1, v, rest);
        }
    }
}

/// Truncation of a length-prefixed byte-string read.
proof fn lemma_trunc_str_bytes(s: Seq<u8>, j: int, content: Seq<u8>, rest: Seq<u8>)
    requires
        prim::sp_read_str_bytes(s) == Ok::<_, StrError>((content, rest)),
        0 <= j <= s.len(),
    ensures
        j < s.len() - rest.len() ==> (prim::sp_read_str_bytes(s.take(j)) matches Err(e)
            && io_str_error(e)),
        j >= s.len() - rest.len() ==> (prim::sp_read_str_bytes(s.take(j)) matches Ok(q) && q.0
            == content && q.1 == rest.take(j - (s.len() - rest.len()))),
        rest.len() < s.len(),
{
    let len7 = prim::sp_read_7bc(s)->Ok_0.0;
    let rest7 = prim::sp_read_7bc(s)->Ok_0.1;
    let c1 = s.len() - rest7.len();
    prim::lemma_7bc_monotone(s, 0, 0);
    lemma_trunc_7bc_at(s, 0, 0, j, len7, rest7);
    if j < c1 {
    } else {
        let t7 = rest7.take(j - c1);
        if j - c1 < len7 {
        } else {
            assert(t7.take(len7 as int) =~= rest7.take(len7 as int));
            assert(t7.skip(len7 as int) =~= rest7.skip(len7 as int).take(j - c1 - len7));
            assert(rest =~= rest7.skip(len7 as int));
        }
    }
}

/// Truncation of a string read: the same bytes pass or fail the UTF-8
/// gate the same way.
proof fn lemma_trunc_string(s: Seq<u8>, j: int, content: Seq<u8>, rest: Seq<u8>)
    requires
        string::sp_read_string(s) == Ok::<_, string::ReadError>((content, rest)),
        0 <= j <= s.len(),
    ensures
        j < s.len() - rest.len() ==> (string::sp_read_string(s.take(j)) matches Err(e)
            && io_string_error(e)),
        j >= s.len() - rest.len() ==> (string::sp_read_string(s.take(j)) matches Ok(q) && q.0
            == content && q.1 == rest.take(j - (s.len() - rest.len()))),
        rest.len() < s.len(),
{
    lemma_trunc_str_bytes(s, j, content, rest);
}

/// Truncation of the header read: the same content matches or mismatches
/// the literal the same way.
proof fn lemma_trunc_header(s: Seq<u8>, j: int, rest: Seq<u8>)
    requires
        header::sp_read_header(s) == Ok::<_, header::HeaderError>(rest),
        0 <= j <= s.len(),
    ensures
        j < s.len() - rest.len() ==> header::sp_read_header(s.take(j)) == Err::<Seq<u8>, _>(
            header::HeaderError::Io,
        ),
        j >= s.len() - rest.len() ==> header::sp_read_header(s.take(j)) == Ok::<_,
            header::HeaderError,
        >(rest.take(j - (s.len() - rest.len()))),
{
    let content = prim::sp_read_str_bytes(s)->Ok_0.0;
    lemma_trunc_str_bytes(s, j, content, rest);
}

/// Truncation of a table-reference resolution.
proof fn lemma_trunc_resolve(
    table: Seq<Seq<u8>>,
    s: Seq<u8>,
    j: int,
    name: Seq<u8>,
    rest: Seq<u8>,
)
    requires
        lookup::sp_resolve(table, s) == Ok::<_, lookup::ReadIndexGetError>((name, rest)),
        0 <= j <= s.len(),
    ensures
        j < s.len() - rest.len() ==> lookup::sp_resolve(table, s.take(j)) == Err::<
            (Seq<u8>, Seq<u8>),
            _,
        >(lookup::ReadIndexGetError::ReadIndex),
        j >= s.len() - rest.len() ==> (lookup::sp_resolve(table, s.take(j)) matches Ok(q) && q.0
            == name && q.1 == rest.take(j - (s.len() - rest.len()))),
{
    let v = prim::sp_read_i16(s)->Some_0.0;
    lemma_trunc_i16(s, j, v, rest);
}

/// Truncation of a type-tag read.
proof fn lemma_trunc_type(s: Seq<u8>, j: int, t: types::AttributeType, rest: Seq<u8>)
    requires
        types::sp_read_type(s) == Ok::<_, types::ReadError>((t, rest)),
        0 <= j <= s.len(),
    ensures
        j < s.len() - rest.len() ==> types::sp_read_type(s.take(j)) == Err::<
            (types::AttributeType, Seq<u8>),
            _,
        >(types::ReadError::Read),
        j >= s.len() - rest.len() ==> (types::sp_read_type(s.take(j)) matches Ok(q) && q.0 == t
            && q.1 == rest.take(j - (s.len() - rest.len()))),
{
    let v = prim::sp_read_u8(s)->Some_0.0;
    lemma_trunc_u8(s, j, v, rest);
}

/// Truncation of a typed payload read.
proof fn lemma_trunc_value(
    t: types::AttributeType,
    table: Seq<Seq<u8>>,
    s: Seq<u8>,
    j: int,
    v: SpecAttributeValue,
    rest: Seq<u8>,
)
    requires
        attribute::sp_read_value(t, table, s) == Ok::<_, attribute::ReadError>((v, rest)),
        0 <= j <= s.len(),
    ensures
        j < s.len() - rest.len() ==> (attribute::sp_read_value(t, table, s.take(j)) matches Err(e)
            && io_attribute_error(e)),
        j >= s.len() - rest.len() ==> (attribute::sp_read_value(t, table, s.take(j)) matches Ok(q)
            && q.0 == v && q.1 == rest.take(j - (s.len() - rest.len()))),
        rest.len() < s.len(),
{
    match t {
        types::AttributeType::Boolean => {
            let b = prim::sp_read_u8(s)->Some_0.0;
            lemma_trunc_u8(s, j, b, rest);
        },
        types::AttributeType::Byte => {
            let b = prim::sp_read_u8(s)->Some_0.0;
            lemma_trunc_u8(s, j, b, rest);
        },
        types::AttributeType::Int16 => {
            let b = prim::sp_read_i16(s)->Some_0.0;
            lemma_trunc_i16(s, j, b, rest);
        },
        types::AttributeType::Int32 => {
            let b = prim::sp_read_i32(s)->Some_0.0;
            lemma_trunc_i32(s, j, b, rest);
        },
        types::AttributeType::Single => {
            let b = prim::sp_read_u32(s)->Some_0.0;
            lemma_trunc_u32(s, j, b, rest);
        },
        types::AttributeType::Lookup => {
            let name = lookup::sp_resolve(table, s)->Ok_0.0;
            lemma_trunc_resolve(table, s, j, name, rest);
        },
        types::AttributeType::Str => {
            let content = string::sp_read_string(s)->Ok_0.0;
            lemma_trunc_string(s, j, content, rest);
        },
        types::AttributeType::Rle => {
            let len = prim::sp_read_i16(s)->Some_0.0;
            let rest1 = prim::sp_read_i16(s)->Some_0.1;
            lemma_trunc_i16(s, j, len, rest1);
            if j >= 2 {
                let t1 = rest1.take(j - 2);
                if j - 2 < len {
                } else {
                    assert(t1.take(len as int) =~= rest1.take(len as int));
                    assert(t1.skip(len as int) =~= rest1.skip(len as int).take(j - 2 - len));
                    assert(rest =~= rest1.skip(len as int));
                }
            }
        },
    }
}

/// Truncation of a tagged value read.
proof fn lemma_trunc_attr_value(
    table: Seq<Seq<u8>>,
    s: Seq<u8>,
    j: int,
    v: SpecAttributeValue,
    rest: Seq<u8>,
)
    requires
        attribute::sp_read_attr_value(table, s) == Ok::<_, attribute::ReadError>((v, rest)),
        0 <= j <= s.len(),
    ensures
        j < s.len() - rest.len() ==> (attribute::sp_read_attr_value(table, s.take(j)) matches Err(
            e,
        ) && io_attribute_error(e)),
        j >= s.len() - rest.len() ==> (attribute::sp_read_attr_value(table, s.take(j)) matches Ok(
            q,
        ) && q.0 == v && q.1 == rest.take(j - (s.len() - rest.len()))),
        rest.len() < s.len(),
{
    let t = types::sp_read_type(s)->Ok_0.0;
    let rest1 = types::sp_read_type(s)->Ok_0.1;
    lemma_trunc_type(s, j, t, rest1);
    lemma_trunc_value(t, table, rest1, 0, v, rest);
    if j >= 1 {
        lemma_trunc_value(t, table, rest1, j - 1, v, rest);
    }
}

/// Truncation of a whole attribute read.
proof fn lemma_trunc_attribute(
    table: Seq<Seq<u8>>,
    s: Seq<u8>,
    j: int,
    pair: (Seq<u8>, SpecAttributeValue),
    rest: Seq<u8>,
)
    requires
        attribute::sp_read_attribute(table, s) == Ok::<_, attribute::ReadError>((pair, rest)),
        0 <= j <= s.len(),
    ensures
        j < s.len() - rest.len() ==> (attribute::sp_read_attribute(table, s.take(j)) matches Err(e)
            && io_attribute_error(e)),
        j >= s.len() - rest.len() ==> (attribute::sp_read_attribute(table, s.take(j)) matches Ok(q)
            && q.0 == pair && q.1 == rest.take(j - (s.len() - rest.len()))),
        rest.len() < s.len(),
{
    let name = lookup::sp_resolve(table, s)->Ok_0.0;
    let rest1 = lookup::sp_resolve(table, s)->Ok_0.1;
    lemma_trunc_resolve(table, s, j, name, rest1);
    lemma_trunc_attr_value(table, rest1, 0, pair.1, rest);
    if j >= 2 {
        lemma_trunc_attr_value(table, rest1, j - 2, pair.1, rest);
    }
}

/// Truncation of an attribute-list read.
proof fn lemma_trunc_attr_list(
    table: Seq<Seq<u8>>,
    s: Seq<u8>,
    n: nat,
    j: int,
    pairs: Seq<(Seq<u8>, SpecAttributeValue)>,
    rest: Seq<u8>,
)
    requires
        element::sp_read_attr_list(table, s, n) == Ok::<_, attribute::ReadError>((pairs, rest)),
        0 <= j <= s.len(),
    ensures
        j < s.len() - rest.len() ==> (element::sp_read_attr_list(table, s.take(j), n) matches Err(
            e,
        ) && io_attribute_error(e)),
        j >= s.len() - rest.len() ==> (element::sp_read_attr_list(table, s.take(j), n) matches Ok(
            q,
        ) && q.0 == pairs && q.1 == rest.take(j - (s.len() - rest.len()))),
        rest.len() <= s.len(),
    decreases n,
{
    if n == 0 {
        assert(s.take(j) =~= rest.take(j));
    } else {
        let pair = attribute::sp_read_attribute(table, s)->Ok_0.0;
        let r0 = attribute::sp_read_attribute(table, s)->Ok_0.1;
        lemma_trunc_attribute(table, s, j, pair, r0);
        let c1 = s.len() - r0.len();
        let more = element::sp_read_attr_list(table, r0, (n - 1) as nat)->Ok_0.0;
        let r1 = element::sp_read_attr_list(table, r0, (n - 1) as nat)->Ok_0.1;
        lemma_trunc_attr_list(table, r0, (n - 1) as nat, 0, more, r1);
        if j >= c1 {
            lemma_trunc_attr_list(table, r0, (n - 1) as nat, j - c1, more, r1);
        }
    }
}

/// Truncation of the lookup-table string list.
proof fn lemma_trunc_lookup_items(
    s: Seq<u8>,
    n: nat,
    j: int,
    items: Seq<Seq<u8>>,
    rest: Seq<u8>,
)
    requires
        lookup::sp_read_lookup_items(s, n) == Ok::<_, lookup::ReadError>((items, rest)),
        0 <= j <= s.len(),
    ensures
        j < s.len() - rest.len() ==> (lookup::sp_read_lookup_items(s.take(j), n) matches Err(e)
            && io_lookup_error(e)),
        j >= s.len() - rest.len() ==> (lookup::sp_read_lookup_items(s.take(j), n) matches Ok(q)
            && q.0 == items && q.1 == rest.take(j - (s.len() - rest.len()))),
        rest.len() <= s.len(),
    decreases n,
{
    if n == 0 {
        assert(s.take(j) =~= rest.take(j));
    } else {
        let content = string::sp_read_string(s)->Ok_0.0;
        let r0 = string::sp_read_string(s)->Ok_0.1;
        lemma_trunc_string(s, j, content, r0);
        let c1 = s.len() - r0.len();
        let more = lookup::sp_read_lookup_items(r0, (n - 1) as nat)->Ok_0.0;
        let r1 = lookup::sp_read_lookup_items(r0, (n - 1) as nat)->Ok_0.1;
        lemma_trunc_lookup_items(r0, (n - 1) as nat, 0, more, r1);
        if j >= c1 {
            lemma_trunc_lookup_items(r0, (n - 1) as nat, j - c1, more, r1);
        }
    }
}

/// Truncation of the whole lookup-table read.
proof fn lemma_trunc_lookup(s: Seq<u8>, j: int, table: Seq<Seq<u8>>, rest: Seq<u8>)
    requires
        lookup::sp_read_lookup(s) == Ok::<_, lookup::ReadError>((table, rest)),
        0 <= j <= s.len(),
    ensures
        j < s.len() - rest.len() ==> (lookup::sp_read_lookup(s.take(j)) matches Err(e)
            && io_lookup_error(e)),
        j >= s.len() - rest.len() ==> (lookup::sp_read_lookup(s.take(j)) matches Ok(q) && q.0
            == table && q.1 == rest.take(j - (s.len() - rest.len()))),
        rest.len() <= s.len(),
{
    let count = prim::sp_read_i16(s)->Some_0.0;
    let r0 = prim::sp_read_i16(s)->Some_0.1;
    lemma_trunc_i16(s, j, count, r0);
    let n: nat = if count >= 0 {
        count as nat
    } else {
        0
    };
    lemma_trunc_lookup_items(r0, n, 0, table, rest);
    if j >= 2 {
        lemma_trunc_lookup_items(r0, n, j - 2, table, rest);
    }
}

/// Truncation of one element read: a cut inside what it consumed runs
/// out of input somewhere, a cut past it leaves the element unchanged.
proof fn lemma_trunc_element(table: Seq<Seq<u8>>, s: Seq<u8>, j: int, em: SpecElement, rest: Seq<u8>)
    requires
        element::sp_read_element(table, s) == Ok::<_, element::ReadError>((em, rest)),
        0 <= j <= s.len(),
    ensures
        j < s.len() - rest.len() ==> (element::sp_read_element(table, s.take(j)) matches Err(e)
            && io_element_error(e)),
        j >= s.len() - rest.len() ==> (element::sp_read_element(table, s.take(j)) matches Ok(q)
            && q.0 == em && q.1 == rest.take(j - (s.len() - rest.len()))),
        rest.len() < s.len(),
    decreases s.len(), 0nat,
{
    let name = lookup::sp_resolve(table, s)->Ok_0.0;
    let s1 = lookup::sp_resolve(table, s)->Ok_0.1;
    let ac = prim::sp_read_u8(s1)->Some_0.0;
    let s2 = prim::sp_read_u8(s1)->Some_0.1;
    let pairs = element::sp_read_attr_list(table, s2, ac as nat)->Ok_0.0;
    let s3 = element::sp_read_attr_list(table, s2, ac as nat)->Ok_0.1;
    let cc = prim::sp_read_u16(s3)->Some_0.0;
    let s4 = prim::sp_read_u16(s3)->Some_0.1;
    let ch = element::sp_read_children(table, s4, cc as nat)->Ok_0.0;
    let s5 = element::sp_read_children(table, s4, cc as nat)->Ok_0.1;
    lemma_trunc_resolve(table, s, j, name, s1);
    if j >= 2 {
        lemma_trunc_u8(s1, j - 2, ac, s2);
    }
    let c_attr = s2.len() - s3.len();
    lemma_trunc_attr_list(table, s2, ac as nat, 0, pairs, s3);
    if j >= 3 {
        lemma_trunc_attr_list(table, s2, ac as nat, j - 3, pairs, s3);
    }
    if j >= 3 + c_attr {
        lemma_trunc_u16(s3, j - 3 - c_attr, cc, s4);
    }
    lemma_trunc_children(table, s4, cc as nat, 0, ch, s5);
    if j >= 5 + c_attr {
        lemma_trunc_children(table, s4, cc as nat, j - 5 - c_attr, ch, s5);
    }
}

/// Truncation of a child-list read.
proof fn lemma_trunc_children(
    table: Seq<Seq<u8>>,
    s: Seq<u8>,
    n: nat,
    j: int,
    items: Seq<SpecElement>,
    rest: Seq<u8>,
)
    requires
        element::sp_read_children(table, s, n) == Ok::<_, element::ReadError>((items, rest)),
        0 <= j <= s.len(),
    ensures
        j < s.len() - rest.len() ==> (element::sp_read_children(table, s.take(j), n) matches Err(
            e,
        ) && io_element_error(e)),
        j >= s.len() - rest.len() ==> (element::sp_read_children(table, s.take(j), n) matches Ok(
            q,
        ) && q.0 == items && q.1 == rest.take(j - (s.len() - rest.len()))),
        rest.len() <= s.len(),
    decreases s.len(), n,
{
    if n == 0 {
        assert(s.take(j) =~= rest.take(j));
    } else {
        let e0 = element::sp_read_element(table, s)->Ok_0.0;
        let r0 = element::sp_read_element(table, s)->Ok_0.1;
        lemma_trunc_element(table, s, j, e0, r0);
        let c1 = s.len() - r0.len();
        let more = element::sp_read_children(table, r0, (n - 1) as nat)->Ok_0.0;
        let r1 = element::sp_read_children(table, r0, (n - 1) as nat)->Ok_0.1;
        lemma_trunc_children(table, r0, (n - 1) as nat, 0, more, r1);
        if j >= c1 {
            lemma_trunc_children(table, r0, (n - 1) as nat, j - c1, more, r1);
        }
    }
}

/// The truncation law: a valid encoded document, cut at any byte boundary
/// before its end, makes the decode fail with a premature-end-of-input
/// failure — it never yields a document.
pub proof fn lemma_truncated_decode_fails(s: Seq<u8>, j: int)
    requires
        codec::sp_decode_rest(s) is Ok,
        0 <= j < s.len() - codec::sp_decode_rest(s)->Ok_0.1.len(),
    ensures
        codec::sp_decode(s.take(j)) matches Err(e) && io_map_error(e),
{
    let s1 = header::sp_read_header(s)->Ok_0;
    let pkg = string::sp_read_string(s1)->Ok_0.0;
    let s2 = string::sp_read_string(s1)->Ok_0.1;
    let table = lookup::sp_read_lookup(s2)->Ok_0.0;
    let s3 = lookup::sp_read_lookup(s2)->Ok_0.1;
    let em = element::sp_read_element(table, s3)->Ok_0.0;
    let s4 = element::sp_read_element(table, s3)->Ok_0.1;
    lemma_trunc_header(s, j, s1);
    let c1 = s.len() - s1.len();
    lemma_trunc_string(s1, 0, pkg, s2);
    if j >= c1 {
        lemma_trunc_string(s1, j - c1, pkg, s2);
    }
    let c2 = s1.len() - s2.len();
    lemma_trunc_lookup(s2, 0, table, s3);
    if j >= c1 + c2 {
        lemma_trunc_lookup(s2, j - c1 - c2, table, s3);
    }
    let c3 = s2.len() - s3.len();
    lemma_trunc_element(table, s3, 0, em, s4);
    if j >= c1 + c2 + c3 {
        lemma_trunc_element(table, s3, j - c1 - c2 - c3, em, s4);
    }
}

} // verus!
