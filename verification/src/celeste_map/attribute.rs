//! The attribute decoder: a name resolved through the lookup table, then a
//! one-byte type tag, then a type-specific payload.  Unknown tags and all
//! payload failures are wrapped with the attribute's type for diagnostics;
//! decoding never substitutes a default value.

use crate::celeste_map::lookup;
use crate::celeste_map::lookup::Lookup;
use crate::celeste_map::lookup::ReadIndexGetError;
use crate::celeste_map::prim;
use crate::celeste_map::string;
use crate::celeste_map::string::SimpleString;
use crate::celeste_map::types;
use crate::celeste_map::types::AttributeType;
use crate::rle::Rle;
use vstd::prelude::*;
use vstd::slice::slice_subrange;
use vstd::slice::slice_to_vec;

verus! {

/// The cause of a failed payload read, by kind: a raw content read that
/// ended early, a failed fixed-width read, a failed lookup resolution, a
/// failed string read, or a run-length payload of odd length.
#[derive(Debug, Clone, Copy, PartialEq, Eq, Structural)]
pub enum ReadErrorInner {
    Io,
    Length,
    Lookup(ReadIndexGetError),
    String(string::ReadError),
    Rle,
}

/// Failure of an attribute read: the type tag, the name resolution, or the
/// payload (wrapped with the attribute's type).
#[derive(Debug, Clone, Copy, PartialEq, Eq, Structural)]
pub enum ReadError {
    Type(types::ReadError),
    Name(ReadIndexGetError),
    Content { attr_type: AttributeType, source: ReadErrorInner },
}

/// A decoded attribute value: one of the eight payload types.  A `Single`
/// payload is kept as the four little-endian wire bytes read as an
/// unsigned 32-bit value, that is, as the bit pattern of the IEEE-754
/// single; a `Lookup` payload aliases a lookup-table entry, while a
/// `String` payload owns an independently decoded string.
#[derive(Debug, Clone)]
pub enum AttributeValue {
    Boolean(bool),
    Byte(u8),
    Short(i16),
    Integer(i32),
    Float(u32),
    Lookup(SimpleString),
    String(SimpleString),
    RunLengthEncoded(Rle),
}

/// The mathematical model of an attribute value: the same eight variants
/// over plain sequences.
pub enum SpecAttributeValue {
    Boolean(bool),
    Byte(u8),
    Short(i16),
    Integer(i32),
    Float(u32),
    Lookup(Seq<u8>),
    String(Seq<u8>),
    RunLengthEncoded(Seq<u8>),
}

impl View for AttributeValue {
    type V = SpecAttributeValue;

    open spec fn view(&self) -> SpecAttributeValue {
        match self {
            AttributeValue::Boolean(b) => SpecAttributeValue::Boolean(*b),
            AttributeValue::Byte(b) => SpecAttributeValue::Byte(*b),
            AttributeValue::Short(v) => SpecAttributeValue::Short(*v),
            AttributeValue::Integer(v) => SpecAttributeValue::Integer(*v),
            AttributeValue::Float(v) => SpecAttributeValue::Float(*v),
            AttributeValue::Lookup(s) => SpecAttributeValue::Lookup(s@),
            AttributeValue::String(s) => SpecAttributeValue::String(s@),
            AttributeValue::RunLengthEncoded(r) => SpecAttributeValue::RunLengthEncoded(r@),
        }
    }
}

/// Wraps a payload failure with the attribute's type.
pub open spec fn sp_content_err(t: AttributeType, e: ReadErrorInner) -> ReadError {
    ReadError::Content { attr_type: t, source: e }
}

/// The payload read for a given attribute type, from the front of the
/// input.  Fixed-width payloads that end early fail as `Length`; a
/// run-length payload whose announced byte count cannot be read in full
/// fails as `Io` (a negative count can never be filled), and one of odd
/// length fails as `Rle`.
pub open spec fn sp_read_value(t: AttributeType, table: Seq<Seq<u8>>, s: Seq<u8>) -> Result<
    (SpecAttributeValue, Seq<u8>),
    ReadError,
> {
    match t {
        AttributeType::Boolean => match prim::sp_read_u8(s) {
            None => Err(sp_content_err(t, ReadErrorInner::Length)),
            Some((b, rest)) => Ok((SpecAttributeValue::Boolean(b != 0), rest)),
        },
        AttributeType::Byte => match prim::sp_read_u8(s) {
            None => Err(sp_content_err(t, ReadErrorInner::Length)),
            Some((b, rest)) => Ok((SpecAttributeValue::Byte(b), rest)),
        },
        AttributeType::Int16 => match prim::sp_read_i16(s) {
            None => Err(sp_content_err(t, ReadErrorInner::Length)),
            Some((v, rest)) => Ok((SpecAttributeValue::Short(v), rest)),
        },
        AttributeType::Int32 => match prim::sp_read_i32(s) {
            None => Err(sp_content_err(t, ReadErrorInner::Length)),
            Some((v, rest)) => Ok((SpecAttributeValue::Integer(v), rest)),
        },
        AttributeType::Single => match prim::sp_read_u32(s) {
            None => Err(sp_content_err(t, ReadErrorInner::Length)),
            Some((v, rest)) => Ok((SpecAttributeValue::Float(v), rest)),
        },
        AttributeType::Lookup => match lookup::sp_resolve(table, s) {
            Err(e) => Err(sp_content_err(t, ReadErrorInner::Lookup(e))),
            Ok((name, rest)) => Ok((SpecAttributeValue::Lookup(name), rest)),
        },
        AttributeType::Str => match string::sp_read_string(s) {
            Err(e) => Err(sp_content_err(t, ReadErrorInner::String(e))),
            Ok((content, rest)) => Ok((SpecAttributeValue::String(content), rest)),
        },
        AttributeType::Rle => match prim::sp_read_i16(s) {
            None => Err(sp_content_err(t, ReadErrorInner::Length)),
            Some((len, rest)) => if len < 0 || rest.len() < len {
                Err(sp_content_err(t, ReadErrorInner::Io))
            } else if len % 2 != 0 {
                Err(sp_content_err(t, ReadErrorInner::Rle))
            } else {
                Ok((SpecAttributeValue::RunLengthEncoded(rest.take(len as int)), rest.skip(
                    len as int,
                )))
            },
        },
    }
}

/// A tagged attribute value read from the front of the input: the type
/// tag, then its payload.
pub open spec fn sp_read_attr_value(table: Seq<Seq<u8>>, s: Seq<u8>) -> Result<
    (SpecAttributeValue, Seq<u8>),
    ReadError,
> {
    match types::sp_read_type(s) {
        Err(e) => Err(ReadError::Type(e)),
        Ok((t, rest)) => sp_read_value(t, table, rest),
    }
}

/// One whole attribute read from the front of the input: the name (a
/// lookup-table reference), then the tagged value.
pub open spec fn sp_read_attribute(table: Seq<Seq<u8>>, s: Seq<u8>) -> Result<
    ((Seq<u8>, SpecAttributeValue), Seq<u8>),
    ReadError,
> {
    match lookup::sp_resolve(table, s) {
        Err(e) => Err(ReadError::Name(e)),
        Ok((name, rest)) => match sp_read_attr_value(table, rest) {
            Err(e) => Err(e),
            Ok((v, rest2)) => Ok(((name, v), rest2)),
        },
    }
}

impl AttributeType {
    /// Reads the payload for this attribute type.
    pub fn read_value<'a>(self, input: &'a [u8], table: &Lookup) -> (r: Result<
        (AttributeValue, &'a [u8]),
        ReadError,
    >)
        ensures
            match r {
                Ok((v, rest)) => sp_read_value(self, table@, input@) matches Ok(p) && v@ == p.0
                    && rest@ == p.1 && rest@.len() < input@.len(),
                Err(e) => sp_read_value(self, table@, input@) matches Err(e2) && e == e2,
            },
    {
        match self {
            AttributeType::Boolean => match prim::read_u8(input) {
                None => Err(ReadError::Content {
                    attr_type: self,
                    source: ReadErrorInner::Length,
                }),
                Some((b, rest)) => Ok((AttributeValue::Boolean(b != 0), rest)),
            },
            AttributeType::Byte => match prim::read_u8(input) {
                None => Err(ReadError::Content {
                    attr_type: self,
                    source: ReadErrorInner::Length,
                }),
                Some((b, rest)) => Ok((AttributeValue::Byte(b), rest)),
            },
            AttributeType::Int16 => match prim::read_i16(input) {
                None => Err(ReadError::Content {
                    attr_type: self,
                    source: ReadErrorInner::Length,
                }),
                Some((v, rest)) => Ok((AttributeValue::Short(v), rest)),
            },
            AttributeType::Int32 => match prim::read_i32(input) {
                None => Err(ReadError::Content {
                    attr_type: self,
                    source: ReadErrorInner::Length,
                }),
                Some((v, rest)) => Ok((AttributeValue::Integer(v), rest)),
            },
            AttributeType::Single => match prim::read_u32(input) {
                None => Err(ReadError::Content {
                    attr_type: self,
                    source: ReadErrorInner::Length,
                }),
                Some((v, rest)) => Ok((AttributeValue::Float(v), rest)),
            },
            AttributeType::Lookup => match table.read_index_get(input) {
                Err(e) => Err(ReadError::Content {
                    attr_type: self,
                    source: ReadErrorInner::Lookup(e),
                }),
                Ok((entry, rest)) => Ok((AttributeValue::Lookup(entry.clone()), rest)),
            },
            AttributeType::Str => match string::read_dotnet_str(input) {
                Err(e) => Err(ReadError::Content {
                    attr_type: self,
                    source: ReadErrorInner::String(e),
                }),
                Ok((s, rest)) => Ok((AttributeValue::String(s), rest)),
            },
            AttributeType::Rle => match prim::read_i16(input) {
                None => Err(ReadError::Content {
                    attr_type: self,
                    source: ReadErrorInner::Length,
                }),
                Some((len, rest)) => {
                    if len < 0 || rest.len() < len as usize {
                        return Err(ReadError::Content {
                            attr_type: self,
                            source: ReadErrorInner::Io,
                        });
                    }
                    if len % 2 != 0 {
                        return Err(ReadError::Content {
                            attr_type: self,
                            source: ReadErrorInner::Rle,
                        });
                    }
                    let n: usize = len as usize;
                    let content = slice_to_vec(slice_subrange(rest, 0, n));
                    match Rle::new(content) {
                        Some(rle) => Ok((
                            AttributeValue::RunLengthEncoded(rle),
                            slice_subrange(rest, n, rest.len()),
                        )),
                        None => {
                            proof {
                                assert(false);
                            }
                            Err(ReadError::Content {
                                attr_type: self,
                                source: ReadErrorInner::Rle,
                            })
                        },
                    }
                },
            },
        }
    }
}

impl AttributeValue {
    /// Reads one tagged value: the type tag, then its payload.
    pub fn read<'a>(input: &'a [u8], table: &Lookup) -> (r: Result<
        (AttributeValue, &'a [u8]),
        ReadError,
    >)
        ensures
            match r {
                Ok((v, rest)) => sp_read_attr_value(table@, input@) matches Ok(p) && v@ == p.0
                    && rest@ == p.1 && rest@.len() < input@.len(),
                Err(e) => sp_read_attr_value(table@, input@) matches Err(e2) && e == e2,
            },
    {
        match AttributeType::read(input) {
            Err(e) => Err(ReadError::Type(e)),
            Ok((t, rest)) => t.read_value(rest, table),
        }
    }
}

/// A decoded attribute: a name (a lookup-table entry) and its value.
#[derive(Debug, Clone)]
pub struct Attribute {
    pub name: SimpleString,
    pub value: AttributeValue,
}

impl View for Attribute {
    type V = (Seq<u8>, SpecAttributeValue);

    open spec fn view(&self) -> (Seq<u8>, SpecAttributeValue) {
        (self.name@, self.value@)
    }
}

impl Attribute {
    /// Reads one whole attribute: the name reference, then the tagged
    /// value.
    pub fn read<'a>(input: &'a [u8], table: &Lookup) -> (r: Result<
        (Attribute, &'a [u8]),
        ReadError,
    >)
        ensures
            match r {
                Ok((a, rest)) => sp_read_attribute(table@, input@) matches Ok(p) && a@ == p.0
                    && rest@ == p.1 && rest@.len() < input@.len(),
                Err(e) => sp_read_attribute(table@, input@) matches Err(e2) && e == e2,
            },
    {
        match table.read_index_get(input) {
            Err(e) => Err(ReadError::Name(e)),
            Ok((entry, rest)) => {
                let name = entry.clone();
                match AttributeValue::read(rest, table) {
                    Err(e) => Err(e),
                    Ok((value, rest2)) => Ok((Attribute { name, value }, rest2)),
                }
            },
        }
    }
}

} // verus!
