//! The attribute type tags: one unsigned byte on the wire, drawn from a
//! closed set of eight values.

use crate::celeste_map::prim;
use vstd::prelude::*;

verus! {

/// The eight attribute payload types, in tag order starting at zero.
#[derive(Debug, Copy, Clone, PartialEq, Eq, Structural)]
pub enum AttributeType {
    Boolean,
    Byte,
    Int16,
    Int32,
    Single,
    Lookup,
    Str,
    Rle,
}

/// Failure of the tag read: no byte to read, or a byte outside the closed
/// tag set (the payload carries the offending tag).
#[derive(Debug, Clone, Copy, PartialEq, Eq, Structural)]
pub enum ReadError {
    Read,
    Invalid(u8),
}

/// The attribute type of a tag byte, for tags in the closed set `{0..7}`.
pub open spec fn sp_type_of_tag(t: u8) -> Option<AttributeType> {
    if t == 0 {
        Some(AttributeType::Boolean)
    } else if t == 1 {
        Some(AttributeType::Byte)
    } else if t == 2 {
        Some(AttributeType::Int16)
    } else if t == 3 {
        Some(AttributeType::Int32)
    } else if t == 4 {
        Some(AttributeType::Single)
    } else if t == 5 {
        Some(AttributeType::Lookup)
    } else if t == 6 {
        Some(AttributeType::Str)
    } else if t == 7 {
        Some(AttributeType::Rle)
    } else {
        None
    }
}

/// The tag read: one byte from the front of the input, which must name one
/// of the eight types; an unknown tag is reported with its value.
pub open spec fn sp_read_type(s: Seq<u8>) -> Result<(AttributeType, Seq<u8>), ReadError> {
    match prim::sp_read_u8(s) {
        None => Err(ReadError::Read),
        Some((t, rest)) => match sp_type_of_tag(t) {
            Some(ty) => Ok((ty, rest)),
            None => Err(ReadError::Invalid(t)),
        },
    }
}

impl AttributeType {
    /// Reads one attribute type tag.
    pub fn read<'a>(input: &'a [u8]) -> (r: Result<(Self, &'a [u8]), ReadError>)
        ensures
            match r {
                Ok((t, rest)) => sp_read_type(input@) matches Ok(p) && t == p.0 && rest@ == p.1,
                Err(e) => sp_read_type(input@) matches Err(e2) && e == e2,
            },
    {
        match prim::read_u8(input) {
            None => Err(ReadError::Read),
            Some((t, rest)) => {
                if t == 0 {
                    Ok((AttributeType::Boolean, rest))
                } else if t == 1 {
                    Ok((AttributeType::Byte, rest))
                } else if t == 2 {
                    Ok((AttributeType::Int16, rest))
                } else if t == 3 {
                    Ok((AttributeType::Int32, rest))
                } else if t == 4 {
                    Ok((AttributeType::Single, rest))
                } else if t == 5 {
                    Ok((AttributeType::Lookup, rest))
                } else if t == 6 {
                    Ok((AttributeType::Str, rest))
                } else if t == 7 {
                    Ok((AttributeType::Rle, rest))
                } else {
                    Err(ReadError::Invalid(t))
                }
            },
        }
    }
}

} // verus!
