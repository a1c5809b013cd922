//! The primitive byte reader: fixed-width little-endian integers and
//! .NET-style length-prefixed byte strings, where the length uses a
//! 7-bits-per-byte variable-length encoding (continuation bit in the high
//! bit, least significant chunk first).
//!
//! The reads themselves are performed by `dotnet_io_binary`; each wrapper
//! states over the spec functions below exactly what that crate's reader
//! does on a byte slice.  Every reader takes the not-yet-consumed input and
//! returns the decoded value together with the remaining input.

use dotnet_io_binary::io::prim::ReadPrim;
use dotnet_io_binary::io::string::ReadDotnetStr;
use vstd::prelude::*;

verus! {

/// Failure of a 7-bit encoded length read: the input ended first, or the
/// encoded value does not fit in 32 bits.
#[derive(Debug, Clone, Copy, PartialEq, Eq, Structural)]
pub enum SevenBitError {
    Io,
    DecodeOverflow,
}

/// Failure of a length-prefixed byte-string read: the length itself could
/// not be read, or the input ended before the announced content.
#[derive(Debug, Clone, Copy, PartialEq, Eq, Structural)]
pub enum StrError {
    Length(SevenBitError),
    Io,
}

/// The unsigned 16-bit value of two little-endian bytes.
pub open spec fn le16(b0: u8, b1: u8) -> u16 {
    (b0 + b1 * 0x100) as u16
}

/// The unsigned 32-bit value of four little-endian bytes.
pub open spec fn le32(b0: u8, b1: u8, b2: u8, b3: u8) -> u32 {
    (b0 + b1 * 0x100 + b2 * 0x10000 + b3 * 0x1000000) as u32
}

/// One byte read from the front of the input.
pub open spec fn sp_read_u8(s: Seq<u8>) -> Option<(u8, Seq<u8>)> {
    if s.len() >= 1 {
        Some((s[0], s.skip(1)))
    } else {
        None
    }
}

/// A little-endian unsigned 16-bit integer read from the front of the input.
pub open spec fn sp_read_u16(s: Seq<u8>) -> Option<(u16, Seq<u8>)> {
    if s.len() >= 2 {
        Some((le16(s[0], s[1]), s.skip(2)))
    } else {
        None
    }
}

/// A little-endian signed 16-bit integer read from the front of the input.
pub open spec fn sp_read_i16(s: Seq<u8>) -> Option<(i16, Seq<u8>)> {
    if s.len() >= 2 {
        Some((le16(s[0], s[1]) as i16, s.skip(2)))
    } else {
        None
    }
}

/// A little-endian signed 32-bit integer read from the front of the input.
pub open spec fn sp_read_i32(s: Seq<u8>) -> Option<(i32, Seq<u8>)> {
    if s.len() >= 4 {
        Some((le32(s[0], s[1], s[2], s[3]) as i32, s.skip(4)))
    } else {
        None
    }
}

/// A little-endian unsigned 32-bit integer read from the front of the input.
pub open spec fn sp_read_u32(s: Seq<u8>) -> Option<(u32, Seq<u8>)> {
    if s.len() >= 4 {
        Some((le32(s[0], s[1], s[2], s[3]), s.skip(4)))
    } else {
        None
    }
}

/// One step of the 7-bit decoder: `acc` holds the bits gathered so far and
/// `offset` the position the next 7 bits go to.  Mirrors the builder of
/// `dotnet_io_binary::_7bit_code` for a 32-bit target: a byte's low 7 bits
/// are or-ed in at `offset` (truncated to 32 bits), a clear high bit ends
/// the value, and a value that would need bits at or beyond position 32
/// overflows.
pub open spec fn sp_read_7bc_at(s: Seq<u8>, acc: u32, offset: u32) -> Result<
    (u32, Seq<u8>),
    SevenBitError,
>
    decreases s.len(),
{
    if s.len() == 0 {
        Err(SevenBitError::Io)
    } else if offset >= 32 {
        Err(SevenBitError::DecodeOverflow)
    } else {
        let acc2 = acc | (((s[0] & 0x7f) as u32) << offset);
        if s[0] & 0x80 == 0 {
            Ok((acc2, s.skip(1)))
        } else if offset + 7 >= 32 {
            Err(SevenBitError::DecodeOverflow)
        } else {
            sp_read_7bc_at(s.skip(1), acc2, (offset + 7) as u32)
        }
    }
}

/// A 7-bit variable-length encoded unsigned 32-bit integer read from the
/// front of the input.
pub open spec fn sp_read_7bc(s: Seq<u8>) -> Result<(u32, Seq<u8>), SevenBitError> {
    sp_read_7bc_at(s, 0, 0)
}

/// A length-prefixed byte string read from the front of the input: a 7-bit
/// encoded length, then exactly that many raw content bytes.
pub open spec fn sp_read_str_bytes(s: Seq<u8>) -> Result<(Seq<u8>, Seq<u8>), StrError> {
    match sp_read_7bc(s) {
        Err(e) => Err(StrError::Length(e)),
        Ok((len, rest)) => if rest.len() >= len {
            Ok((rest.take(len as int), rest.skip(len as int)))
        } else {
            Err(StrError::Io)
        },
    }
}

/// A successful 7-bit length read consumes at least one byte.
pub proof fn lemma_7bc_monotone(s: Seq<u8>, acc: u32, offset: u32)
    ensures
        sp_read_7bc_at(s, acc, offset) matches Ok(p) ==> p.1.len() < s.len(),
    decreases s.len(),
{
    if s.len() != 0 && offset < 32 && s[0] & 0x80 != 0 && offset + 7 < 32 {
        lemma_7bc_monotone(s.skip(1), acc | (((s[0] & 0x7f) as u32) << offset), (offset + 7) as u32);
    }
}

/// A successful byte-string read consumes at least its length byte.
pub proof fn lemma_str_bytes_monotone(s: Seq<u8>)
    ensures
        sp_read_str_bytes(s) matches Ok(p) ==> p.1.len() < s.len(),
{
    lemma_7bc_monotone(s, 0, 0);
}

/// A buffer of `len` zero bytes, handed to the byte-string reader as the
/// allocation of the announced content length.
fn zeroed(len: u32) -> (v: Vec<u8>)
    ensures
        v@.len() == len as nat,
{
    let mut v: Vec<u8> = Vec::new();
    let n: usize = len as usize;
    let mut i: usize = 0;
    while i < n
        invariant
            i <= n,
            n == len as usize,
            v@.len() == i as nat,
        decreases n - i,
    {
        v.push(0);
        i = i + 1;
    }
    v
}

/// Relies on `dotnet_io_binary::io::prim::ReadPrim::read_prim` at `u8`: it
/// reads exactly one byte, or fails when the input is empty.
#[verifier::external_body]
pub(crate) fn read_u8(input: &[u8]) -> (r: Option<(u8, &[u8])>)
    ensures
        match r {
            Some((v, rest)) => sp_read_u8(input@) matches Some(p) && p.0 == v && p.1 == rest@,
            None => sp_read_u8(input@) is None,
        },
{
    let mut s = input;
    match s.read_prim::<1, u8>() {
        Ok(v) => Some((v, s)),
        Err(_) => None,
    }
}

/// Relies on `dotnet_io_binary::io::prim::ReadPrim::read_prim` at `u16`: it
/// reads exactly two bytes, little endian, or fails when fewer remain.
#[verifier::external_body]
pub(crate) fn read_u16(input: &[u8]) -> (r: Option<(u16, &[u8])>)
    ensures
        match r {
            Some((v, rest)) => sp_read_u16(input@) matches Some(p) && p.0 == v && p.1 == rest@,
            None => sp_read_u16(input@) is None,
        },
{
    let mut s = input;
    match s.read_prim::<2, u16>() {
        Ok(v) => Some((v, s)),
        Err(_) => None,
    }
}

/// Relies on `dotnet_io_binary::io::prim::ReadPrim::read_prim` at `i16`: it
/// reads exactly two bytes, little endian, or fails when fewer remain.
#[verifier::external_body]
pub(crate) fn read_i16(input: &[u8]) -> (r: Option<(i16, &[u8])>)
    ensures
        match r {
            Some((v, rest)) => sp_read_i16(input@) matches Some(p) && p.0 == v && p.1 == rest@,
            None => sp_read_i16(input@) is None,
        },
{
    let mut s = input;
    match s.read_prim::<2, i16>() {
        Ok(v) => Some((v, s)),
        Err(_) => None,
    }
}

/// Relies on `dotnet_io_binary::io::prim::ReadPrim::read_prim` at `i32`: it
/// reads exactly four bytes, little endian, or fails when fewer remain.
#[verifier::external_body]
pub(crate) fn read_i32(input: &[u8]) -> (r: Option<(i32, &[u8])>)
    ensures
        match r {
            Some((v, rest)) => sp_read_i32(input@) matches Some(p) && p.0 == v && p.1 == rest@,
            None => sp_read_i32(input@) is None,
        },
{
    let mut s = input;
    match s.read_prim::<4, i32>() {
        Ok(v) => Some((v, s)),
        Err(_) => None,
    }
}

/// Relies on `dotnet_io_binary::io::prim::ReadPrim::read_prim` at `u32`: it
/// reads exactly four bytes, little endian, or fails when fewer remain.
#[verifier::external_body]
pub(crate) fn read_u32(input: &[u8]) -> (r: Option<(u32, &[u8])>)
    ensures
        match r {
            Some((v, rest)) => sp_read_u32(input@) matches Some(p) && p.0 == v && p.1 == rest@,
            None => sp_read_u32(input@) is None,
        },
{
    let mut s = input;
    match s.read_prim::<4, u32>() {
        Ok(v) => Some((v, s)),
        Err(_) => None,
    }
}

/// Relies on `dotnet_io_binary::io::string::ReadDotnetStr::read_dotnet_str`:
/// it reads a 7-bit encoded 32-bit length, fills a buffer of that many bytes
/// from the input, and reports a failed length read and a short content read
/// separately.
#[verifier::external_body]
pub(crate) fn read_str_bytes(input: &[u8]) -> (r: Result<(Vec<u8>, &[u8]), StrError>)
    ensures
        match r {
            Ok((content, rest)) => sp_read_str_bytes(input@) matches Ok(p) && p.0 == content@
                && p.1 == rest@,
            Err(e) => sp_read_str_bytes(input@) matches Err(e2) && e == e2,
        },
{
    let mut s = input;
    match s.read_dotnet_str(|len| zeroed(len)) {
        Ok(content) => Ok((content, s)),
        Err(dotnet_io_binary::io::string::ReadError::Io(_)) => Err(StrError::Io),
        Err(dotnet_io_binary::io::string::ReadError::Length(e)) => Err(
            StrError::Length(
                match e {
                    dotnet_io_binary::io::_7bit_code::ReadError::Io { .. } => SevenBitError::Io,
                    dotnet_io_binary::io::_7bit_code::ReadError::DecodeOverflow(_) => SevenBitError::DecodeOverflow,
                },
            ),
        ),
    }
}

} // verus!
