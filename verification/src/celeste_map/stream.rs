//! A staged decoding interface over the same wire format: each stage
//! consumes its part of the input and hands back the next stage, so a
//! caller can stop after the header, the package name, or any prefix of
//! the lookup table.  The strings this interface yields are raw bytes;
//! the staged reader leaves UTF-8 validation to its caller.

use crate::celeste_map::header;
use crate::celeste_map::prim;
use crate::celeste_map::string::bytes_eq;
use vstd::prelude::*;

verus! {

/// Begins a staged decode over the input.
pub fn decode<'a>(r: &'a [u8]) -> (h: HeaderValidate<'a>)
    ensures
        h@ == r@,
{
    HeaderValidate(r)
}

/// The first stage: the header string has not been read yet.
pub struct HeaderValidate<'a>(&'a [u8]);

impl<'a> View for HeaderValidate<'a> {
    type V = Seq<u8>;

    closed spec fn view(&self) -> Seq<u8> {
        self.0@
    }
}

impl<'a> HeaderValidate<'a> {
    /// Reads the header string into `buf`; yields the next stage exactly
    /// when the content equals `"CELESTE MAP"`, and `None` when a string
    /// was present but different.  On a failed read the buffer's content
    /// is unspecified.
    pub fn validate(self, buf: &mut Vec<u8>) -> (r: Result<Option<PackageName<'a>>, prim::StrError>)
        ensures
            match r {
                Ok(Some(p)) => prim::sp_read_str_bytes(self@) matches Ok(q) && final(buf)@ == q.0
                    && q.0 == header::header_bytes() && p@ == q.1,
                Ok(None) => prim::sp_read_str_bytes(self@) matches Ok(q) && final(buf)@ == q.0
                    && q.0 != header::header_bytes(),
                Err(e) => prim::sp_read_str_bytes(self@) matches Err(e2) && e == e2,
            },
    {
        match prim::read_str_bytes(self.0) {
            Err(e) => Err(e),
            Ok((content, rest)) => {
                *buf = content;
                let expected: [u8; 11] = [0x43, 0x45, 0x4c, 0x45, 0x53, 0x54, 0x45, 0x20, 0x4d,
                    0x41, 0x50];
                proof {
                    assert(expected@ =~= header::header_bytes());
                }
                if bytes_eq(buf.as_slice(), expected.as_slice()) {
                    Ok(Some(PackageName(rest)))
                } else {
                    Ok(None)
                }
            },
        }
    }
}

/// The second stage: the header has been validated and the package name
/// is next.
pub struct PackageName<'a>(&'a [u8]);

impl<'a> View for PackageName<'a> {
    type V = Seq<u8>;

    closed spec fn view(&self) -> Seq<u8> {
        self.0@
    }
}

impl<'a> PackageName<'a> {
    /// Reads the package name into `buf` and yields the lookup-table
    /// stage.  On a failed read the buffer's content is unspecified.
    pub fn read(self, buf: &mut Vec<u8>) -> (r: Result<LookupTable<'a>, prim::StrError>)
        ensures
            match r {
                Ok(lt) => prim::sp_read_str_bytes(self@) matches Ok(q) && final(buf)@ == q.0
                    && lt@ == q.1,
                Err(e) => prim::sp_read_str_bytes(self@) matches Err(e2) && e == e2,
            },
    {
        match prim::read_str_bytes(self.0) {
            Err(e) => Err(e),
            Ok((content, rest)) => {
                *buf = content;
                Ok(LookupTable(rest))
            },
        }
    }
}

/// The third stage: the lookup-table entry count is next.
pub struct LookupTable<'a>(&'a [u8]);

impl<'a> View for LookupTable<'a> {
    type V = Seq<u8>;

    closed spec fn view(&self) -> Seq<u8> {
        self.0@
    }
}

impl<'a> LookupTable<'a> {
    /// Reads the 16-bit signed entry count and yields the table reader;
    /// `None` when the count itself cannot be read.
    pub fn start(self) -> (r: Option<Lookup<'a>>)
        ensures
            match r {
                Some(lk) => prim::sp_read_i16(self@) matches Some(p) && lk.spec_len() == p.0
                    && lk.spec_left() == p.0 && lk@ == p.1,
                None => prim::sp_read_i16(self@) is None,
            },
    {
        match prim::read_i16(self.0) {
            None => None,
            Some((len, rest)) => Some(Lookup { len, rest, left: len }),
        }
    }
}

/// The table reader: hands the entry strings out one at a time, as raw
/// bytes, until the announced count is exhausted.
pub struct Lookup<'a> {
    len: i16,
    rest: &'a [u8],
    left: i16,
}

impl<'a> View for Lookup<'a> {
    type V = Seq<u8>;

    closed spec fn view(&self) -> Seq<u8> {
        self.rest@
    }
}

impl<'a> Lookup<'a> {
    /// The announced entry count.
    pub closed spec fn spec_len(self) -> i16 {
        self.len
    }

    /// The number of entries not yet handed out.
    pub closed spec fn spec_left(self) -> i16 {
        self.left
    }

    /// The announced entry count.
    pub fn len(&self) -> (n: i16)
        ensures
            n == self.spec_len(),
    {
        self.len
    }

    /// The next entry string and the advanced reader, or `None` when no
    /// entries are left (a count of zero or less announces none).  On a
    /// failed read the reader is handed back unmoved, with the failure.
    pub fn next_or_tail(self) -> (r: Option<(Lookup<'a>, Result<Vec<u8>, prim::StrError>)>)
        ensures
            r is None <==> self.spec_left() <= 0,
            match r {
                Some((next, item)) => next.spec_len() == self.spec_len() && match item {
                    Ok(b) => prim::sp_read_str_bytes(self@) matches Ok(q) && b@ == q.0 && next@
                        == q.1 && next.spec_left() == self.spec_left() - 1,
                    Err(e) => prim::sp_read_str_bytes(self@) matches Err(e2) && e == e2 && next@
                        == self@ && next.spec_left() == self.spec_left(),
                },
                None => true,
            },
    {
        if self.left <= 0 {
            return None;
        }
        match prim::read_str_bytes(self.rest) {
            Ok((b, rest2)) => Some(
                (Lookup { len: self.len, rest: rest2, left: self.left - 1 }, Ok(b)),
            ),
            Err(e) => Some((Lookup { len: self.len, rest: self.rest, left: self.left }, Err(e))),
        }
    }
}

} // verus!
