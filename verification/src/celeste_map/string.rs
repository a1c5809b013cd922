//! The string decoder: reads one length-prefixed byte string through the
//! primitive reader and validates it as UTF-8, producing a [`SimpleString`].

use crate::celeste_map::prim;
use vstd::prelude::*;
use vstd::slice::slice_to_vec;
use vstd::utf8::decode_utf8;
use vstd::utf8::valid_utf8;

verus! {

/// Failure of a string read: the underlying byte-string read failed, or the
/// content bytes are not valid UTF-8.
#[derive(Debug, Clone, Copy, PartialEq, Eq, Structural)]
pub enum ReadError {
    Content(prim::StrError),
    Utf8,
}

/// Failure of building a [`SimpleString`] from bytes that are not valid
/// UTF-8.
#[derive(Debug, Clone, Copy, PartialEq, Eq, Structural)]
pub struct Utf8Error;

/// A length-prefixed string read from the front of the input: the raw
/// byte-string read of [`prim::sp_read_str_bytes`], gated on the content
/// being valid UTF-8.  A length of zero yields an empty string.
pub open spec fn sp_read_string(s: Seq<u8>) -> Result<(Seq<u8>, Seq<u8>), ReadError> {
    match prim::sp_read_str_bytes(s) {
        Err(e) => Err(ReadError::Content(e)),
        Ok((content, rest)) => if valid_utf8(content) {
            Ok((content, rest))
        } else {
            Err(ReadError::Utf8)
        },
    }
}

/// A byte buffer guaranteed valid UTF-8 at construction time.  Its view is
/// the byte sequence; [`SimpleString::as_str`] exposes the decoded text.
#[derive(Debug, PartialEq, Eq, PartialOrd, Ord, Hash)]
pub struct SimpleString(Vec<u8>);

impl View for SimpleString {
    type V = Seq<u8>;

    closed spec fn view(&self) -> Seq<u8> {
        self.0@
    }
}

impl SimpleString {
    /// Every value of the type holds valid UTF-8.
    #[verifier::type_invariant]
    pub closed spec fn inv(self) -> bool {
        valid_utf8(self.0@)
    }

    /// Validates `s` as UTF-8 and wraps it; invalid bytes are rejected, not
    /// replaced.
    pub fn new(s: Vec<u8>) -> (r: Result<Self, Utf8Error>)
        ensures
            match r {
                Ok(ss) => valid_utf8(s@) && ss@ == s@,
                Err(_) => !valid_utf8(s@),
            },
    {
        if utf8_check(s.as_slice()) {
            Ok(SimpleString(s))
        } else {
            Err(Utf8Error)
        }
    }

    /// The decoded text of the underlying bytes.
    pub fn as_str(&self) -> (r: &str)
        ensures
            r@ == decode_utf8(self@),
    {
        proof {
            use_type_invariant(self);
        }
        bytes_as_str(self.0.as_slice())
    }

    /// The underlying bytes, by reference.
    pub fn as_bytes(&self) -> (r: &[u8])
        ensures
            r@ == self@,
    {
        self.0.as_slice()
    }

    /// The underlying bytes, by value.
    pub fn into_inner(self) -> (r: Vec<u8>)
        ensures
            r@ == self@,
    {
        self.0
    }
}

impl Clone for SimpleString {
    fn clone(&self) -> (r: Self)
        ensures
            r@ == self@,
    {
        proof {
            use_type_invariant(self);
        }
        SimpleString(slice_to_vec(self.0.as_slice()))
    }
}

/// Whether two byte slices hold the same bytes.
pub fn bytes_eq(a: &[u8], b: &[u8]) -> (r: bool)
    ensures
        r == (a@ == b@),
{
    if a.len() != b.len() {
        proof {
            assert(a@.len() != b@.len());
        }
        return false;
    }
    let n: usize = a.len();
    let mut i: usize = 0;
    while i < n
        invariant
            i <= n,
            n == a@.len(),
            n == b@.len(),
            forall|j: int| 0 <= j < i ==> a@[j] == b@[j],
        decreases n - i,
    {
        if a[i] != b[i] {
            return false;
        }
        i = i + 1;
    }
    proof {
        assert(a@ =~= b@);
    }
    true
}

/// Reads one length-prefixed string and validates it as UTF-8.
pub fn read_dotnet_str<'a>(input: &'a [u8]) -> (r: Result<(SimpleString, &'a [u8]), ReadError>)
    ensures
        match r {
            Ok((s, rest)) => sp_read_string(input@) matches Ok(p) && s@ == p.0 && rest@ == p.1
                && rest@.len() < input@.len(),
            Err(e) => sp_read_string(input@) matches Err(e2) && e == e2,
        },
{
    proof {
        prim::lemma_str_bytes_monotone(input@);
    }
    match prim::read_str_bytes(input) {
        Err(e) => Err(ReadError::Content(e)),
        Ok((content, rest)) => {
            if utf8_check(content.as_slice()) {
                Ok((SimpleString(content), rest))
            } else {
                Err(ReadError::Utf8)
            }
        },
    }
}

/// Relies on `core::str::from_utf8`: it succeeds exactly on input that is
/// valid UTF-8.
#[verifier::external_body]
pub(crate) fn utf8_check(b: &[u8]) -> (r: bool)
    ensures
        r == valid_utf8(b@),
{
    core::str::from_utf8(b).is_ok()
}

/// Relies on `core::str::from_utf8`: on valid UTF-8 input it returns the
/// string slice over those bytes, whose characters are the decoded scalars.
#[verifier::external_body]
pub(crate) fn bytes_as_str(b: &[u8]) -> (r: &str)
    requires
        valid_utf8(b@),
    ensures
        r@ == decode_utf8(b@),
{
    core::str::from_utf8(b).unwrap()
}

/// Relies on `alloc::string::String::from_utf8`: on valid UTF-8 input it
/// returns the string owning those bytes, whose characters are the decoded
/// scalars.
#[verifier::external_body]
pub(crate) fn string_from_utf8(v: Vec<u8>) -> (r: String)
    requires
        valid_utf8(v@),
    ensures
        r@ == decode_utf8(v@),
{
    String::from_utf8(v).unwrap()
}

} // verus!
