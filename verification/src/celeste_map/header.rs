//! The header validator: the file must begin with one length-prefixed
//! string whose content is the literal `"CELESTE MAP"`.

use crate::celeste_map::prim;
use crate::celeste_map::string::bytes_eq;
use vstd::prelude::*;

verus! {

/// Failure of the header read: the string could not be read at all, or its
/// content is not the expected literal.
#[derive(Debug, Clone, Copy, PartialEq, Eq, Structural)]
pub enum HeaderError {
    Io,
    NotMatch,
}

/// The eleven content bytes of the literal `"CELESTE MAP"`.
pub open spec fn header_bytes() -> Seq<u8> {
    seq![0x43u8, 0x45, 0x4c, 0x45, 0x53, 0x54, 0x45, 0x20, 0x4d, 0x41, 0x50]
}

/// The header read: one length-prefixed string from the front of the
/// input; succeeds exactly when its content equals `"CELESTE MAP"`.  A
/// short or malformed read is `Io`, a present but different string is
/// `NotMatch`.
pub open spec fn sp_read_header(s: Seq<u8>) -> Result<Seq<u8>, HeaderError> {
    match prim::sp_read_str_bytes(s) {
        Err(_) => Err(HeaderError::Io),
        Ok((content, rest)) => if content == header_bytes() {
            Ok(rest)
        } else {
            Err(HeaderError::NotMatch)
        },
    }
}

/// Consumes the header string and yields the remaining input.
pub fn read_header<'a>(input: &'a [u8]) -> (r: Result<&'a [u8], HeaderError>)
    ensures
        match r {
            Ok(rest) => sp_read_header(input@) matches Ok(rr) && rest@ == rr,
            Err(e) => sp_read_header(input@) matches Err(e2) && e == e2,
        },
{
    match prim::read_str_bytes(input) {
        Err(_) => Err(HeaderError::Io),
        Ok((content, rest)) => {
            let expected: [u8; 11] = [0x43, 0x45, 0x4c, 0x45, 0x53, 0x54, 0x45, 0x20, 0x4d, 0x41,
                0x50];
            proof {
                assert(expected@ =~= header_bytes());
            }
            if bytes_eq(content.as_slice(), expected.as_slice()) {
                Ok(rest)
            } else {
                Err(HeaderError::NotMatch)
            }
        },
    }
}

} // verus!
