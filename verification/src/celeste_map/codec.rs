//! The document assembler: header, package name, lookup table, then the
//! root element, in that fixed order, short-circuiting on the first
//! failure with the phase that failed.

use crate::celeste_map::element;
use crate::celeste_map::element::Element;
use crate::celeste_map::element::SpecElement;
use crate::celeste_map::header;
use crate::celeste_map::lookup;
use crate::celeste_map::lookup::Lookup;
use crate::celeste_map::string;
use crate::celeste_map::string::SimpleString;
use vstd::prelude::*;

verus! {

/// Failure of a whole decode, by phase: the header, the package name, the
/// lookup table, or the element tree.
#[derive(Debug, Clone, Copy, PartialEq, Eq, Structural)]
pub enum CelesteMapReadError {
    Header(header::HeaderError),
    PackageName(string::ReadError),
    Lookup(lookup::ReadError),
    Element(element::ReadError),
}

/// The mathematical model of a decoded document.
pub struct SpecCelesteMap {
    pub package_name: Seq<u8>,
    pub lookup: Seq<Seq<u8>>,
    pub tree: SpecElement,
}

/// A decoded map document: the package name, the lookup table every name
/// references, and the element tree.  Created only by a successful full
/// decode; never partially constructed.
#[derive(Debug)]
pub struct CelesteMap {
    pub package_name: SimpleString,
    pub lookup: Lookup,
    pub tree: Element,
}

impl View for CelesteMap {
    type V = SpecCelesteMap;

    open spec fn view(&self) -> SpecCelesteMap {
        SpecCelesteMap {
            package_name: self.package_name@,
            lookup: self.lookup@,
            tree: self.tree@,
        }
    }
}

/// One whole document read from the front of the input: the header
/// string, the package name, the lookup table, then the root element;
/// yields the document and whatever input follows it.
pub open spec fn sp_decode_rest(s: Seq<u8>) -> Result<
    (SpecCelesteMap, Seq<u8>),
    CelesteMapReadError,
> {
    match header::sp_read_header(s) {
        Err(e) => Err(CelesteMapReadError::Header(e)),
        Ok(s1) => match string::sp_read_string(s1) {
            Err(e) => Err(CelesteMapReadError::PackageName(e)),
            Ok((pkg, s2)) => match lookup::sp_read_lookup(s2) {
                Err(e) => Err(CelesteMapReadError::Lookup(e)),
                Ok((table, s3)) => match element::sp_read_element(table, s3) {
                    Err(e) => Err(CelesteMapReadError::Element(e)),
                    Ok((tree, s4)) => Ok(
                        (SpecCelesteMap { package_name: pkg, lookup: table, tree: tree }, s4),
                    ),
                },
            },
        },
    }
}

/// The decoded document of an input; bytes after the root element are
/// ignored.
pub open spec fn sp_decode(s: Seq<u8>) -> Result<SpecCelesteMap, CelesteMapReadError> {
    match sp_decode_rest(s) {
        Ok((d, _)) => Ok(d),
        Err(e) => Err(e),
    }
}

impl CelesteMap {
    /// Decodes one document from the input: header, package name, lookup
    /// table, root element, in that order.  All-or-nothing: the caller
    /// receives either a fully valid document or the first failure,
    /// wrapped with the phase it arose in.
    pub fn read(input: &[u8]) -> (r: Result<CelesteMap, CelesteMapReadError>)
        ensures
            match r {
                Ok(map) => sp_decode(input@) matches Ok(d) && map@ == d,
                Err(e) => sp_decode(input@) matches Err(e2) && e == e2,
            },
    {
        let s1 = match header::read_header(input) {
            Err(e) => {
                return Err(CelesteMapReadError::Header(e));
            },
            Ok(rest) => rest,
        };
        let (package_name, s2) = match string::read_dotnet_str(s1) {
            Err(e) => {
                return Err(CelesteMapReadError::PackageName(e));
            },
            Ok(p) => p,
        };
        let (lookup, s3) = match Lookup::read(s2) {
            Err(e) => {
                return Err(CelesteMapReadError::Lookup(e));
            },
            Ok(p) => p,
        };
        let tree = match Element::read(s3, &lookup) {
            Err(e) => {
                return Err(CelesteMapReadError::Element(e));
            },
            Ok((tree, _)) => tree,
        };
        Ok(CelesteMap { package_name, lookup, tree })
    }
}

} // verus!
