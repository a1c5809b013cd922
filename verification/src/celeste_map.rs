//! The components of the map decoder, leaves first: the primitive byte
//! reader, the UTF-8 string decoder, the header validator, the lookup
//! table, the attribute and element decoders, and the document assembler.

pub mod attribute;
pub mod codec;
pub mod element;
pub mod header;
pub mod lookup;
pub mod prim;
pub mod stream;
pub mod string;
pub mod truncation;
pub mod types;
