//! Decoder for the Celeste binary map format.
//!
//! A map file is a package name, a table of deduplicated strings, and a
//! recursively nested element tree whose nodes carry typed attributes.  The
//! decoder consumes a byte buffer through a single forward-only cursor and
//! returns either a fully decoded document or a terminal decode failure.

pub mod celeste_map;
pub mod rle;
