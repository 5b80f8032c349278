//! A zero-copy parser and decode engine for MAME ListInfo DAT files.
//!
//! `parse::parse_document` turns a text into a `DatDocument`, a tree of
//! fragments, fields and sub-entries that borrows every string from the
//! text. The cursors of `de` then hand a consumer the values of the tree in
//! the shapes it asks for, reading scalars with the functions of `scalar`.
pub mod de;
pub mod elements;
pub mod error;
pub mod grammar;
pub mod group;
pub mod iter;
pub mod maps;
pub mod parse;
pub mod scalar;
pub mod text;

pub use elements::{DatDocument, EntryData, EntryFragment, Node, SubEntry};
pub use error::{Error, Found, Kind};
