//! Reader for FEI/TIA `.ser` electron-microscopy series files.
//!
//! The file format is a little-endian binary layout: a header naming the
//! series version, the shape of each stored array and the kind of tag that
//! accompanies it, followed by two offset tables and, at those offsets, the
//! data arrays and their tags.  Each parser here is a streaming parser: it
//! takes the bytes that are available and either returns the value together
//! with the bytes that follow it, asks for more input, or rejects the input.

pub mod error;
pub mod bytes;
pub mod data;
pub mod parsers;
pub mod reader;
pub mod frame;
pub mod laws;
pub mod layout;
