//! Extraction of selected DICOM attributes from a batch of files into one
//! table: a row per file, a column per requested tag.
//!
//! The library resolves the tag identifiers a user writes, expands the input
//! paths, reads the requested attributes out of decoded data sets, restores
//! the input order of results that complete in any order, and lays the
//! values out as CSV. Opening files and writing the output is left to the
//! caller.

pub mod coordinator;
pub mod csv_text;
pub mod dictionary;
pub mod extract;
pub mod input;
pub mod lines;
pub mod table;
pub mod tag;
pub mod tagspec;
