//! Packs one byte stream into a minimal 7z container that stores the data
//! verbatim ("copy" method), with a checksummed header.

pub mod bytes;
pub mod varnum;
pub mod header;
pub mod archive;
