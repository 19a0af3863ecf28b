//! Reader for RES4 resource archives.
//!
//! A RES4 archive holds a 16-byte header, a table of data offsets, one
//! descriptor-plus-payload block per embedded file, and a trailing table that
//! repeats every descriptor. This crate parses and cross-checks those
//! structures over an in-memory byte source and hands out each embedded file
//! as a name and its payload bytes. Every function carries a contract that is
//! stated over the archive's bytes and proved by Verus.

pub mod error;
pub mod extraction;
pub mod header;
pub mod directory;
pub mod entry;
pub mod source;
