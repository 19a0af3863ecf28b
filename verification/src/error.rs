//! The ways in which reading an archive can fail.

use vstd::prelude::*;

verus! {

/// A structural defect of the archive.
#[derive(Clone, Copy, Debug, PartialEq, Eq, Structural)]
pub enum FormatError {
    /// The first four bytes are not the archive tag.
    BadMagic,
    /// The header puts the end of the type table before its start.
    TableBoundsReversed,
    /// The source's length is not the type table's end plus the name table's size.
    FileSizeMismatch,
    /// The name table's size is not 88 bytes per entry of the type table.
    NameTableSizeMismatch,
    /// The type entry at `index` points at or beyond the end of the source.
    OffsetOutOfRange { index: u32 },
    /// The type entry at `index` does not carry the sound-resource tag.
    BadKind { index: u32 },
    /// The type table does not end where the header says it does.
    TableEndMismatch,
}

/// A fatal error: nothing is recovered after one of these.
#[derive(Clone, Copy, Debug, PartialEq, Eq, Structural)]
pub enum ExtractError {
    /// The archive breaks a rule of the format.
    Format(FormatError),
    /// The descriptor stored in front of the payload of entry `index` differs
    /// from the copy in the trailing name table.
    Consistency { index: u32 },
    /// The source ended before the bytes that were asked for.
    Io,
}

} // verus!
