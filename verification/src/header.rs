//! The fixed 16-byte header at the start of an archive.

use vstd::prelude::*;
use crate::entry::u32_at;
use crate::error::{ExtractError, FormatError};
use crate::source::{lemma_peek_is_subrange, read_u32_le, ByteSource};

verus! {

/// The tag that opens every archive: `RES4`.
pub const ARCHIVE_MAGIC: u32 = 0x5245_5334;

/// The four numbers of the header, in the order in which they are stored.
#[derive(Clone, Copy, Debug, PartialEq, Eq, Structural)]
pub struct ArchiveHeader {
    pub magic: u32,
    pub type_table_start: u32,
    pub type_table_end: u32,
    pub name_table_byte_size: u32,
}

impl ArchiveHeader {
    /// What a header must satisfy in a source of `file_size` bytes: the right
    /// tag, table bounds in order, and a name table that ends exactly where
    /// the source does.
    pub open spec fn consistent_with(self, file_size: nat) -> bool {
        &&& self.magic == ARCHIVE_MAGIC
        &&& self.type_table_start <= self.type_table_end
        &&& file_size == self.type_table_end + self.name_table_byte_size
    }

    /// The number of bytes between the start and the end of the type table.
    pub fn type_table_size(&self) -> (size: u32)
        requires
            self.type_table_start <= self.type_table_end,
        ensures
            size == self.type_table_end - self.type_table_start,
    {
        self.type_table_end - self.type_table_start
    }
}

/// The header as the first 16 bytes spell it.
pub open spec fn header_at(bytes: Seq<u8>) -> ArchiveHeader
    recommends
        16 <= bytes.len(),
{
    ArchiveHeader {
        magic: u32_at(bytes, 0),
        type_table_start: u32_at(bytes, 4),
        type_table_end: u32_at(bytes, 8),
        name_table_byte_size: u32_at(bytes, 12),
    }
}

/// What reading the header of `bytes` gives. The fields are read and checked
/// in order, so the first defect met decides the error: the tag is judged as
/// soon as four bytes were there, the table bounds as soon as twelve were.
pub open spec fn header_outcome(bytes: Seq<u8>) -> Result<ArchiveHeader, ExtractError> {
    let header = header_at(bytes);
    if bytes.len() < 4 {
        Err(ExtractError::Io)
    } else if header.magic != ARCHIVE_MAGIC {
        Err(ExtractError::Format(FormatError::BadMagic))
    } else if bytes.len() < 12 {
        Err(ExtractError::Io)
    } else if header.type_table_end < header.type_table_start {
        Err(ExtractError::Format(FormatError::TableBoundsReversed))
    } else if bytes.len() < 16 {
        Err(ExtractError::Io)
    } else if bytes.len() != header.type_table_end + header.name_table_byte_size {
        Err(ExtractError::Format(FormatError::FileSizeMismatch))
    } else {
        Ok(header)
    }
}

/// Reads and checks the header from the start of the source, wherever the
/// read position was, and leaves the position at the start of the type table.
pub fn read_header(r: &mut ByteSource) -> (res: Result<ArchiveHeader, ExtractError>)
    ensures
        final(r)@.bytes == old(r)@.bytes,
        res == header_outcome(old(r)@.bytes),
        res matches Ok(header) ==> final(r)@.pos == header.type_table_start
            && header.consistent_with(old(r)@.bytes.len()),
{
    let file_size = r.stream_len();
    r.seek_from_start(0);
    let ghost s = r@;
    let magic = match read_u32_le(r) {
        Ok(v) => v,
        Err(e) => { return Err(e); },
    };
    proof {
        lemma_peek_is_subrange(s, 4);
    }
    if magic != ARCHIVE_MAGIC {
        return Err(ExtractError::Format(FormatError::BadMagic));
    }
    let type_table_start = match read_u32_le(r) {
        Ok(v) => v,
        Err(e) => { return Err(e); },
    };
    let type_table_end = match read_u32_le(r) {
        Ok(v) => v,
        Err(e) => { return Err(e); },
    };
    proof {
        lemma_peek_is_subrange(s.after_read(4), 4);
        lemma_peek_is_subrange(s.after_read(8), 4);
    }
    if type_table_end < type_table_start {
        return Err(ExtractError::Format(FormatError::TableBoundsReversed));
    }
    let name_table_byte_size = match read_u32_le(r) {
        Ok(v) => v,
        Err(e) => { return Err(e); },
    };
    proof {
        lemma_peek_is_subrange(s.after_read(12), 4);
    }
    if file_size != type_table_end as u64 + name_table_byte_size as u64 {
        return Err(ExtractError::Format(FormatError::FileSizeMismatch));
    }
    r.seek_from_start(type_table_start as u64);
    Ok(ArchiveHeader { magic, type_table_start, type_table_end, name_table_byte_size })
}

} // verus!
