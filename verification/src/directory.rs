//! The archive's directory: the header, the type table and the name table,
//! read in that order and checked against each other.

use vstd::prelude::*;
use crate::entry::{
    name_table_at, name_views, read_file_name_table, read_file_type_table, type_entry_at,
    type_table_at, u32_at, FileNameEntry, FileTypeEntry, NameEntryView, SOUND_KIND,
};
use crate::error::{ExtractError, FormatError};
use crate::header::{header_at, header_outcome, read_header, ArchiveHeader};
use crate::source::{lemma_peek_is_subrange, read_u32_le, ByteSource};

verus! {

/// What is wrong with the type entry at `index`, if anything, in a source of
/// `file_size` bytes. The offset is judged before the kind.
pub open spec fn entry_defect(entry: FileTypeEntry, index: int, file_size: nat) -> Option<
    FormatError,
> {
    if entry.data_offset >= file_size {
        Some(FormatError::OffsetOutOfRange { index: index as u32 })
    } else if entry.kind != SOUND_KIND {
        Some(FormatError::BadKind { index: index as u32 })
    } else {
        None
    }
}

/// The defect of the first defective entry among the first `upto` entries.
pub open spec fn first_defect(table: Seq<FileTypeEntry>, file_size: nat, upto: nat) -> Option<
    FormatError,
>
    recommends
        upto <= table.len(),
    decreases upto,
{
    if upto == 0 {
        None
    } else {
        match first_defect(table, file_size, (upto - 1) as nat) {
            Some(defect) => Some(defect),
            None => entry_defect(table[upto - 1], upto - 1, file_size),
        }
    }
}

/// Checks every entry of a type table against the size of the source.
pub fn validate_type_table(table: &Vec<FileTypeEntry>, file_size: u64) -> (res: Result<
    (),
    ExtractError,
>)
    requires
        table@.len() <= u32::MAX,
    ensures
        match res {
            Ok(_) => first_defect(table@, file_size as nat, table@.len()) is None,
            Err(e) => first_defect(table@, file_size as nat, table@.len()) == Some(e->Format_0)
                && e is Format,
        },
{
    let mut i: usize = 0;
    while i < table.len()
        invariant
            i <= table@.len() <= u32::MAX,
            first_defect(table@, file_size as nat, i as nat) is None,
        decreases table@.len() - i,
    {
        let entry = table[i];
        if entry.data_offset as u64 >= file_size {
            proof {
                lemma_first_defect_stays(table@, file_size as nat, i as nat + 1, table@.len());
            }
            return Err(ExtractError::Format(FormatError::OffsetOutOfRange { index: i as u32 }));
        }
        if entry.kind != SOUND_KIND {
            proof {
                lemma_first_defect_stays(table@, file_size as nat, i as nat + 1, table@.len());
            }
            return Err(ExtractError::Format(FormatError::BadKind { index: i as u32 }));
        }
        i = i + 1;
    }
    Ok(())
}

/// Once a defect was found among the first `upto` entries, looking at more
/// entries does not change the answer.
pub proof fn lemma_first_defect_stays(
    table: Seq<FileTypeEntry>,
    file_size: nat,
    upto: nat,
    more: nat,
)
    requires
        upto <= more,
        first_defect(table, file_size, upto) is Some,
    ensures
        first_defect(table, file_size, more) == first_defect(table, file_size, upto),
    decreases more,
{
    if upto < more {
        lemma_first_defect_stays(table, file_size, upto, (more - 1) as nat);
    }
}

/// No defect among the first `upto` entries means that each of them points
/// into the source and carries the sound-resource tag, and the other way
/// round.
pub proof fn lemma_no_defect_iff_all_sound(table: Seq<FileTypeEntry>, file_size: nat, upto: nat)
    requires
        upto <= table.len(),
    ensures
        first_defect(table, file_size, upto) is None <==> forall|i: int|
            0 <= i < upto ==> (#[trigger] table[i]).data_offset < file_size && table[i].kind
                == SOUND_KIND,
    decreases upto,
{
    if upto > 0 {
        lemma_no_defect_iff_all_sound(table, file_size, (upto - 1) as nat);
        if first_defect(table, file_size, upto) is None {
            assert forall|i: int| 0 <= i < upto implies (#[trigger] table[i]).data_offset
                < file_size && table[i].kind == SOUND_KIND by {
                if i == upto - 1 {
                    assert(entry_defect(table[i], i, file_size) is None);
                }
            }
        }
    }
}

/// What the type-table stage gives when it starts at `start` under `header`:
/// the entry count is read first and must account for the whole name table;
/// then all entries are read, each is checked, and the table must end where
/// the header says.
pub open spec fn type_stage_outcome(bytes: Seq<u8>, start: int, header: ArchiveHeader) -> Result<
    Seq<FileTypeEntry>,
    ExtractError,
> {
    let num_files = u32_at(bytes, start);
    let table = type_table_at(bytes, start + 4, num_files as nat);
    if start + 4 > bytes.len() {
        Err(ExtractError::Io)
    } else if header.name_table_byte_size != 88 * num_files {
        Err(ExtractError::Format(FormatError::NameTableSizeMismatch))
    } else if start + 4 + 8 * num_files > bytes.len() {
        Err(ExtractError::Io)
    } else if first_defect(table, bytes.len(), num_files as nat) is Some {
        Err(ExtractError::Format(first_defect(table, bytes.len(), num_files as nat)->0))
    } else if start + 4 + 8 * num_files != header.type_table_end {
        Err(ExtractError::Format(FormatError::TableEndMismatch))
    } else {
        Ok(table)
    }
}

/// Reads the entry count and the type table at the read position and checks
/// them against `header` and the size of the source. On success the read
/// position is the header's end of the type table.
pub fn read_checked_type_table(r: &mut ByteSource, header: &ArchiveHeader) -> (res: Result<
    Vec<FileTypeEntry>,
    ExtractError,
>)
    ensures
        final(r)@.bytes == old(r)@.bytes,
        match res {
            Ok(table) => type_stage_outcome(old(r)@.bytes, old(r)@.pos as int, *header) == Ok::<
                Seq<FileTypeEntry>,
                ExtractError,
            >(table@) && final(r)@.pos == header.type_table_end,
            Err(e) => type_stage_outcome(old(r)@.bytes, old(r)@.pos as int, *header) == Err::<
                Seq<FileTypeEntry>,
                ExtractError,
            >(e),
        },
{
    let ghost s = old(r)@;
    let file_size = r.stream_len();
    let num_files = match read_u32_le(r) {
        Ok(v) => v,
        Err(e) => { return Err(e); },
    };
    proof {
        lemma_peek_is_subrange(s, 4);
    }
    if header.name_table_byte_size as u64 != num_files as u64 * 88 {
        return Err(ExtractError::Format(FormatError::NameTableSizeMismatch));
    }
    let table = match read_file_type_table(r, num_files) {
        Ok(table) => table,
        Err(e) => { return Err(e); },
    };
    match validate_type_table(&table, file_size) {
        Ok(_) => {},
        Err(e) => { return Err(e); },
    }
    if r.stream_position() != header.type_table_end as u64 {
        return Err(ExtractError::Format(FormatError::TableEndMismatch));
    }
    Ok(table)
}

/// Everything that describes the embedded files: the header and the two
/// tables, whose entries pair up by position.
#[derive(Debug)]
pub struct Directory {
    pub header: ArchiveHeader,
    pub types: Vec<FileTypeEntry>,
    pub names: Vec<FileNameEntry>,
}

/// A directory as a mathematical value.
pub struct DirectoryView {
    pub header: ArchiveHeader,
    pub types: Seq<FileTypeEntry>,
    pub names: Seq<NameEntryView>,
}

impl View for Directory {
    type V = DirectoryView;

    open spec fn view(&self) -> DirectoryView {
        DirectoryView { header: self.header, types: self.types@, names: name_views(self.names@) }
    }
}

impl Directory {
    /// The number of embedded files.
    pub fn num_files(&self) -> (n: usize)
        ensures
            n == self@.types.len(),
    {
        self.types.len()
    }
}

/// What reading the directory of `bytes` gives: the header, then the type
/// table that starts where the header says, then the name table that starts
/// where the type table ends.
pub open spec fn directory_outcome(bytes: Seq<u8>) -> Result<DirectoryView, ExtractError> {
    match header_outcome(bytes) {
        Err(e) => Err(e),
        Ok(header) => match type_stage_outcome(bytes, header.type_table_start as int, header) {
            Err(e) => Err(e),
            Ok(types) => Ok(
                DirectoryView {
                    header,
                    types,
                    names: name_table_at(bytes, header.type_table_end as int, types.len()),
                },
            ),
        },
    }
}

/// In a directory that was read without error, the source is exactly as long
/// as the header says, the name table has 88 bytes for each entry of the type
/// table, the type table fills the span that the header gives it, and both
/// tables are what the bytes at their places spell.
pub proof fn lemma_directory_sizes(bytes: Seq<u8>)
    requires
        directory_outcome(bytes) is Ok,
    ensures
        ({
            let dir = directory_outcome(bytes)->Ok_0;
            &&& dir.header == header_at(bytes)
            &&& dir.header.consistent_with(bytes.len())
            &&& dir.header.name_table_byte_size == 88 * dir.types.len()
            &&& dir.header.type_table_start + 4 + 8 * dir.types.len() == dir.header.type_table_end
            &&& dir.types.len() == u32_at(bytes, dir.header.type_table_start as int)
            &&& dir.names.len() == dir.types.len()
            &&& dir.types == type_table_at(
                bytes,
                dir.header.type_table_start + 4,
                dir.types.len(),
            )
            &&& dir.names == name_table_at(
                bytes,
                dir.header.type_table_end as int,
                dir.types.len(),
            )
        }),
{
}

/// Where the header and the entry count are there to be read, a source whose
/// length is not the type table's end plus the name table's size, or whose
/// name table does not have 88 bytes per entry, is refused with a format
/// error.
pub proof fn lemma_size_rules_enforced(bytes: Seq<u8>)
    requires
        bytes.len() >= 16,
        header_at(bytes).type_table_start + 4 <= bytes.len(),
        bytes.len() != header_at(bytes).type_table_end + header_at(bytes).name_table_byte_size
            || header_at(bytes).name_table_byte_size != 88 * u32_at(
            bytes,
            header_at(bytes).type_table_start as int,
        ),
    ensures
        directory_outcome(bytes) is Err,
        directory_outcome(bytes)->Err_0 is Format,
{
}

/// In a directory that was read without error, every type entry points into
/// the source and carries the sound-resource tag.
pub proof fn lemma_entries_sound(bytes: Seq<u8>)
    requires
        directory_outcome(bytes) is Ok,
    ensures
        forall|i: int|
            0 <= i < directory_outcome(bytes)->Ok_0.types.len() ==> {
                &&& (#[trigger] directory_outcome(bytes)->Ok_0.types[i]).data_offset < bytes.len()
                &&& directory_outcome(bytes)->Ok_0.types[i].kind == SOUND_KIND
            },
{
    let dir = directory_outcome(bytes)->Ok_0;
    lemma_no_defect_iff_all_sound(dir.types, bytes.len(), dir.types.len());
}

/// Where the header is sound and the type table is there to be read in full,
/// an entry that points at or beyond the end of the source has the archive
/// refused with a format error.
pub proof fn lemma_offset_out_of_range_refused(bytes: Seq<u8>, index: int)
    requires
        header_outcome(bytes) is Ok,
        ({
            let header = header_at(bytes);
            let num_files = u32_at(bytes, header.type_table_start as int);
            &&& header.name_table_byte_size == 88 * num_files
            &&& header.type_table_start + 4 + 8 * num_files <= bytes.len()
            &&& 0 <= index < num_files
            &&& type_entry_at(bytes, header.type_table_start + 4 + 8 * index).data_offset
                >= bytes.len()
        }),
    ensures
        directory_outcome(bytes) is Err,
        directory_outcome(bytes)->Err_0 is Format,
{
    let header = header_at(bytes);
    let num_files = u32_at(bytes, header.type_table_start as int);
    let table = type_table_at(bytes, header.type_table_start + 4, num_files as nat);
    lemma_no_defect_iff_all_sound(table, bytes.len(), num_files as nat);
    assert(table[index].data_offset >= bytes.len());
}

/// Reads and checks the whole directory, wherever the read position was. On
/// success the name table was read to its last byte, which is the last byte
/// of the source.
pub fn read_directory(r: &mut ByteSource) -> (res: Result<Directory, ExtractError>)
    ensures
        final(r)@.bytes == old(r)@.bytes,
        match res {
            Ok(dir) => directory_outcome(old(r)@.bytes) == Ok::<DirectoryView, ExtractError>(dir@)
                && final(r)@.pos == old(r)@.bytes.len(),
            Err(e) => directory_outcome(old(r)@.bytes) == Err::<DirectoryView, ExtractError>(e),
        },
{
    let header = match read_header(r) {
        Ok(header) => header,
        Err(e) => { return Err(e); },
    };
    let types = match read_checked_type_table(r, &header) {
        Ok(types) => types,
        Err(e) => { return Err(e); },
    };
    let names = match read_file_name_table(r, types.len() as u32) {
        Ok(names) => names,
        Err(e) => { return Err(e); },
    };
    Ok(Directory { header, types, names })
}

} // verus!
