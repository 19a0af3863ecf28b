//! The two kinds of table record and how they are laid out in the bytes.

use vstd::prelude::*;
use crate::error::ExtractError;
use crate::source::{
    le_u32, lemma_peek_is_subrange, padded_text, read_padded_string, read_u32_le, ByteSource,
};

verus! {

/// The tag that every type entry carries: `SND2`.
pub const SOUND_KIND: u32 = 0x534E_4432;

/// The width of a type entry in bytes.
pub const TYPE_ENTRY_SIZE: u64 = 8;

/// The width of a name entry in bytes.
pub const NAME_ENTRY_SIZE: u64 = 88;

/// The width of the nul-padded name field inside a name entry.
pub const NAME_FIELD_SIZE: usize = 64;

/// One record of the type table: what kind of resource an embedded file is
/// and where its descriptor and payload begin.
#[derive(Clone, Copy, Debug, PartialEq, Eq, Structural)]
pub struct FileTypeEntry {
    pub kind: u32,
    pub data_offset: u32,
}

/// The descriptor of an embedded file. The archive stores it twice: in front
/// of the payload and in the trailing name table.
#[derive(Debug)]
pub struct FileNameEntry {
    pub sequence_index: u32,
    pub name: String,
    pub format_tag: u32,
    pub size_in_bytes: u32,
    pub sample_rate: u32,
    pub bit_depth_or_zero: u32,
    pub channel_count_or_zero: u32,
}

/// A name entry as a mathematical value.
pub struct NameEntryView {
    pub sequence_index: u32,
    pub name: Seq<char>,
    pub format_tag: u32,
    pub size_in_bytes: u32,
    pub sample_rate: u32,
    pub bit_depth_or_zero: u32,
    pub channel_count_or_zero: u32,
}

impl View for FileNameEntry {
    type V = NameEntryView;

    open spec fn view(&self) -> NameEntryView {
        NameEntryView {
            sequence_index: self.sequence_index,
            name: self.name@,
            format_tag: self.format_tag,
            size_in_bytes: self.size_in_bytes,
            sample_rate: self.sample_rate,
            bit_depth_or_zero: self.bit_depth_or_zero,
            channel_count_or_zero: self.channel_count_or_zero,
        }
    }
}

impl PartialEq for FileNameEntry {
    /// Two descriptors are equal when they agree field for field.
    fn eq(&self, other: &Self) -> (res: bool) {
        self.sequence_index == other.sequence_index && self.name == other.name && self.format_tag
            == other.format_tag && self.size_in_bytes == other.size_in_bytes && self.sample_rate
            == other.sample_rate && self.bit_depth_or_zero == other.bit_depth_or_zero
            && self.channel_count_or_zero == other.channel_count_or_zero
    }
}

impl vstd::std_specs::cmp::PartialEqSpecImpl for FileNameEntry {
    open spec fn obeys_eq_spec() -> bool {
        true
    }

    open spec fn eq_spec(&self, other: &Self) -> bool {
        self@ == other@
    }
}

/// The views of a sequence of name entries.
pub open spec fn name_views(entries: Seq<FileNameEntry>) -> Seq<NameEntryView> {
    entries.map_values(|e: FileNameEntry| e@)
}

/// The little-endian 32-bit number stored at `off`.
pub open spec fn u32_at(bytes: Seq<u8>, off: int) -> u32
    recommends
        0 <= off,
        off + 4 <= bytes.len(),
{
    le_u32(bytes.subrange(off, off + 4))
}

/// The type entry stored at `off`.
pub open spec fn type_entry_at(bytes: Seq<u8>, off: int) -> FileTypeEntry
    recommends
        0 <= off,
        off + 8 <= bytes.len(),
{
    FileTypeEntry { kind: u32_at(bytes, off), data_offset: u32_at(bytes, off + 4) }
}

/// The `n` type entries stored back to back from `off`.
pub open spec fn type_table_at(bytes: Seq<u8>, off: int, n: nat) -> Seq<FileTypeEntry>
    recommends
        0 <= off,
{
    Seq::new(n, |i: int| type_entry_at(bytes, off + 8 * i))
}

/// The name entry stored at `off`: the sequence index, the 64-byte name
/// field, then five more numbers.
pub open spec fn name_entry_at(bytes: Seq<u8>, off: int) -> NameEntryView
    recommends
        0 <= off,
        off + 88 <= bytes.len(),
{
    NameEntryView {
        sequence_index: u32_at(bytes, off),
        name: padded_text(bytes.subrange(off + 4, off + 68)),
        format_tag: u32_at(bytes, off + 68),
        size_in_bytes: u32_at(bytes, off + 72),
        sample_rate: u32_at(bytes, off + 76),
        bit_depth_or_zero: u32_at(bytes, off + 80),
        channel_count_or_zero: u32_at(bytes, off + 84),
    }
}

/// The `n` name entries stored back to back from `off`.
pub open spec fn name_table_at(bytes: Seq<u8>, off: int, n: nat) -> Seq<NameEntryView>
    recommends
        0 <= off,
{
    Seq::new(n, |i: int| name_entry_at(bytes, off + 88 * i))
}

/// Reads one type entry: two little-endian numbers, kind first.
pub fn read_file_type_entry(r: &mut ByteSource) -> (res: Result<FileTypeEntry, ExtractError>)
    ensures
        final(r)@ == old(r)@.after_read(8),
        match res {
            Ok(entry) => old(r)@.can_read(8) && entry == type_entry_at(
                old(r)@.bytes,
                old(r)@.pos as int,
            ),
            Err(e) => !old(r)@.can_read(8) && e == ExtractError::Io,
        },
{
    let kind = match read_u32_le(r) {
        Ok(v) => v,
        Err(e) => { return Err(e); },
    };
    let data_offset = match read_u32_le(r) {
        Ok(v) => v,
        Err(e) => { return Err(e); },
    };
    proof {
        lemma_peek_is_subrange(old(r)@, 4);
        lemma_peek_is_subrange(old(r)@.after_read(4), 4);
    }
    Ok(FileTypeEntry { kind, data_offset })
}

/// Reads `num_files` type entries, in file order.
pub fn read_file_type_table(r: &mut ByteSource, num_files: u32) -> (res: Result<
    Vec<FileTypeEntry>,
    ExtractError,
>)
    ensures
        final(r)@ == old(r)@.after_read(8 * num_files as nat),
        match res {
            Ok(table) => old(r)@.can_read(8 * num_files as nat) && table@ == type_table_at(
                old(r)@.bytes,
                old(r)@.pos as int,
                num_files as nat,
            ),
            Err(e) => !old(r)@.can_read(8 * num_files as nat) && e == ExtractError::Io,
        },
{
    let mut table: Vec<FileTypeEntry> = Vec::new();
    let mut i: u32 = 0;
    while i < num_files
        invariant
            i <= num_files,
            old(r)@.can_read(8 * i as nat),
            r@ == old(r)@.after_read(8 * i as nat),
            table@ == type_table_at(old(r)@.bytes, old(r)@.pos as int, i as nat),
        decreases num_files - i,
    {
        match read_file_type_entry(r) {
            Ok(entry) => {
                table.push(entry);
            },
            Err(e) => {
                return Err(e);
            },
        }
        i = i + 1;
    }
    Ok(table)
}

/// Reads one name entry of 88 bytes.
pub fn read_file_name_entry(r: &mut ByteSource) -> (res: Result<FileNameEntry, ExtractError>)
    ensures
        final(r)@ == old(r)@.after_read(88),
        match res {
            Ok(entry) => old(r)@.can_read(88) && entry@ == name_entry_at(
                old(r)@.bytes,
                old(r)@.pos as int,
            ),
            Err(e) => !old(r)@.can_read(88) && e == ExtractError::Io,
        },
{
    let ghost s = old(r)@;
    let sequence_index = match read_u32_le(r) {
        Ok(v) => v,
        Err(e) => { return Err(e); },
    };
    let name = match read_padded_string::<NAME_FIELD_SIZE>(r) {
        Ok(v) => v,
        Err(e) => { return Err(e); },
    };
    let format_tag = match read_u32_le(r) {
        Ok(v) => v,
        Err(e) => { return Err(e); },
    };
    let size_in_bytes = match read_u32_le(r) {
        Ok(v) => v,
        Err(e) => { return Err(e); },
    };
    let sample_rate = match read_u32_le(r) {
        Ok(v) => v,
        Err(e) => { return Err(e); },
    };
    let bit_depth_or_zero = match read_u32_le(r) {
        Ok(v) => v,
        Err(e) => { return Err(e); },
    };
    let channel_count_or_zero = match read_u32_le(r) {
        Ok(v) => v,
        Err(e) => { return Err(e); },
    };
    proof {
        lemma_peek_is_subrange(s, 4);
        lemma_peek_is_subrange(s.after_read(4), 64);
        lemma_peek_is_subrange(s.after_read(68), 4);
        lemma_peek_is_subrange(s.after_read(72), 4);
        lemma_peek_is_subrange(s.after_read(76), 4);
        lemma_peek_is_subrange(s.after_read(80), 4);
        lemma_peek_is_subrange(s.after_read(84), 4);
    }
    Ok(
        FileNameEntry {
            sequence_index,
            name,
            format_tag,
            size_in_bytes,
            sample_rate,
            bit_depth_or_zero,
            channel_count_or_zero,
        },
    )
}

/// Reads `num_files` name entries, in table order.
pub fn read_file_name_table(r: &mut ByteSource, num_files: u32) -> (res: Result<
    Vec<FileNameEntry>,
    ExtractError,
>)
    ensures
        final(r)@ == old(r)@.after_read(88 * num_files as nat),
        match res {
            Ok(table) => old(r)@.can_read(88 * num_files as nat) && name_views(table@)
                == name_table_at(old(r)@.bytes, old(r)@.pos as int, num_files as nat),
            Err(e) => !old(r)@.can_read(88 * num_files as nat) && e == ExtractError::Io,
        },
{
    let mut table: Vec<FileNameEntry> = Vec::new();
    let mut i: u32 = 0;
    while i < num_files
        invariant
            i <= num_files,
            old(r)@.can_read(88 * i as nat),
            r@ == old(r)@.after_read(88 * i as nat),
            name_views(table@) == name_table_at(old(r)@.bytes, old(r)@.pos as int, i as nat),
        decreases num_files - i,
    {
        match read_file_name_entry(r) {
            Ok(entry) => {
                let ghost before = table@;
                table.push(entry);
                assert(name_views(table@) =~= name_views(before).push(entry@));
            },
            Err(e) => {
                return Err(e);
            },
        }
        i = i + 1;
    }
    Ok(table)
}

} // verus!
