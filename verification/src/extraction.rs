//! Taking the embedded files out of an archive, one entry at a time.

use vstd::prelude::*;
use vstd::string::*;
use crate::directory::{directory_outcome, read_directory, Directory, DirectoryView};
use crate::entry::{name_entry_at, read_file_name_entry, FileTypeEntry, NameEntryView};
use crate::error::ExtractError;
use crate::source::{lemma_peek_is_subrange, read_bytes_vec, ByteSource};

verus! {

/// What became of one entry.
#[derive(Debug)]
pub enum Extraction {
    /// The next entry's descriptor starts right behind this entry's
    /// descriptor, so the file has no bytes. It is reported and skipped.
    Empty { name: String },
    /// The file's name and payload. `missing_riff` tells that the name ends in
    /// `.wav` although the payload does not start with `RIFF`; the payload is
    /// handed out all the same.
    File { name: String, bytes: Vec<u8>, missing_riff: bool },
}

/// An [`Extraction`] as a mathematical value.
pub enum ExtractionView {
    Empty { name: Seq<char> },
    File { name: Seq<char>, bytes: Seq<u8>, missing_riff: bool },
}

impl View for Extraction {
    type V = ExtractionView;

    open spec fn view(&self) -> ExtractionView {
        match self {
            Extraction::Empty { name } => ExtractionView::Empty { name: name@ },
            Extraction::File { name, bytes, missing_riff } => ExtractionView::File {
                name: name@,
                bytes: bytes@,
                missing_riff: *missing_riff,
            },
        }
    }
}

/// Whether a name ends in `.wav`.
pub open spec fn is_wav_name(name: Seq<char>) -> bool {
    &&& name.len() >= 4
    &&& name[name.len() - 4] == '.'
    &&& name[name.len() - 3] == 'w'
    &&& name[name.len() - 2] == 'a'
    &&& name[name.len() - 1] == 'v'
}

/// Whether a payload starts with the four bytes `RIFF`.
pub open spec fn starts_with_riff(payload: Seq<u8>) -> bool {
    &&& payload.len() >= 4
    &&& payload[0] == 0x52
    &&& payload[1] == 0x49
    &&& payload[2] == 0x46
    &&& payload[3] == 0x46
}

/// Tells whether `name` ends in `.wav`.
pub fn has_wav_extension(name: &str) -> (b: bool)
    ensures
        b == is_wav_name(name@),
{
    let n = name.unicode_len();
    if n < 4 {
        return false;
    }
    name.get_char(n - 4) == '.' && name.get_char(n - 3) == 'w' && name.get_char(n - 2) == 'a'
        && name.get_char(n - 1) == 'v'
}

/// Tells whether `payload` starts with `RIFF`.
pub fn has_riff_signature(payload: &[u8]) -> (b: bool)
    ensures
        b == starts_with_riff(payload@),
{
    payload.len() >= 4 && payload[0] == 0x52 && payload[1] == 0x49 && payload[2] == 0x46
        && payload[3] == 0x46
}

/// What extracting entry `index` gives. The descriptor in front of the
/// payload is read at the entry's offset. If the next entry starts right
/// behind it, the file is empty. Otherwise the descriptor must equal the
/// name table's copy, and the payload is as long as the descriptor says.
pub open spec fn entry_outcome(
    bytes: Seq<u8>,
    types: Seq<FileTypeEntry>,
    names: Seq<NameEntryView>,
    index: int,
) -> Result<ExtractionView, ExtractError>
    recommends
        0 <= index < types.len(),
        types.len() == names.len(),
{
    let offset = types[index].data_offset as int;
    let inline = name_entry_at(bytes, offset);
    let payload = bytes.subrange(offset + 88, offset + 88 + inline.size_in_bytes);
    if offset + 88 > bytes.len() {
        Err(ExtractError::Io)
    } else if index + 1 < types.len() && offset + 88 == types[index + 1].data_offset {
        Ok(ExtractionView::Empty { name: inline.name })
    } else if inline != names[index] {
        Err(ExtractError::Consistency { index: index as u32 })
    } else if offset + 88 + inline.size_in_bytes > bytes.len() {
        Err(ExtractError::Io)
    } else {
        Ok(
            ExtractionView::File {
                name: inline.name,
                bytes: payload,
                missing_riff: is_wav_name(inline.name) && !starts_with_riff(payload),
            },
        )
    }
}

/// An entry that is handed out as a file had a descriptor in front of its
/// payload that equals the name table's copy field for field; the file's name
/// is that descriptor's name, and its bytes are exactly the bytes that follow
/// the descriptor, as many as the descriptor declares.
pub proof fn lemma_extracted_file(
    bytes: Seq<u8>,
    types: Seq<FileTypeEntry>,
    names: Seq<NameEntryView>,
    index: int,
)
    requires
        0 <= index < types.len(),
        types.len() == names.len(),
        entry_outcome(bytes, types, names, index) matches Ok(ExtractionView::File { .. }),
    ensures
        ({
            let offset = types[index].data_offset as int;
            let inline = name_entry_at(bytes, offset);
            let file = entry_outcome(bytes, types, names, index)->Ok_0;
            &&& inline == names[index]
            &&& offset + 88 + inline.size_in_bytes <= bytes.len()
            &&& file->File_name == inline.name
            &&& file->File_bytes == bytes.subrange(offset + 88, offset + 88 + inline.size_in_bytes)
            &&& file->File_bytes.len() == inline.size_in_bytes
            &&& file->File_missing_riff == (is_wav_name(inline.name) && !starts_with_riff(
                file->File_bytes,
            ))
        }),
{
}

/// Where the descriptor in front of the payload can be read, the file is not
/// an empty one, and the descriptor differs from the name table's copy, the
/// entry is refused with a consistency error that names it.
pub proof fn lemma_mismatch_is_consistency_error(
    bytes: Seq<u8>,
    types: Seq<FileTypeEntry>,
    names: Seq<NameEntryView>,
    index: int,
)
    requires
        0 <= index < types.len(),
        types.len() == names.len(),
        types[index].data_offset + 88 <= bytes.len(),
        !(index + 1 < types.len() && types[index].data_offset + 88 == types[index
            + 1].data_offset),
        name_entry_at(bytes, types[index].data_offset as int) != names[index],
    ensures
        entry_outcome(bytes, types, names, index) == Err::<ExtractionView, ExtractError>(
            ExtractError::Consistency { index: index as u32 },
        ),
{
}

/// Extracts entry `index` of `dir` from the source, wherever the read
/// position was.
pub fn extract_entry(r: &mut ByteSource, dir: &Directory, index: u32) -> (res: Result<
    Extraction,
    ExtractError,
>)
    requires
        index < dir@.types.len(),
        dir@.types.len() == dir@.names.len(),
    ensures
        final(r)@.bytes == old(r)@.bytes,
        match res {
            Ok(extraction) => entry_outcome(old(r)@.bytes, dir@.types, dir@.names, index as int)
                == Ok::<ExtractionView, ExtractError>(extraction@),
            Err(e) => entry_outcome(old(r)@.bytes, dir@.types, dir@.names, index as int) == Err::<
                ExtractionView,
                ExtractError,
            >(e),
        },
{
    let i = index as usize;
    let num_files = dir.types.len();
    let offset = dir.types[i].data_offset;
    r.seek_from_start(offset as u64);
    let ghost s = r@;
    let inline = match read_file_name_entry(r) {
        Ok(entry) => entry,
        Err(e) => { return Err(e); },
    };
    if i + 1 < num_files && r.stream_position() == dir.types[i + 1].data_offset as u64 {
        return Ok(Extraction::Empty { name: inline.name });
    }
    if inline != dir.names[i] {
        return Err(ExtractError::Consistency { index });
    }
    let ghost t = r@;
    let bytes = match read_bytes_vec(r, inline.size_in_bytes as usize) {
        Ok(bytes) => bytes,
        Err(e) => { return Err(e); },
    };
    proof {
        lemma_peek_is_subrange(t, inline.size_in_bytes as nat);
    }
    let missing_riff = has_wav_extension(inline.name.as_str()) && !has_riff_signature(
        bytes.as_slice(),
    );
    Ok(Extraction::File { name: inline.name, bytes, missing_riff })
}

/// The result of extracting a whole archive: what became of the entries that
/// were reached, in order, and the error that stopped the run, if one did.
#[derive(Debug)]
pub struct ExtractionRun {
    pub outcomes: Vec<Extraction>,
    pub failure: Option<ExtractError>,
}

/// An [`ExtractionRun`] as a mathematical value.
pub struct ExtractionRunView {
    pub outcomes: Seq<ExtractionView>,
    pub failure: Option<ExtractError>,
}

/// The views of a sequence of extractions.
pub open spec fn extraction_views(outcomes: Seq<Extraction>) -> Seq<ExtractionView> {
    outcomes.map_values(|x: Extraction| x@)
}

impl View for ExtractionRun {
    type V = ExtractionRunView;

    open spec fn view(&self) -> ExtractionRunView {
        ExtractionRunView { outcomes: extraction_views(self.outcomes@), failure: self.failure }
    }
}

/// The run over the first `upto` entries: entries are taken in ascending
/// order, and the first error ends the run.
#[verifier::opaque]
pub open spec fn run_upto(
    bytes: Seq<u8>,
    types: Seq<FileTypeEntry>,
    names: Seq<NameEntryView>,
    upto: nat,
) -> ExtractionRunView
    recommends
        upto <= types.len(),
        types.len() == names.len(),
    decreases upto,
{
    if upto == 0 {
        ExtractionRunView { outcomes: Seq::empty(), failure: None }
    } else {
        let before = run_upto(bytes, types, names, (upto - 1) as nat);
        if before.failure is Some {
            before
        } else {
            match entry_outcome(bytes, types, names, upto - 1) {
                Ok(extraction) => ExtractionRunView {
                    outcomes: before.outcomes.push(extraction),
                    failure: None,
                },
                Err(e) => ExtractionRunView { outcomes: before.outcomes, failure: Some(e) },
            }
        }
    }
}

/// What extracting all of `bytes` gives: nothing but the error when the
/// directory cannot be read, else the run over all of its entries.
pub open spec fn run_outcome(bytes: Seq<u8>) -> ExtractionRunView {
    match directory_outcome(bytes) {
        Err(e) => ExtractionRunView { outcomes: Seq::empty(), failure: Some(e) },
        Ok(dir) => run_upto(bytes, dir.types, dir.names, dir.types.len()),
    }
}

/// How a run grows by one entry.
pub proof fn lemma_run_step(
    bytes: Seq<u8>,
    types: Seq<FileTypeEntry>,
    names: Seq<NameEntryView>,
    upto: nat,
)
    ensures
        upto == 0 ==> run_upto(bytes, types, names, upto) == (ExtractionRunView {
            outcomes: Seq::empty(),
            failure: None,
        }),
        upto > 0 ==> run_upto(bytes, types, names, upto) == ({
            let before = run_upto(bytes, types, names, (upto - 1) as nat);
            if before.failure is Some {
                before
            } else {
                match entry_outcome(bytes, types, names, upto - 1) {
                    Ok(extraction) => ExtractionRunView {
                        outcomes: before.outcomes.push(extraction),
                        failure: None,
                    },
                    Err(e) => ExtractionRunView { outcomes: before.outcomes, failure: Some(e) },
                }
            }
        }),
{
    reveal_with_fuel(run_upto, 2);
}

/// A run that has failed stays as it is, however many entries follow.
pub proof fn lemma_failed_run_stays(
    bytes: Seq<u8>,
    types: Seq<FileTypeEntry>,
    names: Seq<NameEntryView>,
    upto: nat,
    more: nat,
)
    requires
        upto <= more,
        run_upto(bytes, types, names, upto).failure is Some,
    ensures
        run_upto(bytes, types, names, more) == run_upto(bytes, types, names, upto),
    decreases more,
{
    if upto < more {
        lemma_failed_run_stays(bytes, types, names, upto, (more - 1) as nat);
        lemma_run_step(bytes, types, names, more);
    }
}

/// An entry whose descriptor is followed at once by the next entry's
/// descriptor is reported as empty, whatever the name table says of it, and a
/// run that has reached it goes on to the entry after it.
pub proof fn lemma_empty_file_skipped(
    bytes: Seq<u8>,
    types: Seq<FileTypeEntry>,
    names: Seq<NameEntryView>,
    index: int,
)
    requires
        0 <= index,
        index + 1 < types.len(),
        types.len() == names.len(),
        types[index].data_offset + 88 <= bytes.len(),
        types[index].data_offset + 88 == types[index + 1].data_offset,
    ensures
        ({
            let empty = ExtractionView::Empty {
                name: name_entry_at(bytes, types[index].data_offset as int).name,
            };
            let before = run_upto(bytes, types, names, index as nat);
            let after = run_upto(bytes, types, names, (index + 2) as nat);
            &&& entry_outcome(bytes, types, names, index) == Ok::<ExtractionView, ExtractError>(
                empty,
            )
            &&& before.failure is None ==> match entry_outcome(bytes, types, names, index + 1) {
                Ok(next) => after == (ExtractionRunView {
                    outcomes: before.outcomes.push(empty).push(next),
                    failure: None,
                }),
                Err(e) => after == (ExtractionRunView {
                    outcomes: before.outcomes.push(empty),
                    failure: Some(e),
                }),
            }
        }),
{
    lemma_run_step(bytes, types, names, (index + 1) as nat);
    lemma_run_step(bytes, types, names, (index + 2) as nat);
}

/// Reads the directory of `data` and extracts every entry in ascending order,
/// up to the first error.
pub fn extract_all(data: &[u8]) -> (run: ExtractionRun)
    ensures
        run@ == run_outcome(data@),
{
    let mut r = ByteSource::new(data);
    let dir = match read_directory(&mut r) {
        Ok(dir) => dir,
        Err(e) => {
            let run = ExtractionRun { outcomes: Vec::new(), failure: Some(e) };
            assert(run@.outcomes =~= Seq::empty());
            return run;
        },
    };
    let num_files = dir.types.len();
    let ghost types = dir@.types;
    let ghost names = dir@.names;
    let mut outcomes: Vec<Extraction> = Vec::new();
    let mut index: u32 = 0;
    proof {
        lemma_run_step(data@, types, names, 0);
        assert(extraction_views(outcomes@) =~= Seq::empty());
    }
    while (index as usize) < num_files
        invariant
            r@.bytes == data@,
            directory_outcome(data@) == Ok::<DirectoryView, ExtractError>(dir@),
            types == dir@.types,
            names == dir@.names,
            num_files == types.len(),
            types.len() == names.len(),
            num_files <= u32::MAX,
            index <= num_files,
            run_upto(data@, types, names, index as nat).failure is None,
            run_upto(data@, types, names, index as nat).outcomes == extraction_views(outcomes@),
        decreases num_files - index,
    {
        proof {
            lemma_run_step(data@, types, names, index as nat + 1);
        }
        match extract_entry(&mut r, &dir, index) {
            Ok(extraction) => {
                let ghost before = outcomes@;
                outcomes.push(extraction);
                assert(extraction_views(outcomes@) =~= extraction_views(before).push(
                    extraction@,
                ));
            },
            Err(e) => {
                proof {
                    lemma_failed_run_stays(data@, types, names, index as nat + 1, num_files as nat);
                }
                return ExtractionRun { outcomes, failure: Some(e) };
            },
        }
        index = index + 1;
    }
    ExtractionRun { outcomes, failure: None }
}

} // verus!
