//! An in-memory, seekable byte source and the primitive reads on it.

use vstd::prelude::*;
use vstd::slice::*;
use byteorder::{ByteOrder, LittleEndian};
use crate::error::ExtractError;

verus! {

/// What a [`ByteSource`] stands for: all of its bytes and the read position.
pub struct SourceState {
    pub bytes: Seq<u8>,
    pub pos: nat,
}

impl SourceState {
    /// The bytes from the read position to the end; none when the position
    /// lies beyond the end.
    pub open spec fn unread(self) -> Seq<u8> {
        if self.pos <= self.bytes.len() {
            self.bytes.skip(self.pos as int)
        } else {
            Seq::empty()
        }
    }

    /// Whether `n` more bytes can be read.
    pub open spec fn can_read(self, n: nat) -> bool {
        n <= self.unread().len()
    }

    /// The next `n` bytes.
    pub open spec fn peek(self, n: nat) -> Seq<u8>
        recommends
            self.can_read(n),
    {
        self.unread().take(n as int)
    }

    /// The state after an attempt to read `n` bytes: past them when they were
    /// there, at the end of the source when they were not.
    pub open spec fn after_read(self, n: nat) -> SourceState {
        if self.can_read(n) {
            SourceState { bytes: self.bytes, pos: self.pos + n }
        } else {
            SourceState { bytes: self.bytes, pos: self.bytes.len() }
        }
    }
}

/// The bytes that a successful read returns are the ones that lie between
/// the old and the new position.
pub proof fn lemma_peek_is_subrange(s: SourceState, n: nat)
    requires
        s.can_read(n),
        s.pos <= s.bytes.len(),
    ensures
        s.pos + n <= s.bytes.len(),
        s.peek(n) == s.bytes.subrange(s.pos as int, s.pos as int + n),
{
    assert(s.peek(n) =~= s.bytes.subrange(s.pos as int, s.pos as int + n));
}

/// A read cursor over a borrowed byte slice.
pub struct ByteSource<'a> {
    data: &'a [u8],
    pos: u64,
}

impl<'a> View for ByteSource<'a> {
    type V = SourceState;

    closed spec fn view(&self) -> SourceState {
        SourceState { bytes: self.data@, pos: self.pos as nat }
    }
}

impl<'a> ByteSource<'a> {
    /// A source over `data`, positioned at its first byte.
    pub fn new(data: &'a [u8]) -> (r: Self)
        ensures
            r@ == (SourceState { bytes: data@, pos: 0 }),
    {
        ByteSource { data, pos: 0 }
    }

    /// The total number of bytes in the source.
    pub fn stream_len(&self) -> (n: u64)
        ensures
            n == self@.bytes.len(),
    {
        self.data.len() as u64
    }

    /// The current read position.
    pub fn stream_position(&self) -> (p: u64)
        ensures
            p == self@.pos,
    {
        self.pos
    }

    /// Moves the read position to `pos` bytes from the start. Any position is
    /// accepted; one beyond the end leaves nothing to read.
    pub fn seek_from_start(&mut self, pos: u64)
        ensures
            final(self)@ == (SourceState { bytes: old(self)@.bytes, pos: pos as nat }),
    {
        self.pos = pos;
    }
}

/// Reads exactly `len` bytes.
pub fn read_bytes_vec(r: &mut ByteSource, len: usize) -> (res: Result<Vec<u8>, ExtractError>)
    ensures
        final(r)@ == old(r)@.after_read(len as nat),
        match res {
            Ok(v) => old(r)@.can_read(len as nat) && v@ == old(r)@.peek(len as nat),
            Err(e) => !old(r)@.can_read(len as nat) && e == ExtractError::Io,
        },
{
    let total = r.data.len();
    let start = if r.pos <= total as u64 { r.pos as usize } else { total };
    if len > total - start {
        r.pos = total as u64;
        return Err(ExtractError::Io);
    }
    let v = slice_to_vec(slice_subrange(r.data, start, start + len));
    r.pos = r.pos + len as u64;
    Ok(v)
}

/// Reads exactly `N` bytes into an array.
pub fn read_bytes_arr<const N: usize>(r: &mut ByteSource) -> (res: Result<[u8; N], ExtractError>)
    ensures
        final(r)@ == old(r)@.after_read(N as nat),
        match res {
            Ok(arr) => old(r)@.can_read(N as nat) && arr@ == old(r)@.peek(N as nat),
            Err(e) => !old(r)@.can_read(N as nat) && e == ExtractError::Io,
        },
{
    let total = r.data.len();
    let start = if r.pos <= total as u64 { r.pos as usize } else { total };
    if N > total - start {
        r.pos = total as u64;
        return Err(ExtractError::Io);
    }
    let mut arr = [0u8; N];
    let mut i: usize = 0;
    while i < N
        invariant
            i <= N,
            total == r.data@.len(),
            start + N <= total,
            forall|j: int| 0 <= j < i ==> arr@[j] == r.data@[start + j],
        decreases N - i,
    {
        arr[i] = r.data[start + i];
        i = i + 1;
    }
    r.pos = r.pos + N as u64;
    assert(arr@ =~= old(r)@.peek(N as nat));
    Ok(arr)
}

/// The number that four bytes spell in little-endian order.
pub open spec fn le_u32(b: Seq<u8>) -> u32
    recommends
        b.len() == 4,
{
    (b[0] + b[1] * 0x100 + b[2] * 0x1_0000 + b[3] * 0x100_0000) as u32
}

/// Decodes four bytes with `byteorder::LittleEndian::read_u32`, which hands
/// the first four bytes of its argument to `u32::from_le_bytes`. The contract
/// claims that the result is the little-endian value of those bytes; the
/// argument's type keeps the call away from the shorter slices on which the
/// outside function panics.
#[verifier::external_body]
fn decode_u32_le(buf: &[u8; 4]) -> (v: u32)
    ensures
        v == le_u32(buf@),
{
    LittleEndian::read_u32(buf)
}

/// Reads four bytes and decodes them as a little-endian 32-bit number.
pub fn read_u32_le(r: &mut ByteSource) -> (res: Result<u32, ExtractError>)
    ensures
        final(r)@ == old(r)@.after_read(4),
        match res {
            Ok(v) => old(r)@.can_read(4) && v == le_u32(old(r)@.peek(4)),
            Err(e) => !old(r)@.can_read(4) && e == ExtractError::Io,
        },
{
    match read_bytes_arr::<4>(r) {
        Ok(buf) => Ok(decode_u32_le(&buf)),
        Err(e) => Err(e),
    }
}

/// The text held in a nul-padded field: one character per byte, up to the
/// first zero byte or the end of the field.
pub open spec fn padded_text(field: Seq<u8>) -> Seq<char> {
    let end = match field.index_of_first(0u8) {
        Some(i) => i,
        None => field.len() as int,
    };
    field.take(end).map_values(|b: u8| b as char)
}

/// The text of a field is its longest start without a zero byte, each byte
/// taken as the character of the same number.
pub proof fn lemma_padded_text(field: Seq<u8>)
    ensures
        padded_text(field).len() <= field.len(),
        forall|i: int|
            0 <= i < padded_text(field).len() ==> field[i] != 0 && #[trigger] padded_text(
                field,
            )[i] == field[i] as char,
        padded_text(field).len() < field.len() ==> field[padded_text(field).len() as int] == 0,
{
    field.index_of_first_ensures(0u8);
}

/// `String::push` of the standard library, which appends one character to
/// the end of a string. The contract claims just that: the string afterwards
/// is the string before with `ch` as its new last character.
pub assume_specification[ String::push ](s: &mut String, ch: char)
    ensures
        final(s)@ == old(s)@.push(ch),
;

/// Reads a nul-padded text field of `N` bytes.
pub fn read_padded_string<const N: usize>(r: &mut ByteSource) -> (res: Result<String, ExtractError>)
    ensures
        final(r)@ == old(r)@.after_read(N as nat),
        match res {
            Ok(s) => old(r)@.can_read(N as nat) && s@ == padded_text(old(r)@.peek(N as nat)),
            Err(e) => !old(r)@.can_read(N as nat) && e == ExtractError::Io,
        },
{
    let bytes = match read_bytes_arr::<N>(r) {
        Ok(bytes) => bytes,
        Err(e) => { return Err(e); },
    };
    let mut s = String::new();
    let mut i: usize = 0;
    while i < N && bytes[i] != 0
        invariant
            i <= N,
            bytes@.len() == N,
            forall|j: int| 0 <= j < i ==> bytes@[j] != 0,
            s@ == bytes@.take(i as int).map_values(|b: u8| b as char),
        decreases N - i,
    {
        s.push(bytes[i] as char);
        i = i + 1;
        assert(s@ =~= bytes@.take(i as int).map_values(|b: u8| b as char));
    }
    proof {
        bytes@.index_of_first_ensures(0u8);
    }
    Ok(s)
}

} // verus!
