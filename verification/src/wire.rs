//! Little-endian numbers in byte buffers.
use vstd::bytes::{
    spec_u32_from_le_bytes, spec_u32_to_le_bytes, spec_u64_from_le_bytes, spec_u64_to_le_bytes,
    u32_from_le_bytes, u32_to_le_bytes, u64_from_le_bytes, u64_to_le_bytes,
};
use vstd::prelude::*;
use vstd::slice::slice_subrange;

verus! {

/// The number in the four bytes at `at`.
pub open spec fn le_u32(s: Seq<u8>, at: int) -> u32 {
    spec_u32_from_le_bytes(s.subrange(at, at + 4))
}

/// The number in the eight bytes at `at`.
pub open spec fn le_u64(s: Seq<u8>, at: int) -> u64 {
    spec_u64_from_le_bytes(s.subrange(at, at + 8))
}

/// `s` with `piece` in place of what stood at `at`.
pub open spec fn with_bytes(s: Seq<u8>, at: int, piece: Seq<u8>) -> Seq<u8> {
    s.take(at) + piece + s.skip(at + piece.len())
}

/// `s` with a number in the four bytes at `at`.
pub open spec fn with_u32(s: Seq<u8>, at: int, value: u32) -> Seq<u8> {
    with_bytes(s, at, spec_u32_to_le_bytes(value))
}

/// `s` with a number in the eight bytes at `at`.
pub open spec fn with_u64(s: Seq<u8>, at: int, value: u64) -> Seq<u8> {
    with_bytes(s, at, spec_u64_to_le_bytes(value))
}

/// The number in the four bytes at `offset`.
pub fn read_u32(buf: &[u8], offset: usize) -> (x: u32)
    requires
        offset + 4 <= buf@.len(),
    ensures
        x == le_u32(buf@, offset as int),
{
    let n: usize = buf.len();
    assert(offset + 4 <= n);
    u32_from_le_bytes(slice_subrange(buf, offset, offset + 4))
}

/// The number in the eight bytes at `offset`.
pub fn read_u64(buf: &[u8], offset: usize) -> (x: u64)
    requires
        offset + 8 <= buf@.len(),
    ensures
        x == le_u64(buf@, offset as int),
{
    let n: usize = buf.len();
    assert(offset + 8 <= n);
    u64_from_le_bytes(slice_subrange(buf, offset, offset + 8))
}

/// Puts `piece` in place of what stands at `offset`.
fn write_bytes(buf: &mut Vec<u8>, offset: usize, piece: &Vec<u8>)
    requires
        offset + piece@.len() <= old(buf)@.len(),
    ensures
        final(buf)@ == with_bytes(old(buf)@, offset as int, piece@),
{
    let ghost given = buf@;
    let n: usize = buf.len();
    let mut i: usize = 0;
    while i < piece.len()
        invariant
            n == given.len(),
            given == old(buf)@,
            offset + piece@.len() <= given.len(),
            i <= piece@.len(),
            buf@.len() == given.len(),
            forall|j: int|
                0 <= j < buf@.len() ==> #[trigger] buf@[j] == (if offset <= j < offset + i {
                    piece@[j - offset]
                } else {
                    given[j]
                }),
        decreases piece@.len() - i,
    {
        buf.set(offset + i, piece[i]);
        i = i + 1;
    }
    assert(buf@ =~= with_bytes(given, offset as int, piece@));
}

/// Writes a number to the four bytes at `offset`.
pub fn write_u32(buf: &mut Vec<u8>, offset: usize, value: u32)
    requires
        offset + 4 <= old(buf)@.len(),
    ensures
        final(buf)@ == with_u32(old(buf)@, offset as int, value),
{
    let piece = u32_to_le_bytes(value);
    write_bytes(buf, offset, &piece);
}

/// Writes a number to the eight bytes at `offset`.
pub fn write_u64(buf: &mut Vec<u8>, offset: usize, value: u64)
    requires
        offset + 8 <= old(buf)@.len(),
    ensures
        final(buf)@ == with_u64(old(buf)@, offset as int, value),
{
    let piece = u64_to_le_bytes(value);
    write_bytes(buf, offset, &piece);
}

/// The law of buffers: what was written is read back, and what was written elsewhere
/// stays as it was.
pub proof fn reads_give_back_writes(s: Seq<u8>, at: int, value: u64, other: int)
    requires
        0 <= at,
        at + 8 <= s.len(),
        0 <= other,
        other + 8 <= s.len(),
        other + 8 <= at || at + 8 <= other,
    ensures
        le_u64(with_u64(s, at, value), at) == value,
        le_u64(with_u64(s, at, value), other) == le_u64(s, other),
{
    vstd::bytes::lemma_auto_spec_u64_to_from_le_bytes();
    let piece = spec_u64_to_le_bytes(value);
    let w = with_bytes(s, at, piece);
    assert(w.subrange(at, at + 8) =~= piece);
    assert(w.subrange(other, other + 8) =~= s.subrange(other, other + 8));
}

/// The same of the shorter numbers.
pub proof fn short_reads_give_back_writes(s: Seq<u8>, at: int, value: u32, other: int)
    requires
        0 <= at,
        at + 4 <= s.len(),
        0 <= other,
        other + 4 <= s.len(),
        other + 4 <= at || at + 4 <= other,
    ensures
        le_u32(with_u32(s, at, value), at) == value,
        le_u32(with_u32(s, at, value), other) == le_u32(s, other),
{
    vstd::bytes::lemma_auto_spec_u32_to_from_le_bytes();
    let piece = spec_u32_to_le_bytes(value);
    let w = with_bytes(s, at, piece);
    assert(w.subrange(at, at + 4) =~= piece);
    assert(w.subrange(other, other + 4) =~= s.subrange(other, other + 4));
}

} // verus!
