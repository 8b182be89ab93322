//! Byte surgery on machine words.
//!
//! The tracing interface moves debuggee memory one 64-bit little-endian word at
//! a time, so changing a single byte means reading the word that holds it,
//! replacing eight bits, and writing the word back.

use vstd::prelude::*;

verus! {

/// Bytes in one machine word of the debuggee.
pub const WORD_BYTES: usize = 8;

/// The one-byte trap instruction that is written over a breakpoint address.
pub const TRAP_BYTE: u8 = 0xcc;

/// The start of the word that holds `addr`.
pub open spec fn word_base(addr: int) -> int {
    addr - addr % 8
}

/// The position of `addr` inside the word that holds it.
pub open spec fn word_offset(addr: int) -> int {
    addr % 8
}

/// The byte at position `offset` of `word`, position 0 being the least
/// significant byte.
pub open spec fn byte_at(word: u64, offset: u64) -> u8 {
    ((word >> (8 * offset)) & 0xff) as u8
}

/// `word` with the byte at position `offset` replaced by `val`.
pub open spec fn with_byte(word: u64, offset: u64, val: u8) -> u64 {
    (word & !(0xffu64 << (8 * offset))) | ((val as u64) << (8 * offset))
}

/// The eight bytes of `word`, least significant first.
pub open spec fn word_bytes(word: u64) -> Seq<u8> {
    Seq::new(8, |i: int| byte_at(word, i as u64))
}

/// Rounds `addr` down to the start of the word that holds it.
pub fn align_addr_to_word(addr: usize) -> (base: usize)
    ensures
        base as int == word_base(addr as int),
        base % 8 == 0,
        base <= addr < base + 8,
{
    assert(addr & !7usize == addr - addr % 8) by (bit_vector);
    addr & !7usize
}

/// The position of `addr` inside its word.
pub fn offset_in_word(addr: usize) -> (offset: usize)
    ensures
        offset as int == word_offset(addr as int),
        offset < 8,
        offset == addr - word_base(addr as int),
{
    addr - align_addr_to_word(addr)
}

/// Reads the byte at position `offset` of `word`.
pub fn extract_byte(word: u64, offset: usize) -> (byte: u8)
    requires
        offset < 8,
    ensures
        byte == byte_at(word, offset as u64),
        byte == word_bytes(word)[offset as int],
{
    let k: u64 = offset as u64;
    assert(8 * k < 64 && ((word >> (8 * k)) & 0xff) < 256) by (bit_vector)
        requires
            k < 8,
    ;
    ((word >> (8 * k)) & 0xff) as u8
}

/// Replaces the byte at position `offset` of `word` by `val` and leaves the
/// other seven bytes as they were.
pub fn replace_byte(word: u64, offset: usize, val: u8) -> (updated: u64)
    requires
        offset < 8,
    ensures
        updated == with_byte(word, offset as u64, val),
        word_bytes(updated) == word_bytes(word).update(offset as int, val),
{
    let k: u64 = offset as u64;
    assert(8 * k < 64) by (bit_vector)
        requires
            k < 8,
    ;
    let masked: u64 = word & !(0xffu64 << (8 * k));
    let updated: u64 = masked | ((val as u64) << (8 * k));
    proof {
        lemma_with_byte_bytes(word, k, val);
    }
    updated
}

/// One byte patch of a word: the byte that was at `offset`, and the word with
/// `val` in its place.
pub fn patch_word(word: u64, offset: usize, val: u8) -> (r: (u8, u64))
    requires
        offset < 8,
    ensures
        r.0 == byte_at(word, offset as u64),
        r.1 == with_byte(word, offset as u64, val),
        word_bytes(r.1) == word_bytes(word).update(offset as int, val),
{
    (extract_byte(word, offset), replace_byte(word, offset, val))
}

/// The bytes of a word after one of them was replaced: the new byte at the
/// position replaced, and the old one at every other.
pub proof fn lemma_with_byte_at(word: u64, offset: u64, val: u8, other: u64)
    by (bit_vector)
    requires
        offset < 8,
        other < 8,
    ensures
        byte_at(with_byte(word, offset, val), other) == if other == offset {
            val
        } else {
            byte_at(word, other)
        },
{
}

/// Replacing one byte of a word changes that byte and no other.
pub proof fn lemma_with_byte_bytes(word: u64, offset: u64, val: u8)
    requires
        offset < 8,
    ensures
        word_bytes(with_byte(word, offset, val)) == word_bytes(word).update(offset as int, val),
{
    let patched = with_byte(word, offset, val);
    assert forall|i: int| 0 <= i < 8 implies word_bytes(patched)[i] == word_bytes(word).update(
        offset as int,
        val,
    )[i] by {
        lemma_with_byte_at(word, offset, val, i as u64);
    }
    assert(word_bytes(patched) =~= word_bytes(word).update(offset as int, val));
}

/// A word is determined by its eight bytes.
pub proof fn lemma_word_bytes_injective(a: u64, b: u64)
    requires
        word_bytes(a) == word_bytes(b),
    ensures
        a == b,
{
    assert forall|k: u64| k < 8 implies #[trigger] byte_at(a, k) == byte_at(b, k) by {
        let i = k as int;
        assert(i as u64 == k);
        assert(word_bytes(a)[i] == byte_at(a, i as u64));
        assert(word_bytes(b)[i] == byte_at(b, i as u64));
    }
    lemma_bytes_determine_word(a, b);
}

proof fn lemma_bytes_determine_word(a: u64, b: u64)
    by (bit_vector)
    requires
        byte_at(a, 0) == byte_at(b, 0),
        byte_at(a, 1) == byte_at(b, 1),
        byte_at(a, 2) == byte_at(b, 2),
        byte_at(a, 3) == byte_at(b, 3),
        byte_at(a, 4) == byte_at(b, 4),
        byte_at(a, 5) == byte_at(b, 5),
        byte_at(a, 6) == byte_at(b, 6),
        byte_at(a, 7) == byte_at(b, 7),
    ensures
        a == b,
{
}

/// Writing a byte over a word and then writing the displaced byte back gives
/// the word that was there at the start, bit for bit.
pub proof fn lemma_patch_round_trip(word: u64, offset: u64, val: u8)
    by (bit_vector)
    requires
        offset < 8,
    ensures
        with_byte(with_byte(word, offset, val), offset, byte_at(word, offset)) == word,
{
}

/// A second patch of the same position displaces exactly the byte that the
/// first one wrote.
pub proof fn lemma_patch_reads_back(word: u64, offset: u64, val: u8)
    by (bit_vector)
    requires
        offset < 8,
    ensures
        byte_at(with_byte(word, offset, val), offset) == val,
{
}

} // verus!
