//! Byte-level arithmetic on the machine words of the debugged target.
//!
//! The tracing interface moves memory one aligned word at a time, so a
//! single instruction byte is patched by rewriting the word that holds it.

use vstd::prelude::*;

verus! {

/// Number of bytes in one machine word of the target.
pub const WORD_BYTES: usize = 8;

/// The single-byte instruction that raises a debug trap.
pub const TRAP_OPCODE: u8 = 0xcc;

/// How far past a trap instruction the program counter rests once the trap
/// has been taken.
pub const TRAP_LENGTH: usize = 1;

/// The largest multiple of the word size that does not exceed `addr`.
pub open spec fn word_base(addr: usize) -> usize {
    (addr - addr % WORD_BYTES) as usize
}

/// The position of the byte at `addr` inside its word.
pub open spec fn word_offset(addr: usize) -> usize {
    addr % WORD_BYTES
}

/// The byte stored `offset` bytes above the least significant end of `word`.
pub open spec fn byte_at(word: u64, offset: usize) -> u8 {
    ((word >> (8 * (offset as u64)) as u64) & 0xff) as u8
}

/// `word` with the byte at `offset` replaced by `byte`.
pub open spec fn with_byte(word: u64, offset: usize, byte: u8) -> u64 {
    (word & !(0xffu64 << (8 * (offset as u64)) as u64)) | ((byte as u64) << (8 * (offset as u64)) as u64)
}

/// Rounds `addr` down to the start of the machine word that contains it.
pub fn align_addr_to_word(addr: usize) -> (aligned: usize)
    ensures
        aligned == word_base(addr),
        aligned % WORD_BYTES == 0,
        aligned <= addr < aligned + WORD_BYTES,
{
    addr - addr % WORD_BYTES
}

/// The distance of `addr` from the start of its word.
pub fn byte_offset(addr: usize) -> (offset: usize)
    ensures
        offset == word_offset(addr),
        offset < WORD_BYTES,
        word_base(addr) + offset == addr,
{
    addr % WORD_BYTES
}

/// Reads one byte out of a word.
pub fn extract_byte(word: u64, offset: usize) -> (byte: u8)
    requires
        offset < WORD_BYTES,
    ensures
        byte == byte_at(word, offset),
{
    let shift: u64 = 8 * (offset as u64);
    let low: u64 = (word >> shift) & 0xff;
    assert(low <= 0xff) by (bit_vector)
        requires
            low == (word >> shift) & 0xff,
    ;
    low as u8
}

/// Replaces one byte of a word and leaves the other seven as they were.
pub fn replace_byte(word: u64, offset: usize, byte: u8) -> (patched: u64)
    requires
        offset < WORD_BYTES,
    ensures
        patched == with_byte(word, offset, byte),
{
    let shift: u64 = 8 * (offset as u64);
    let masked: u64 = word & !(0xffu64 << shift);
    masked | ((byte as u64) << shift)
}

/// A byte written into a word is the byte read back from that position.
pub proof fn law_patched_byte_reads_back(word: u64, offset: usize, byte: u8)
    requires
        offset < WORD_BYTES,
    ensures
        byte_at(with_byte(word, offset, byte), offset) == byte,
{
    let o = offset as u64;
    assert(((((word & !(0xffu64 << (8 * o) as u64)) | ((byte as u64) << (8 * o) as u64)) >> (8 * o) as u64)
        & 0xff) as u8 == byte) by (bit_vector)
        requires
            o < 8,
    ;
}

/// Patching one byte of a word leaves every other byte of it untouched.
pub proof fn law_patch_keeps_other_bytes(word: u64, offset: usize, byte: u8, other: usize)
    requires
        offset < WORD_BYTES,
        other < WORD_BYTES,
        other != offset,
    ensures
        byte_at(with_byte(word, offset, byte), other) == byte_at(word, other),
{
    let o = offset as u64;
    let p = other as u64;
    assert(((((word & !(0xffu64 << (8 * o) as u64)) | ((byte as u64) << (8 * o) as u64)) >> (8 * p) as u64)
        & 0xff) as u8 == ((word >> (8 * p) as u64) & 0xff) as u8) by (bit_vector)
        requires
            o < 8,
            p < 8,
            o != p,
    ;
}

/// Writing a byte and then writing back the byte it displaced restores the
/// word exactly.
pub proof fn law_patch_round_trip(word: u64, offset: usize, byte: u8)
    requires
        offset < WORD_BYTES,
    ensures
        with_byte(with_byte(word, offset, byte), offset, byte_at(word, offset)) == word,
{
    let o = offset as u64;
    let orig = byte_at(word, offset);
    let once = with_byte(word, offset, byte);
    assert(orig == ((word >> (8 * o) as u64) & 0xff) as u8);
    assert(once == (word & !(0xffu64 << (8 * o) as u64)) | ((byte as u64) << (8 * o) as u64));
    assert(((once & !(0xffu64 << (8 * o) as u64)) | ((orig as u64) << (8 * o) as u64)) == word)
        by (bit_vector)
        requires
            o < 8,
            orig == ((word >> (8 * o) as u64) & 0xff) as u8,
            once == (word & !(0xffu64 << (8 * o) as u64)) | ((byte as u64) << (8 * o) as u64),
    ;
}

/// Two words that agree on all eight bytes are the same word.
pub proof fn law_words_equal_by_bytes(a: u64, b: u64)
    requires
        forall|offset: usize| offset < WORD_BYTES ==> byte_at(a, offset) == byte_at(b, offset),
    ensures
        a == b,
{
    assert(byte_at(a, 0) == byte_at(b, 0));
    assert(byte_at(a, 1) == byte_at(b, 1));
    assert(byte_at(a, 2) == byte_at(b, 2));
    assert(byte_at(a, 3) == byte_at(b, 3));
    assert(byte_at(a, 4) == byte_at(b, 4));
    assert(byte_at(a, 5) == byte_at(b, 5));
    assert(byte_at(a, 6) == byte_at(b, 6));
    assert(byte_at(a, 7) == byte_at(b, 7));
    assert(a == b) by (bit_vector)
        requires
            ((a >> 0u64) & 0xff) as u8 == ((b >> 0u64) & 0xff) as u8,
            ((a >> 8u64) & 0xff) as u8 == ((b >> 8u64) & 0xff) as u8,
            ((a >> 16u64) & 0xff) as u8 == ((b >> 16u64) & 0xff) as u8,
            ((a >> 24u64) & 0xff) as u8 == ((b >> 24u64) & 0xff) as u8,
            ((a >> 32u64) & 0xff) as u8 == ((b >> 32u64) & 0xff) as u8,
            ((a >> 40u64) & 0xff) as u8 == ((b >> 40u64) & 0xff) as u8,
            ((a >> 48u64) & 0xff) as u8 == ((b >> 48u64) & 0xff) as u8,
            ((a >> 56u64) & 0xff) as u8 == ((b >> 56u64) & 0xff) as u8,
    ;
}

} // verus!
