//! Words of a traced process's memory, seen as eight little-endian bytes.
//!
//! The tracing facility reads and writes whole words. A breakpoint changes one
//! byte, so every patch is a read of the enclosing word, a change of one of its
//! bytes, and a write of the whole word.

use vstd::prelude::*;
use vstd::bytes::{
    lemma_auto_spec_u64_to_from_le_bytes, spec_u64_from_le_bytes, spec_u64_to_le_bytes,
    spec_u64_to_le_bytes_open, spec_u64_to_le_bytes_to_open,
};

verus! {

/// The one-byte instruction that stops the traced process and hands control to
/// the tracer.
pub const TRAP_BYTE: u8 = 0xcc;

/// Bytes in one word of the traced process's memory.
pub const WORD_BYTES: usize = 8;

/// The start of the word that holds `addr`.
pub open spec fn word_base(addr: usize) -> usize {
    (addr - addr % 8) as usize
}

/// The place of `addr` inside its word, from 0 to 7.
pub open spec fn byte_offset(addr: usize) -> int {
    addr as int % 8
}

/// The bytes of a word in the order in which they lie in memory.
pub open spec fn word_bytes(word: u64) -> Seq<u8> {
    spec_u64_to_le_bytes(word)
}

/// The word that `word` becomes when its byte at `offset` is set to `val`.
pub open spec fn patched(word: u64, offset: int, val: u8) -> u64 {
    spec_u64_from_le_bytes(word_bytes(word).update(offset, val))
}

/// The byte at `addr` in a memory that is given by the word at each word
/// boundary.
pub open spec fn byte_at(memory: Map<usize, u64>, addr: usize) -> u8 {
    word_bytes(memory[word_base(addr)])[byte_offset(addr)]
}

/// The memory after the byte at `addr` was set to `val` the way a patch does
/// it: the word around `addr` is replaced by the same word with one byte
/// changed.
pub open spec fn written(memory: Map<usize, u64>, addr: usize, val: u8) -> Map<usize, u64> {
    memory.insert(word_base(addr), patched(memory[word_base(addr)], byte_offset(addr), val))
}

/// Rounds an address down to the word boundary at or below it.
pub fn align_addr_to_word(addr: usize) -> (aligned: usize)
    ensures
        aligned == word_base(addr),
        aligned <= addr < aligned + 8,
        aligned % 8 == 0,
{
    let aligned: usize = addr & !(WORD_BYTES - 1);
    assert(addr & !7usize == addr - addr % 8) by (bit_vector);
    aligned
}

proof fn lemma_byte_of_patch(word: u64, so: u64, val: u8, si: u64)
    by (bit_vector)
    requires
        so < 64,
        so % 8 == 0,
        si < 64,
        si % 8 == 0,
    ensures
        (((((word & !(0xffu64 << so)) | ((val as u64) << so)) >> si) & 0xff) as u8) == (if si == so {
            val
        } else {
            ((word >> si) & 0xff) as u8
        }),
{
}

/// Each byte of a word is the word shifted down by eight times the byte's
/// place, cut to eight bits.
proof fn lemma_word_byte(word: u64, i: int)
    requires
        0 <= i < 8,
    ensures
        word_bytes(word).len() == 8,
        word_bytes(word)[i] == ((word >> ((8 * i) as u64)) & 0xff) as u8,
{
    spec_u64_to_le_bytes_to_open(word);
    assert(word >> 0 == word) by (bit_vector);
    let s = spec_u64_to_le_bytes_open(word);
    if i == 0 {
        assert(s[0] == (word & 0xff) as u8);
    } else if i == 1 {
        assert(s[1] == ((word >> 8) & 0xff) as u8);
    } else if i == 2 {
        assert(s[2] == ((word >> 16) & 0xff) as u8);
    } else if i == 3 {
        assert(s[3] == ((word >> 24) & 0xff) as u8);
    } else if i == 4 {
        assert(s[4] == ((word >> 32) & 0xff) as u8);
    } else if i == 5 {
        assert(s[5] == ((word >> 40) & 0xff) as u8);
    } else if i == 6 {
        assert(s[6] == ((word >> 48) & 0xff) as u8);
    } else {
        assert(s[7] == ((word >> 56) & 0xff) as u8);
    }
}

/// The byte of `word` at `offset`.
pub fn extract_byte(word: u64, offset: usize) -> (byte: u8)
    requires
        offset < 8,
    ensures
        byte == word_bytes(word)[offset as int],
{
    let shift: u64 = 8 * (offset as u64);
    let low: u64 = (word >> shift) & 0xff;
    assert(low <= 0xff) by (bit_vector)
        requires
            low == (word >> shift) & 0xff,
    ;
    proof {
        lemma_word_byte(word, offset as int);
    }
    low as u8
}

/// Sets the byte of `word` at `offset` to `val` and leaves the seven others.
pub fn replace_byte(word: u64, offset: usize, val: u8) -> (updated: u64)
    requires
        offset < 8,
    ensures
        word_bytes(updated) == word_bytes(word).update(offset as int, val),
        updated == patched(word, offset as int, val),
{
    let shift: u64 = 8 * (offset as u64);
    let masked: u64 = word & !(0xff << shift);
    let updated: u64 = masked | ((val as u64) << shift);
    proof {
        assert forall|i: int| 0 <= i < 8 implies #[trigger] word_bytes(updated)[i] == word_bytes(
            word,
        ).update(offset as int, val)[i] by {
            lemma_word_byte(word, i);
            lemma_word_byte(updated, i);
            lemma_byte_of_patch(word, shift, val, (8 * i) as u64);
        }
        lemma_word_byte(word, 0);
        lemma_word_byte(updated, 0);
        assert(word_bytes(updated) =~= word_bytes(word).update(offset as int, val));
        lemma_auto_spec_u64_to_from_le_bytes();
    }
    updated
}

/// A patch changes the byte it names and no other: the patched word has
/// `val` at `offset`, and at every other place the byte that `word` has
/// there. With the trap byte for `val`, this is the breakpoint standing in
/// memory with its surroundings intact.
pub proof fn lemma_patch_changes_one_byte(word: u64, offset: int, val: u8)
    requires
        0 <= offset < 8,
    ensures
        word_bytes(patched(word, offset, val)).len() == 8,
        word_bytes(patched(word, offset, val))[offset] == val,
        forall|i: int|
            0 <= i < 8 && i != offset ==> #[trigger] word_bytes(patched(word, offset, val))[i]
                == word_bytes(word)[i],
{
    lemma_auto_spec_u64_to_from_le_bytes();
    assert(word_bytes(word).update(offset, val).len() == 8);
}

/// Putting the saved byte back restores the word exactly: if a byte of `word`
/// is overwritten and the byte that stood there before is then written to the
/// same place, the word is `word` again, whatever was written in between.
pub proof fn lemma_restore_gives_original(word: u64, offset: int, val: u8)
    requires
        0 <= offset < 8,
    ensures
        patched(patched(word, offset, val), offset, word_bytes(word)[offset]) == word,
{
    lemma_auto_spec_u64_to_from_le_bytes();
    let bytes = word_bytes(word);
    assert(bytes.update(offset, val).len() == 8);
    assert(bytes.update(offset, val).update(offset, bytes[offset]) =~= bytes);
}

/// Stepping over a breakpoint leaves it armed: in a word that holds the trap
/// byte at `offset`, writing any byte there and then the trap byte again
/// gives the word back unchanged.
pub proof fn lemma_rearm_gives_trap(word: u64, offset: int, orig_byte: u8)
    requires
        0 <= offset < 8,
        word_bytes(word)[offset] == TRAP_BYTE,
    ensures
        patched(patched(word, offset, orig_byte), offset, TRAP_BYTE) == word,
{
    lemma_restore_gives_original(word, offset, orig_byte);
}

/// Only the last patch of a place counts.
pub proof fn lemma_patch_overwrites(word: u64, offset: int, first: u8, second: u8)
    requires
        0 <= offset < 8,
    ensures
        patched(patched(word, offset, first), offset, second) == patched(word, offset, second),
{
    lemma_auto_spec_u64_to_from_le_bytes();
    let bytes = word_bytes(word);
    assert(bytes.update(offset, first).len() == 8);
    assert(bytes.update(offset, first).update(offset, second) =~= bytes.update(offset, second));
}

/// A patch of memory changes the byte at its address and no other byte
/// anywhere. With the trap byte this is a breakpoint standing in memory: the
/// trap at its address, every other instruction byte as it was.
pub proof fn lemma_written_changes_one_byte(memory: Map<usize, u64>, addr: usize, val: u8)
    ensures
        byte_at(written(memory, addr, val), addr) == val,
        forall|other: usize|
            other != addr ==> #[trigger] byte_at(written(memory, addr, val), other) == byte_at(
                memory,
                other,
            ),
{
    let word = memory[word_base(addr)];
    lemma_patch_changes_one_byte(word, byte_offset(addr), val);
    assert forall|other: usize| other != addr implies #[trigger] byte_at(
        written(memory, addr, val),
        other,
    ) == byte_at(memory, other) by {
        if word_base(other) == word_base(addr) {
            assert(byte_offset(other) != byte_offset(addr));
        }
    }
}

/// Writing back the byte that a patch returned undoes the patch: the memory
/// is what it was before, so the instruction under a breakpoint is whole
/// again while it is stepped over.
pub proof fn lemma_written_restores(memory: Map<usize, u64>, addr: usize, val: u8)
    requires
        memory.contains_key(word_base(addr)),
    ensures
        written(written(memory, addr, val), addr, byte_at(memory, addr)) == memory,
{
    let base = word_base(addr);
    lemma_restore_gives_original(memory[base], byte_offset(addr), val);
    assert(written(written(memory, addr, val), addr, byte_at(memory, addr)) =~= memory);
}

/// A step over a breakpoint leaves the memory as it found it: with the trap
/// byte at `addr`, putting the saved byte there and then the trap byte again
/// gives the same memory, trap included.
pub proof fn lemma_written_rearms(memory: Map<usize, u64>, addr: usize, orig_byte: u8)
    requires
        memory.contains_key(word_base(addr)),
        byte_at(memory, addr) == TRAP_BYTE,
    ensures
        written(written(memory, addr, orig_byte), addr, TRAP_BYTE) == memory,
        byte_at(written(written(memory, addr, orig_byte), addr, TRAP_BYTE), addr) == TRAP_BYTE,
{
    lemma_written_restores(memory, addr, orig_byte);
}

} // verus!
