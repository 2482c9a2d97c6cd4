//! Machine words in a byte arena: eight bytes each, least significant
//! byte first.

use vstd::prelude::*;

verus! {

/// 256 to the power `k`, for the eight positions of a word.
pub open spec fn pow256(k: int) -> int {
    if k == 0 {
        1
    } else if k == 1 {
        0x100
    } else if k == 2 {
        0x1_0000
    } else if k == 3 {
        0x100_0000
    } else if k == 4 {
        0x1_0000_0000
    } else if k == 5 {
        0x100_0000_0000
    } else if k == 6 {
        0x1_0000_0000_0000
    } else {
        0x100_0000_0000_0000
    }
}

/// The byte at position `k` of the word `w`, counted from the least
/// significant one.
pub open spec fn word_byte(w: int, k: int) -> int {
    (w / pow256(k)) % 256
}

/// The word that the eight bytes from offset `off` on spell.
#[verifier::opaque]
pub open spec fn word_at(mem: Seq<u8>, off: int) -> int {
    mem[off] + 0x100 * mem[off + 1] + 0x1_0000 * mem[off + 2] + 0x100_0000 * mem[off + 3]
        + 0x1_0000_0000 * mem[off + 4] + 0x100_0000_0000 * mem[off + 5] + 0x1_0000_0000_0000
        * mem[off + 6] + 0x100_0000_0000_0000 * mem[off + 7]
}

/// The arena with the word `w` written at offset `off`: these eight bytes
/// spell `w`, all others stay.
#[verifier::opaque]
pub open spec fn store_word(mem: Seq<u8>, off: int, w: int) -> Seq<u8> {
    Seq::new(
        mem.len(),
        |i: int|
            if off <= i < off + 8 {
                word_byte(w, i - off) as u8
            } else {
                mem[i]
            },
    )
}

/// A word is the sum of its eight bytes, each at its place value.
pub proof fn lemma_word_from_bytes(w: int)
    requires
        0 <= w <= u64::MAX,
    ensures
        w == word_byte(w, 0) + 0x100 * word_byte(w, 1) + 0x1_0000 * word_byte(w, 2) + 0x100_0000
            * word_byte(w, 3) + 0x1_0000_0000 * word_byte(w, 4) + 0x100_0000_0000 * word_byte(w, 5)
            + 0x1_0000_0000_0000 * word_byte(w, 6) + 0x100_0000_0000_0000 * word_byte(w, 7),
{
    lemma_next_quotient(w, 0);
    lemma_next_quotient(w, 1);
    lemma_next_quotient(w, 2);
    lemma_next_quotient(w, 3);
    lemma_next_quotient(w, 4);
    lemma_next_quotient(w, 5);
    lemma_next_quotient(w, 6);
}

/// Dividing by 256 once more gives the quotient by the next power of 256.
pub proof fn lemma_next_quotient(w: int, k: int)
    requires
        0 <= w,
        0 <= k < 7,
    ensures
        (w / pow256(k)) / 256 == w / pow256(k + 1),
{
    vstd::arithmetic::div_mod::lemma_div_denominator(w, pow256(k), 256);
}

/// A word that was stored is the word that is read back.
pub proof fn lemma_store_then_load(mem: Seq<u8>, off: int, w: int)
    requires
        0 <= off,
        off + 8 <= mem.len(),
        0 <= w <= u64::MAX,
    ensures
        store_word(mem, off, w).len() == mem.len(),
        word_at(store_word(mem, off, w), off) == w,
{
    reveal(word_at);
    reveal(store_word);
    let stored = store_word(mem, off, w);
    lemma_word_from_bytes(w);
    assert(stored[off] == word_byte(w, 0));
    assert(stored[off + 1] == word_byte(w, 1));
    assert(stored[off + 2] == word_byte(w, 2));
    assert(stored[off + 3] == word_byte(w, 3));
    assert(stored[off + 4] == word_byte(w, 4));
    assert(stored[off + 5] == word_byte(w, 5));
    assert(stored[off + 6] == word_byte(w, 6));
    assert(stored[off + 7] == word_byte(w, 7));
}

/// Storing a word leaves every word that shares no byte with it as it was.
pub proof fn lemma_store_elsewhere(mem: Seq<u8>, off: int, w: int, other: int)
    requires
        0 <= off,
        off + 8 <= mem.len(),
        0 <= other,
        other + 8 <= mem.len(),
        other + 8 <= off || off + 8 <= other,
    ensures
        store_word(mem, off, w).len() == mem.len(),
        word_at(store_word(mem, off, w), other) == word_at(mem, other),
{
    reveal(word_at);
    reveal(store_word);
}

/// Reads the word at offset `off`.
pub fn load_word(mem: &Vec<u8>, off: usize) -> (w: u64)
    requires
        off + 8 <= mem.len(),
    ensures
        w == word_at(mem@, off as int),
{
    proof {
        reveal(word_at);
    }
    let b0: u64 = mem[off] as u64;
    let b1: u64 = mem[off + 1] as u64;
    let b2: u64 = mem[off + 2] as u64;
    let b3: u64 = mem[off + 3] as u64;
    let b4: u64 = mem[off + 4] as u64;
    let b5: u64 = mem[off + 5] as u64;
    let b6: u64 = mem[off + 6] as u64;
    let b7: u64 = mem[off + 7] as u64;
    b0 + 0x100 * b1 + 0x1_0000 * b2 + 0x100_0000 * b3 + 0x1_0000_0000 * b4 + 0x100_0000_0000 * b5
        + 0x1_0000_0000_0000 * b6 + 0x100_0000_0000_0000 * b7
}

/// Writes the word `w` at offset `off`.
pub fn save_word(mem: &mut Vec<u8>, off: usize, w: u64)
    requires
        off + 8 <= old(mem).len(),
    ensures
        final(mem)@ == store_word(old(mem)@, off as int, w as int),
        final(mem)@.len() == old(mem)@.len(),
    no_unwind
{
    let ghost before = mem@;
    let mut rest: u64 = w;
    let mut k: usize = 0;
    while k < 8
        invariant
            0 <= k <= 8,
            off + 8 <= mem.len(),
            mem@.len() == before.len(),
            k < 8 ==> rest == w as int / pow256(k as int),
            forall|i: int| 0 <= i < mem@.len() && !(off <= i < off + k) ==> mem@[i] == before[i],
            forall|i: int| off <= i < off + k ==> mem@[i] == word_byte(w as int, i - off) as u8,
        decreases 8 - k,
    {
        let byte: u8 = (rest % 256) as u8;
        mem[off + k] = byte;
        proof {
            if k < 7 {
                lemma_next_quotient(w as int, k as int);
            }
        }
        rest = rest / 256;
        k = k + 1;
    }
    proof {
        reveal(store_word);
    }
    assert(mem@ =~= store_word(before, off as int, w as int));
}

} // verus!
