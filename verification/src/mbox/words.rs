//! Little-endian words in byte buffers.

use vstd::prelude::*;

verus! {

/// The little-endian word made of four bytes.
pub open spec fn word(b0: u8, b1: u8, b2: u8, b3: u8) -> u32 {
    (b0 + 0x100 * b1 + 0x1_0000 * b2 + 0x100_0000 * b3) as u32
}

/// The word that `bytes` holds at offset `at`.
pub open spec fn word_at(bytes: Seq<u8>, at: int) -> u32 {
    word(bytes[at], bytes[at + 1], bytes[at + 2], bytes[at + 3])
}

/// The four bytes of a word, lowest first.
pub open spec fn word_bytes(w: u32) -> Seq<u8> {
    seq![
        (w % 0x100) as u8,
        (w / 0x100 % 0x100) as u8,
        (w / 0x1_0000 % 0x100) as u8,
        (w / 0x100_0000) as u8,
    ]
}

/// `n` rounded up to whole words.
pub open spec fn padded(n: int) -> int {
    (n + 3) / 4 * 4
}

/// `bytes` with `patch` written over it from offset `at` on.
pub open spec fn overwrite(bytes: Seq<u8>, at: int, patch: Seq<u8>) -> Seq<u8> {
    Seq::new(
        bytes.len(),
        |i: int|
            if at <= i < at + patch.len() {
                patch[i - at]
            } else {
                bytes[i]
            },
    )
}

/// Reading the bytes of a word gives the word back.
pub proof fn lemma_word_of_bytes(w: u32)
    ensures
        word_bytes(w).len() == 4,
        word_at(word_bytes(w), 0) == w,
{
}

/// Joins four bytes, lowest first, to a word.
fn join(b0: u8, b1: u8, b2: u8, b3: u8) -> (w: u32)
    ensures
        w == word(b0, b1, b2, b3),
{
    assert((b0 as u32) | (b1 as u32) << 8 | (b2 as u32) << 16 | (b3 as u32) << 24 == b0 + 0x100
        * b1 + 0x1_0000 * b2 + 0x100_0000 * b3) by (bit_vector);
    (b0 as u32) | (b1 as u32) << 8 | (b2 as u32) << 16 | (b3 as u32) << 24
}

/// The word that `bytes` holds at offset `at`.
pub fn get_word(bytes: &[u8], at: usize) -> (w: u32)
    requires
        at + 4 <= bytes.len(),
    ensures
        w == word_at(bytes@, at as int),
{
    join(bytes[at], bytes[at + 1], bytes[at + 2], bytes[at + 3])
}

/// The four bytes of `w`, lowest first.
pub fn split_word(w: u32) -> (bytes: [u8; 4])
    ensures
        bytes@ == word_bytes(w),
{
    assert((w & 0xff) as u8 == (w % 0x100) as u8) by (bit_vector);
    assert(((w >> 8) & 0xff) as u8 == (w / 0x100 % 0x100) as u8) by (bit_vector);
    assert(((w >> 16) & 0xff) as u8 == (w / 0x1_0000 % 0x100) as u8) by (bit_vector);
    assert(((w >> 24) & 0xff) as u8 == (w / 0x100_0000) as u8) by (bit_vector);
    let bytes = [
        (w & 0xff) as u8,
        ((w >> 8) & 0xff) as u8,
        ((w >> 16) & 0xff) as u8,
        ((w >> 24) & 0xff) as u8,
    ];
    assert(bytes@ =~= word_bytes(w));
    bytes
}

/// The first word of `bytes`, which count as followed by zeroes.
pub open spec fn leading_word(bytes: Seq<u8>) -> u32 {
    word(
        if bytes.len() > 0 {
            bytes[0]
        } else {
            0
        },
        if bytes.len() > 1 {
            bytes[1]
        } else {
            0
        },
        if bytes.len() > 2 {
            bytes[2]
        } else {
            0
        },
        if bytes.len() > 3 {
            bytes[3]
        } else {
            0
        },
    )
}

/// The first word of `bytes`, which count as followed by zeroes.
pub fn first_word(bytes: &[u8]) -> (w: u32)
    ensures
        w == leading_word(bytes@),
{
    let b0: u8 = if bytes.len() > 0 {
        bytes[0]
    } else {
        0
    };
    let b1: u8 = if bytes.len() > 1 {
        bytes[1]
    } else {
        0
    };
    let b2: u8 = if bytes.len() > 2 {
        bytes[2]
    } else {
        0
    };
    let b3: u8 = if bytes.len() > 3 {
        bytes[3]
    } else {
        0
    };
    join(b0, b1, b2, b3)
}

/// Puts `part` behind what `bytes` holds.
pub fn append(bytes: &mut Vec<u8>, part: &[u8])
    ensures
        final(bytes)@ == old(bytes)@ + part@,
{
    let mut i: usize = 0;
    while i < part.len()
        invariant
            i <= part.len(),
            bytes@ == old(bytes)@ + part@.take(i as int),
        decreases part.len() - i,
    {
        bytes.push(part[i]);
        i += 1;
        assert(bytes@ =~= old(bytes)@ + part@.take(i as int));
    }
    assert(part@.take(part.len() as int) =~= part@);
}

} // verus!
