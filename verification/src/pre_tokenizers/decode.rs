//! One character of a byte buffer, tolerant of bytes that are not UTF-8.
//!
//! Every byte offset inside a buffer starts a character: an ASCII byte is one
//! on its own, any other byte takes the length that its lead bits announce, cut
//! short at the end of the buffer.

use vstd::prelude::*;
use vstd::utf8::{
    decode_first_scalar, is_char_boundary, length_of_first_scalar, pop_first_scalar, valid_utf8,
    valid_utf8_split,
};

verus! {

/// The codepoint reported for byte sequences that cannot be decoded within
/// bounds (truncated tails) or that assemble past the Unicode range.
/// U+10FFFF is an unassigned noncharacter.
pub const CP_INVALID: u32 = 0x10_FFFF;

/// The number of bytes that a non-ASCII lead byte announces.
pub open spec fn announced_len(b0: u8) -> int {
    if b0 < 0xE0 {
        2
    } else if b0 < 0xF0 {
        3
    } else {
        4
    }
}

/// The number of bytes of the character at `pos`.
pub open spec fn char_len(bytes: Seq<u8>, pos: int) -> int {
    if bytes[pos] < 0x80 {
        1
    } else if pos + announced_len(bytes[pos]) > bytes.len() {
        bytes.len() - pos
    } else {
        announced_len(bytes[pos])
    }
}

/// The data bits of a two-byte sequence.
pub open spec fn assemble2(b0: u8, b1: u8) -> u32 {
    ((b0 & 0x1F) as u32) << 6 | ((b1 & 0x3F) as u32)
}

/// The data bits of a three-byte sequence.
pub open spec fn assemble3(b0: u8, b1: u8, b2: u8) -> u32 {
    ((b0 & 0x0F) as u32) << 12 | ((b1 & 0x3F) as u32) << 6 | ((b2 & 0x3F) as u32)
}

/// The data bits of a four-byte sequence.
pub open spec fn assemble4(b0: u8, b1: u8, b2: u8, b3: u8) -> u32 {
    ((b0 & 0x07) as u32) << 18 | ((b1 & 0x3F) as u32) << 12 | ((b2 & 0x3F) as u32) << 6 | ((b3
        & 0x3F) as u32)
}

/// The codepoint of the character at `pos`; at most [`CP_INVALID`].
pub open spec fn char_cp(bytes: Seq<u8>, pos: int) -> u32 {
    let b0 = bytes[pos];
    if b0 < 0x80 {
        b0 as u32
    } else if pos + announced_len(b0) > bytes.len() {
        CP_INVALID
    } else if b0 < 0xE0 {
        assemble2(b0, bytes[pos + 1])
    } else if b0 < 0xF0 {
        assemble3(b0, bytes[pos + 1], bytes[pos + 2])
    } else {
        let cp = assemble4(b0, bytes[pos + 1], bytes[pos + 2], bytes[pos + 3]);
        if cp < CP_INVALID {
            cp
        } else {
            CP_INVALID
        }
    }
}

/// Every character is at least one byte, lies inside the buffer, and has a
/// codepoint in the Unicode range.
pub proof fn lemma_char_bounds(bytes: Seq<u8>, pos: int)
    requires
        0 <= pos < bytes.len(),
    ensures
        1 <= char_len(bytes, pos) <= 4,
        pos + char_len(bytes, pos) <= bytes.len(),
        char_cp(bytes, pos) <= CP_INVALID,
{
    let b0 = bytes[pos];
    if b0 >= 0x80 && pos + announced_len(b0) <= bytes.len() {
        let b1 = bytes[pos + 1];
        if b0 < 0xE0 {
            assert(((b0 & 0x1F) as u32) << 6 | ((b1 & 0x3F) as u32) <= 0x7FF) by (bit_vector);
        } else if b0 < 0xF0 {
            let b2 = bytes[pos + 2];
            assert(((b0 & 0x0F) as u32) << 12 | ((b1 & 0x3F) as u32) << 6 | ((b2 & 0x3F) as u32)
                <= 0xFFFF) by (bit_vector);
        }
    }
}

/// On a character boundary of valid UTF-8, the character read there is the
/// scalar that UTF-8 encodes there, and the next offset is a boundary again.
pub proof fn law_decodes_valid_utf8(bytes: Seq<u8>, pos: int)
    requires
        valid_utf8(bytes),
        is_char_boundary(bytes, pos),
        0 <= pos < bytes.len(),
    ensures
        char_cp(bytes, pos) == decode_first_scalar(bytes.subrange(pos, bytes.len() as int)),
        char_len(bytes, pos) == length_of_first_scalar(bytes.subrange(pos, bytes.len() as int)),
        is_char_boundary(bytes, pos + char_len(bytes, pos)),
{
    valid_utf8_split(bytes, pos);
    let b0 = bytes[pos];
    assert(b0 < 0x80 ==> (b0 & 0x7F) == b0) by (bit_vector);
    lemma_boundary_step(bytes, pos);
}

/// A boundary followed by one scalar gives the next boundary.
proof fn lemma_boundary_step(bytes: Seq<u8>, pos: int)
    requires
        valid_utf8(bytes),
        is_char_boundary(bytes, pos),
        0 <= pos < bytes.len(),
    ensures
        is_char_boundary(
            bytes,
            pos + length_of_first_scalar(bytes.subrange(pos, bytes.len() as int)),
        ),
    decreases bytes.len(),
{
    reveal_with_fuel(is_char_boundary, 2);
    if pos != 0 {
        let tail = pop_first_scalar(bytes);
        let step = length_of_first_scalar(bytes);
        lemma_boundary_step(tail, pos - step);
    }
}

/// Decode one non-ASCII character. Invalid bytes decode deterministically, and
/// the returned length never overruns the buffer.
pub fn decode_cp(bytes: &[u8], pos: usize) -> (r: (u32, usize))
    requires
        pos < bytes.len(),
        bytes[pos as int] >= 0x80,
    ensures
        r.0 == char_cp(bytes@, pos as int),
        r.1 == char_len(bytes@, pos as int),
        r.0 <= CP_INVALID,
        1 <= r.1,
        pos + r.1 <= bytes.len(),
{
    proof {
        lemma_char_bounds(bytes@, pos as int);
    }
    if bytes.len() - pos < 4 {
        return decode_cp_near_end(bytes, pos);
    }
    let b0: u8 = bytes[pos];
    let b1: u32 = (bytes[pos + 1] & 0x3F) as u32;
    if b0 < 0xE0 {
        return (((b0 & 0x1F) as u32) << 6 | b1, 2);
    }
    let b2: u32 = (bytes[pos + 2] & 0x3F) as u32;
    if b0 < 0xF0 {
        return (((b0 & 0x0F) as u32) << 12 | b1 << 6 | b2, 3);
    }
    let b3: u32 = (bytes[pos + 3] & 0x3F) as u32;
    let cp: u32 = ((b0 & 0x07) as u32) << 18 | b1 << 12 | b2 << 6 | b3;
    (
        if cp < CP_INVALID {
            cp
        } else {
            CP_INVALID
        },
        4,
    )
}

/// [`decode_cp`]'s slow path for fewer than four remaining bytes: identical
/// results for complete sequences; a sequence truncated by the buffer end
/// consumes exactly the remaining bytes and yields [`CP_INVALID`].
pub fn decode_cp_near_end(bytes: &[u8], pos: usize) -> (r: (u32, usize))
    requires
        pos < bytes.len(),
        bytes[pos as int] >= 0x80,
    ensures
        r.0 == char_cp(bytes@, pos as int),
        r.1 == char_len(bytes@, pos as int),
{
    let len: usize = bytes.len();
    let b0: u8 = bytes[pos];
    let need: usize = if b0 < 0xE0 {
        2
    } else if b0 < 0xF0 {
        3
    } else {
        4
    };
    if len - pos < need {
        return (CP_INVALID, len - pos);
    }
    let b1: u32 = (bytes[pos + 1] & 0x3F) as u32;
    if need == 2 {
        return (((b0 & 0x1F) as u32) << 6 | b1, 2);
    }
    let b2: u32 = (bytes[pos + 2] & 0x3F) as u32;
    if need == 3 {
        return (((b0 & 0x0F) as u32) << 12 | b1 << 6 | b2, 3);
    }
    let b3: u32 = (bytes[pos + 3] & 0x3F) as u32;
    let cp: u32 = ((b0 & 0x07) as u32) << 18 | b1 << 12 | b2 << 6 | b3;
    (
        if cp < CP_INVALID {
            cp
        } else {
            CP_INVALID
        },
        4,
    )
}

} // verus!
