//! Branchless byte predicates, and the letter scan that takes eight bytes at a
//! time.

use vstd::prelude::*;

use super::regex::{ascii_digit, ascii_lower, ascii_upper, ascii_white};

verus! {

/// The high bit of each of the eight lanes of a word.
pub const HI: u64 = 0x8080_8080_8080_8080;

/// An ASCII letter.
pub open spec fn ascii_letter(b: u8) -> bool {
    ascii_upper(b) || ascii_lower(b)
}

/// Whether the byte is an ASCII letter.
pub fn is_letter(b: u8) -> (r: bool)
    ensures
        r == ascii_letter(b),
{
    proof {
        assert((0x61 <= (b | 0x20) && (b | 0x20) <= 0x7A) == (0x41 <= b && b <= 0x5A || 0x61 <= b
            && b <= 0x7A)) by (bit_vector);
    }
    (b | 0x20).wrapping_sub(0x61) < 26
}

/// Whether the byte is an ASCII digit.
pub fn is_digit(b: u8) -> (r: bool)
    ensures
        r == ascii_digit(b),
{
    b.wrapping_sub(0x30) < 10
}

/// Whether the byte is ASCII whitespace.
pub fn is_ascii_ws(b: u8) -> (r: bool)
    ensures
        r == ascii_white(b),
{
    b == 0x20 || b.wrapping_sub(9) < 5
}

/// Whether the byte is an upper case ASCII letter.
pub fn is_upper_ascii(b: u8) -> (r: bool)
    ensures
        r == ascii_upper(b),
{
    b.wrapping_sub(0x41) < 26
}

/// The byte in lane `i` of a word, the lowest lane first.
pub open spec fn lane(word: u64, i: u64) -> u8 {
    ((word >> (8 * i) as u64) & 0xFF) as u8
}

/// Whether the high bit of lane `i` is set.
pub open spec fn lane_flag(word: u64, i: u64) -> bool {
    (word >> (8 * i + 7) as u64) & 1 == 1
}

/// High bit set in each lane that is not an ASCII letter. The high bits of the
/// word are set aside, so that no lane borrows from the one above it, and their
/// lanes are flagged.
pub fn swar64_letter_nonmask(word: u64) -> (mask: u64)
    ensures
        mask & !HI == 0,
        forall|i: u64|
            i < 8 ==> (#[trigger] lane_flag(mask, i) <==> !ascii_letter(lane(word, i))),
{
    let lowered: u64 = (word & !HI) | 0x2020_2020_2020_2020;
    proof {
        assert(((word & !0x8080_8080_8080_8080u64) | 0x2020_2020_2020_2020)
            | 0x8080_8080_8080_8080 >= 0x6161_6161_6161_6161 && 0xFAFA_FAFA_FAFA_FAFA >= ((word
            & !0x8080_8080_8080_8080u64) | 0x2020_2020_2020_2020)) by (bit_vector);
    }
    let ge_a: u64 = (lowered | HI).wrapping_sub(0x6161_6161_6161_6161);
    let le_z: u64 = 0xFAFA_FAFA_FAFA_FAFA_u64.wrapping_sub(lowered);
    let mask: u64 = (!(ge_a & le_z) | word) & HI;
    proof {
        assert forall|i: u64| i < 8 implies (#[trigger] lane_flag(mask, i) <==> !ascii_letter(
            lane(word, i),
        )) by {
            let at = (8 * i) as u64;
            let flag = (8 * i + 7) as u64;
            let b = (word >> at) & 0xFF;
            assert((mask >> flag) & 1 == 1 <==> !(0x41 <= b && b <= 0x5A || 0x61 <= b && b
                <= 0x7A)) by (bit_vector)
                requires
                    i < 8,
                    at == 8 * i,
                    flag == 8 * i + 7,
                    b == (word >> at) & 0xFF,
                    lowered == (word & !0x8080_8080_8080_8080u64) | 0x2020_2020_2020_2020,
                    ge_a == (lowered | 0x8080_8080_8080_8080) - 0x6161_6161_6161_6161,
                    le_z == 0xFAFA_FAFA_FAFA_FAFA - lowered,
                    mask == (!(ge_a & le_z) | word) & 0x8080_8080_8080_8080,
            ;
            assert(b <= 0xFF) by (bit_vector)
                requires
                    b == (word >> at) & 0xFF,
            ;
        }
        assert(mask & !0x8080_8080_8080_8080u64 == 0) by (bit_vector)
            requires
                mask == (!(ge_a & le_z) | word) & 0x8080_8080_8080_8080,
        ;
    }
    mask
}

/// The end of the run of ASCII letters that starts at `p`.
pub open spec fn ascii_letters_end(bytes: Seq<u8>, p: int) -> int
    decreases bytes.len() - p,
{
    if 0 <= p < bytes.len() && ascii_letter(bytes[p]) {
        ascii_letters_end(bytes, p + 1)
    } else {
        p
    }
}

/// The eight bytes at `pos`, the first in the lowest lane.
fn load_word(bytes: &[u8], pos: usize) -> (word: u64)
    requires
        pos + 8 <= bytes.len(),
    ensures
        forall|i: u64| i < 8 ==> #[trigger] lane(word, i) == bytes[pos + i],
        word & HI == 0 <==> forall|i: u64| i < 8 ==> #[trigger] bytes[pos + i] < 0x80,
{
    let b0: u8 = bytes[pos];
    let b1: u8 = bytes[pos + 1];
    let b2: u8 = bytes[pos + 2];
    let b3: u8 = bytes[pos + 3];
    let b4: u8 = bytes[pos + 4];
    let b5: u8 = bytes[pos + 5];
    let b6: u8 = bytes[pos + 6];
    let b7: u8 = bytes[pos + 7];
    let word: u64 = (b0 as u64) | (b1 as u64) << 8 | (b2 as u64) << 16 | (b3 as u64) << 24 | (
    b4 as u64) << 32 | (b5 as u64) << 40 | (b6 as u64) << 48 | (b7 as u64) << 56;
    proof {
        assert((word >> 0) & 0xFF == b0 && (word >> 8) & 0xFF == b1 && (word >> 16) & 0xFF == b2 && (
        word >> 24) & 0xFF == b3 && (word >> 32) & 0xFF == b4 && (word >> 40) & 0xFF == b5 && (word
            >> 48) & 0xFF == b6 && (word >> 56) & 0xFF == b7) by (bit_vector)
            requires
                word == (b0 as u64) | (b1 as u64) << 8 | (b2 as u64) << 16 | (b3 as u64) << 24 | (
                b4 as u64) << 32 | (b5 as u64) << 40 | (b6 as u64) << 48 | (b7 as u64) << 56,
        ;
        assert((word & 0x8080_8080_8080_8080 == 0) == (b0 < 0x80 && b1 < 0x80 && b2 < 0x80 && b3
            < 0x80 && b4 < 0x80 && b5 < 0x80 && b6 < 0x80 && b7 < 0x80)) by (bit_vector)
            requires
                word == (b0 as u64) | (b1 as u64) << 8 | (b2 as u64) << 16 | (b3 as u64) << 24 | (
                b4 as u64) << 32 | (b5 as u64) << 40 | (b6 as u64) << 48 | (b7 as u64) << 56,
        ;
        assert(bytes[pos + 0u64] == b0);
    }
    word
}

/// A run of ASCII letters goes on past `n` letters in a row.
proof fn lemma_letters_end(bytes: Seq<u8>, p: int, n: int)
    requires
        0 <= p,
        0 <= n,
        p + n <= bytes.len(),
        forall|i: int| p <= i < p + n ==> ascii_letter(#[trigger] bytes[i]),
    ensures
        ascii_letters_end(bytes, p) == ascii_letters_end(bytes, p + n),
    decreases n,
{
    if n > 0 {
        lemma_letters_end(bytes, p + 1, n - 1);
    }
}

/// Advance `pos` past ASCII letters, eight bytes per iteration.
pub fn swar_scan_letters(bytes: &[u8], pos: usize) -> (end: usize)
    requires
        pos <= bytes.len(),
    ensures
        end == ascii_letters_end(bytes@, pos as int),
        pos <= end <= bytes.len(),
{
    let len: usize = bytes.len();
    let mut p: usize = pos;
    while len - p >= 8
        invariant
            pos <= p <= len,
            len == bytes.len(),
            ascii_letters_end(bytes@, pos as int) == ascii_letters_end(bytes@, p as int),
        ensures
            pos <= p <= len,
            ascii_letters_end(bytes@, pos as int) == ascii_letters_end(bytes@, p as int),
        decreases len - p,
    {
        let word: u64 = load_word(bytes, p);
        if word & HI != 0 {
            break;
        }
        let nonletter: u64 = swar64_letter_nonmask(word);
        if nonletter != 0 {
            let zeros: u32 = nonletter.trailing_zeros();
            let n: usize = zeros as usize / 8;
            proof {
                lemma_first_lane(nonletter, n as u64);
                assert forall|i: int| p <= i < p + n implies ascii_letter(
                    #[trigger] bytes@[i],
                ) by {
                    let j = (i - p) as u64;
                    assert(!lane_flag(nonletter, j));
                }
                lemma_letters_end(bytes@, p as int, n as int);
            }
            return p + n;
        }
        proof {
            assert forall|i: int| p <= i < p + 8 implies ascii_letter(#[trigger] bytes@[i]) by {
                let j = (i - p) as u64;
                assert(!lane_flag(nonletter, j)) by {
                    let at = (8 * j + 7) as u64;
                    assert((0u64 >> at) & 1 == 0) by (bit_vector);
                }
            }
            lemma_letters_end(bytes@, p as int, 8);
        }
        p += 8;
    }
    while p < len && is_letter(bytes[p])
        invariant
            pos <= p <= len,
            len == bytes.len(),
            ascii_letters_end(bytes@, pos as int) == ascii_letters_end(bytes@, p as int),
        decreases len - p,
    {
        p += 1;
    }
    p
}

/// The lowest set flag of a mask is in the lane that its trailing zeros count.
proof fn lemma_first_lane(mask: u64, n: u64)
    requires
        mask != 0,
        mask & !HI == 0,
        n == vstd::std_specs::bits::u64_trailing_zeros(mask) / 8,
    ensures
        n < 8,
        lane_flag(mask, n),
        forall|j: u64| j < n ==> !#[trigger] lane_flag(mask, j),
{
    broadcast use vstd::std_specs::bits::group_bits_axioms;

    let z = vstd::std_specs::bits::u64_trailing_zeros(mask) as u64;
    let k = z % 8;
    assert(k == 7 && z < 64) by (bit_vector)
        requires
            (mask >> z) & 1 == 1,
            mask & !0x8080_8080_8080_8080u64 == 0,
            k == z % 8,
            z <= 64,
    ;
}

} // verus!
