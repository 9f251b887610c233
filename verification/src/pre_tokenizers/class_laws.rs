//! What the classes and sets of characters are, by what Unicode and ASCII say of
//! the characters, and where a text may be cut.

use vstd::prelude::*;

use super::decode::{char_cp, char_len, lemma_char_bounds, CP_INVALID};
use super::regex::{in_set, CharSet};
use super::scheme::FastSplitScheme;
use super::swar::{ascii_letter, ascii_letters_end};
use super::unicode::{
    char_class, general_category, is_han_cp, kimi_class, o200k_class, script, white_space,
    CharClass, KimiCharClass, O200kCharClass,
};

verus! {

/// A byte of ASCII belongs to a set by the character that it is. The letters are
/// those of the Latin alphabet, the numbers the ten digits, the whitespace the
/// blank and what goes from the tab to the carriage return; all else is symbols.
pub proof fn law_sets_of_ascii(han: bool, bytes: Seq<u8>, p: int, c: u8)
    requires
        0 <= p < bytes.len(),
        bytes[p] < 0x80,
        0x61 <= c <= 0x7A,
    ensures
        ({
            let b = bytes[p];
            let upper = 'A' as int <= b <= 'Z' as int;
            let lower = 'a' as int <= b <= 'z' as int;
            let number = '0' as int <= b <= '9' as int;
            let line_end = b == '\r' as int || b == '\n' as int;
            let white = b == ' ' as int || b == '\t' as int || b == 0x0B || b == 0x0C || line_end;
            &&& in_set(CharSet::Letter, han, bytes, p) <==> upper || lower
            &&& in_set(CharSet::Number, han, bytes, p) <==> number
            &&& in_set(CharSet::White, han, bytes, p) <==> white
            &&& in_set(CharSet::NonWhite, han, bytes, p) <==> !white
            &&& in_set(CharSet::Symbol, han, bytes, p) <==> !upper && !lower && !number && !white
            &&& in_set(CharSet::Prefix, han, bytes, p) <==> !upper && !lower && !number && !line_end
            &&& in_set(CharSet::Upperish, han, bytes, p) <==> upper
            &&& in_set(CharSet::Lowerish, han, bytes, p) <==> lower
            &&& !in_set(CharSet::Han, han, bytes, p)
            &&& in_set(CharSet::Newline, han, bytes, p) <==> line_end
            &&& in_set(CharSet::NewlineOrSlash, han, bytes, p) <==> line_end || b == '/' as int
            &&& in_set(CharSet::Space, han, bytes, p) <==> b == ' ' as int
            &&& in_set(CharSet::Apostrophe, han, bytes, p) <==> b == '\'' as int
            &&& in_set(CharSet::Folded(c), han, bytes, p) <==> b == c || b + ('a' as int
                - 'A' as int) == c
        }),
{
}

/// Of the characters beyond ASCII, only the long s is a letter of a contraction,
/// and none is a line end, a slash, a blank or an apostrophe.
pub proof fn law_bytes_beyond_ascii(han: bool, bytes: Seq<u8>, p: int, c: u8)
    requires
        0 <= p < bytes.len(),
        bytes[p] >= 0x80,
        0x61 <= c <= 0x7A,
    ensures
        !in_set(CharSet::Newline, han, bytes, p),
        !in_set(CharSet::NewlineOrSlash, han, bytes, p),
        !in_set(CharSet::Space, han, bytes, p),
        !in_set(CharSet::Apostrophe, han, bytes, p),
        in_set(CharSet::Folded(c), han, bytes, p) ==> c == 's' as int && char_cp(bytes, p) == 0x17F
            && char_len(bytes, p) == 2,
{
    assert((0xC5u8 & 0x1F) as u32 == 5 && (0xBFu8 & 0x3F) as u32 == 0x3F && 5u32 << 6 | 0x3Fu32
        == 0x17F) by (bit_vector);
}

/// The class of a code point is decided by the `White_Space` property, then by
/// the general category: upper and title case letters, lower case letters, other
/// letters, marks, numbers, and the rest.
pub proof fn law_classes_by_category(cp: u32)
    ensures
        white_space(cp) <==> o200k_class(cp) == O200kCharClass::Whitespace,
        !white_space(cp) ==> {
            let category = general_category(cp);
            &&& category == 1 || category == 3 <==> o200k_class(cp) == O200kCharClass::Upper
            &&& category == 2 <==> o200k_class(cp) == O200kCharClass::Lower
            &&& category == 4 || category == 5 <==> o200k_class(cp) == O200kCharClass::Caseless
            &&& category == 6 || category == 7 || category == 8 <==> o200k_class(cp)
                == O200kCharClass::Mark
            &&& category == 9 || category == 10 || category == 11 <==> o200k_class(cp)
                == O200kCharClass::Number
            &&& category == 0 || category > 11 <==> o200k_class(cp) == O200kCharClass::Other
            &&& 1 <= category <= 5 <==> char_class(cp) == CharClass::Letter
            &&& 9 <= category <= 11 <==> char_class(cp) == CharClass::Number
        },
        white_space(cp) <==> char_class(cp) == CharClass::Whitespace,
{
}

/// A code point of the Han script is a Han numeral if it is a number, a Han symbol
/// if it is a mark or no letter, and a Han letter otherwise. Any other code point
/// has the class of its name.
pub proof fn law_classes_of_han(cp: u32)
    ensures
        is_han_cp(cp) <==> script(cp) == 17,
        is_han_cp(cp) ==> {
            &&& kimi_class(cp) == KimiCharClass::HanNumber <==> o200k_class(cp)
                == O200kCharClass::Number
            &&& kimi_class(cp) == KimiCharClass::HanOther <==> o200k_class(cp)
                == O200kCharClass::Mark || o200k_class(cp) == O200kCharClass::Other
            &&& kimi_class(cp).is_han_spec()
        },
        !is_han_cp(cp) ==> !kimi_class(cp).is_han_spec() && kimi_class(cp).base_spec()
            == o200k_class(cp),
        KimiCharClass::Han.base_spec() == O200kCharClass::Caseless,
        KimiCharClass::HanNumber.base_spec() == O200kCharClass::Number,
        KimiCharClass::HanOther.base_spec() == O200kCharClass::Other,
{
}

/// The code of a class in a table is that of no other class.
pub proof fn law_codes_are_distinct(
    a: CharClass,
    b: CharClass,
    c: O200kCharClass,
    d: O200kCharClass,
    e: KimiCharClass,
    f: KimiCharClass,
)
    ensures
        a.code() == b.code() <==> a == b,
        a.code() < 4,
        c.code() == d.code() <==> c == d,
        c.code() < 16,
        e.code() == f.code() <==> e == f,
        e.code() < 16,
{
}

/// A character takes as many bytes as its first one announces: one for ASCII, two
/// below 0xE0, three below 0xF0, four from there on. One that the text is too
/// short for takes what is left and has the code point of what is invalid, and no
/// code point is above it.
pub proof fn law_characters_at_the_end(bytes: Seq<u8>, p: int)
    requires
        0 <= p < bytes.len(),
    ensures
        ({
            let b = bytes[p];
            let left = bytes.len() - p;
            &&& b < 0x80 ==> char_len(bytes, p) == 1 && char_cp(bytes, p) == b
            &&& 0x80 <= b < 0xE0 && left >= 2 ==> char_len(bytes, p) == 2
            &&& 0xE0 <= b < 0xF0 && left >= 3 ==> char_len(bytes, p) == 3
            &&& 0xF0 <= b && left >= 4 ==> char_len(bytes, p) == 4
            &&& 0x80 <= b && left < 2 || 0xE0 <= b && left < 3 || 0xF0 <= b && left < 4
                ==> char_len(bytes, p) == left && char_cp(bytes, p) == 0x10_FFFF
            &&& char_cp(bytes, p) <= 0x10_FFFF
        }),
        CP_INVALID == 0x10_FFFF,
{
    lemma_char_bounds(bytes, p);
}

/// A text may be cut between a line feed and a byte of ASCII that is no
/// whitespace, and nowhere else; with the o200k pattern not before a slash.
pub proof fn law_where_texts_may_be_cut(scheme: FastSplitScheme, bytes: Seq<u8>, p: int)
    ensures
        scheme.is_safe_boundary(bytes, p) <==> {
            &&& 0 < p < bytes.len()
            &&& bytes[p - 1] == '\n' as int
            &&& bytes[p] < 0x80
            &&& !in_set(CharSet::White, scheme.tells_han(), bytes, p)
            &&& scheme == FastSplitScheme::O200k ==> bytes[p] != '/' as int
        },
{
}

/// The patterns of the schemes, letter for letter. Only Kimi's speaks of Han.
pub proof fn law_patterns(scheme: FastSplitScheme)
    ensures
        FastSplitScheme::Qwen2.pattern()
            == r"(?i:'s|'t|'re|'ve|'m|'ll|'d)|[^\r\n\p{L}\p{N}]?\p{L}+|\p{N}| ?[^\s\p{L}\p{N}]+[\r\n]*|\s*[\r\n]+|\s+(?!\S)|\s+"@,
        FastSplitScheme::Qwen2N3.pattern()
            == r"(?i:'s|'t|'re|'ve|'m|'ll|'d)|[^\r\n\p{L}\p{N}]?\p{L}+|\p{N}{1,3}| ?[^\s\p{L}\p{N}]+[\r\n]*|\s*[\r\n]+|\s+(?!\S)|\s+"@,
        FastSplitScheme::Kimi.pattern()
            == r"[\p{Han}]+|[^\r\n\p{L}\p{N}]?[\p{Lu}\p{Lt}\p{Lm}\p{Lo}\p{M}&&[^\p{Han}]]*[\p{Ll}\p{Lm}\p{Lo}\p{M}&&[^\p{Han}]]+(?i:'s|'t|'re|'ve|'m|'ll|'d)?|[^\r\n\p{L}\p{N}]?[\p{Lu}\p{Lt}\p{Lm}\p{Lo}\p{M}&&[^\p{Han}]]+[\p{Ll}\p{Lm}\p{Lo}\p{M}&&[^\p{Han}]]*(?i:'s|'t|'re|'ve|'m|'ll|'d)?|\p{N}{1,3}| ?[^\s\p{L}\p{N}]+[\r\n]*|\s*[\r\n]+|\s+(?!\S)|\s+"@,
        FastSplitScheme::O200k.pattern()
            == r"[^\r\n\p{L}\p{N}]?[\p{Lu}\p{Lt}\p{Lm}\p{Lo}\p{M}]*[\p{Ll}\p{Lm}\p{Lo}\p{M}]+(?i:'s|'t|'re|'ve|'m|'ll|'d)?|[^\r\n\p{L}\p{N}]?[\p{Lu}\p{Lt}\p{Lm}\p{Lo}\p{M}]+[\p{Ll}\p{Lm}\p{Lo}\p{M}]*(?i:'s|'t|'re|'ve|'m|'ll|'d)?|\p{N}{1,3}| ?[^\s\p{L}\p{N}]+[\r\n/]*|\s*[\r\n]+|\s+(?!\S)|\s+"@,
        scheme.tells_han() <==> scheme == FastSplitScheme::Kimi,
{
}

/// The code point of a complete sequence is made of the data bits of its bytes,
/// whether they are UTF-8 or not: six of each byte but the first, and the last
/// five, four or three of that. One above the Unicode range counts as invalid.
pub proof fn law_code_points_of_sequences(bytes: Seq<u8>, p: int)
    requires
        0 <= p,
        p + 4 <= bytes.len(),
    ensures
        ({
            let (a, b, c, d) = (bytes[p], bytes[p + 1], bytes[p + 2], bytes[p + 3]);
            let cp = char_cp(bytes, p);
            &&& 0x80 <= a < 0xE0 ==> cp == (a % 0x20) * 0x40 + b % 0x40
            &&& 0xE0 <= a < 0xF0 ==> cp == (a % 0x10) * 0x1000 + (b % 0x40) * 0x40 + c % 0x40
            &&& 0xF0 <= a ==> {
                let wide = (a % 0x08) * 0x4_0000 + (b % 0x40) * 0x1000 + (c % 0x40) * 0x40 + d
                    % 0x40;
                cp == if wide < 0x10_FFFF {
                    wide
                } else {
                    0x10_FFFF
                }
            }
        }),
{
    let (a, b, c, d) = (bytes[p], bytes[p + 1], bytes[p + 2], bytes[p + 3]);
    assert(((a & 0x1F) as u32) << 6 | ((b & 0x3F) as u32) == (a % 0x20) * 0x40 + b % 0x40)
        by (bit_vector);
    assert(((a & 0x0F) as u32) << 12 | ((b & 0x3F) as u32) << 6 | ((c & 0x3F) as u32) == (a % 0x10)
        * 0x1000 + (b % 0x40) * 0x40 + c % 0x40) by (bit_vector);
    assert(((a & 0x07) as u32) << 18 | ((b & 0x3F) as u32) << 12 | ((c & 0x3F) as u32) << 6 | ((d
        & 0x3F) as u32) == (a % 0x08) * 0x4_0000 + (b % 0x40) * 0x1000 + (c % 0x40) * 0x40 + d
        % 0x40) by (bit_vector);
}

/// The letters of ASCII, by what they are, and the run of them: it goes on as long
/// as there are letters, and no further.
pub proof fn law_ascii_letters(bytes: Seq<u8>, p: int, b: u8, i: int)
    requires
        0 <= p <= bytes.len(),
    ensures
        ascii_letter(b) <==> 'A' as int <= b <= 'Z' as int || 'a' as int <= b <= 'z' as int,
        p <= ascii_letters_end(bytes, p) <= bytes.len(),
        p <= i < ascii_letters_end(bytes, p) ==> ascii_letter(bytes[i]),
        ascii_letters_end(bytes, p) < bytes.len() ==> !ascii_letter(
            bytes[ascii_letters_end(bytes, p)],
        ),
    decreases bytes.len() - p,
{
    if p < bytes.len() && ascii_letter(bytes[p]) {
        law_ascii_letters(bytes, p + 1, b, i);
    }
}

/// The boundary that is found is one, lies in the range, and none in the range is
/// before it; if there is one in the range, one is found.
pub proof fn law_first_boundary(
    scheme: FastSplitScheme,
    bytes: Seq<u8>,
    target: int,
    limit: int,
    p: Option<usize>,
    q: int,
)
    requires
        scheme.is_first_boundary(bytes, target, limit, p),
    ensures
        p matches Some(found) ==> target <= found < limit && bytes[found - 1] == '\n' as int
            && bytes[found as int] < 0x80,
        target <= q < limit && scheme.is_safe_boundary(bytes, q) ==> p is Some && p->0 <= q,
{
}

} // verus!
