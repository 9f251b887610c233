//! Hand-specialized scanners for known pre-tokenization split patterns.
//!
//! The split patterns of common tokenizers are known ahead of time, so a text
//! is cut by a scanner written for the pattern: a first-byte dispatch and run
//! scans, in place of a general regex engine.

use vstd::prelude::*;

use super::decode::{decode_cp, lemma_char_bounds};
use super::regex::{
    alt, contraction, in_set, letters, match_at, next, numbers, qwen2_regex, symbols, whitespace,
    CharSet,
};
use super::runs::{
    chain, contraction_end, lemma_alt, lemma_chain_bounds, lemma_chain_order, lemma_chain_push,
    lemma_contraction, lemma_letters, lemma_numbers, lemma_scan, lemma_symbols, lemma_whitespace,
    newline_in_run, scan, scan_upto, white_end,
};
use super::swar::{
    ascii_letter, ascii_letters_end, is_ascii_ws, is_digit, is_letter, swar_scan_letters,
};
use super::tables::ClassTables;
use super::unicode::CharClass;

verus! {

/// Carriage return.
pub const CR: u8 = 0x0D;

/// Line feed.
pub const LF: u8 = 0x0A;

/// `/`
pub const SLASH_BYTE: u8 = 0x2F;

/// `'`
pub const APOSTROPHE: u8 = 0x27;

/// A space.
pub const SPACE: u8 = 0x20;

proof fn lemma_ascii_letters(bytes: Seq<u8>, p: int)
    requires
        0 <= p <= bytes.len(),
    ensures
        scan(CharSet::Letter, false, bytes, p) == scan(
            CharSet::Letter,
            false,
            bytes,
            ascii_letters_end(bytes, p),
        ),
        ascii_letters_end(bytes, p) < bytes.len() ==> !ascii_letter(
            bytes[ascii_letters_end(bytes, p)],
        ),
    decreases bytes.len() - p,
{
    if p < bytes.len() && ascii_letter(bytes[p]) {
        lemma_ascii_letters(bytes, p + 1);
    }
}

/// `\p{L}+` continuation: past ASCII letters eight at a time, then non-ASCII
/// letters via the class table.
pub fn scan_letters_from(tables: &ClassTables, bytes: &[u8], pos: usize) -> (end: usize)
    requires
        pos <= bytes.len(),
    ensures
        end == scan(CharSet::Letter, false, bytes@, pos as int),
        pos <= end <= bytes.len(),
{
    let len: usize = bytes.len();
    let mut p: usize = pos;
    loop
        invariant
            pos <= p <= len,
            len == bytes.len(),
            scan(CharSet::Letter, false, bytes@, pos as int) == scan(
                CharSet::Letter,
                false,
                bytes@,
                p as int,
            ),
        decreases len - p,
    {
        proof {
            lemma_ascii_letters(bytes@, p as int);
        }
        p = swar_scan_letters(bytes, p);
        if p < len && bytes[p] >= 0x80 {
            let (cp, l): (u32, usize) = decode_cp(bytes, p);
            if tables.class_of(cp) == CharClass::Letter {
                p += l;
                continue;
            }
        }
        return p;
    }
}

/// `[^\s\p{L}\p{N}]+` continuation.
pub fn scan_other_from(tables: &ClassTables, bytes: &[u8], pos: usize) -> (end: usize)
    requires
        pos <= bytes.len(),
    ensures
        end == scan(CharSet::Symbol, false, bytes@, pos as int),
        pos <= end <= bytes.len(),
{
    let len: usize = bytes.len();
    let mut p: usize = pos;
    while p < len
        invariant
            pos <= p <= len,
            len == bytes.len(),
            scan(CharSet::Symbol, false, bytes@, pos as int) == scan(
                CharSet::Symbol,
                false,
                bytes@,
                p as int,
            ),
        decreases len - p,
    {
        let b: u8 = bytes[p];
        if b >= 0x80 {
            let (cp, l): (u32, usize) = decode_cp(bytes, p);
            if tables.class_of(cp) != CharClass::Other {
                return p;
            }
            p += l;
        } else {
            if is_letter(b) || is_digit(b) || is_ascii_ws(b) {
                return p;
            }
            p += 1;
        }
    }
    p
}

/// `[\r\n]*`: past a run of CR/LF bytes.
pub fn scan_newlines(bytes: &[u8], pos: usize) -> (end: usize)
    requires
        pos <= bytes.len(),
    ensures
        end == scan(CharSet::Newline, false, bytes@, pos as int),
        pos <= end <= bytes.len(),
{
    let mut p: usize = pos;
    while p < bytes.len() && (bytes[p] == CR || bytes[p] == LF)
        invariant
            pos <= p <= bytes.len(),
            scan(CharSet::Newline, false, bytes@, pos as int) == scan(
                CharSet::Newline,
                false,
                bytes@,
                p as int,
            ),
        decreases bytes.len() - p,
    {
        p += 1;
    }
    p
}

/// `\p{N}{1,MAX}` continuation: extend a number run that already matched
/// `consumed` characters to at most `MAX` in total. ASCII digits and other
/// `\p{N}` count alike.
pub fn scan_numbers_max<const MAX: u32>(
    tables: &ClassTables,
    bytes: &[u8],
    pos: usize,
    consumed: u32,
) -> (end: usize)
    requires
        pos <= bytes.len(),
        consumed <= MAX,
    ensures
        end == scan_upto(CharSet::Number, false, bytes@, pos as int, (MAX - consumed) as nat),
        pos <= end <= bytes.len(),
{
    let len: usize = bytes.len();
    let mut p: usize = pos;
    let mut count: u32 = consumed;
    while count < MAX && p < len
        invariant
            pos <= p <= len,
            len == bytes.len(),
            count <= MAX,
            scan_upto(CharSet::Number, false, bytes@, pos as int, (MAX - consumed) as nat)
                == scan_upto(CharSet::Number, false, bytes@, p as int, (MAX - count) as nat),
        decreases len - p,
    {
        let b: u8 = bytes[p];
        if is_digit(b) {
            p += 1;
            count += 1;
        } else if b >= 0x80 {
            let (cp, l): (u32, usize) = decode_cp(bytes, p);
            if tables.class_of(cp) != CharClass::Number {
                return p;
            }
            p += l;
            count += 1;
        } else {
            return p;
        }
    }
    p
}

/// If the character at `pos` is `\p{L}`, the offset just past it.
pub fn letter_end_at(tables: &ClassTables, bytes: &[u8], pos: usize) -> (end: Option<usize>)
    requires
        pos <= bytes.len(),
    ensures
        match end {
            Some(e) => in_set(CharSet::Letter, false, bytes@, pos as int) && e == next(
                bytes@,
                pos as int,
            ) && e <= bytes.len(),
            None => !in_set(CharSet::Letter, false, bytes@, pos as int),
        },
{
    if pos >= bytes.len() {
        return None;
    }
    let b: u8 = bytes[pos];
    if is_letter(b) {
        return Some(pos + 1);
    }
    if b >= 0x80 {
        let (cp, l): (u32, usize) = decode_cp(bytes, pos);
        if tables.class_of(cp) == CharClass::Letter {
            return Some(pos + l);
        }
    }
    None
}

/// Whitespace-led token starting at `start`: the alternatives
/// `\s*[\r\n]+`, `\s+(?!\S)` and `\s+`, in that priority.
pub fn ws_token_end(tables: &ClassTables, bytes: &[u8], start: usize) -> (end: usize)
    requires
        start < bytes.len(),
        in_set(CharSet::White, false, bytes@, start as int),
    ensures
        white_end(false, bytes@, start as int, end as int),
        start < end <= bytes.len(),
{
    let len: usize = bytes.len();
    let mut p: usize = start;
    let mut last_nl_end: usize = 0;
    let mut last_char_start: usize = start;
    proof {
        lemma_white_start(false, bytes@, start as int);
    }
    while p < len
        invariant
            white_progress(
                false,
                bytes@,
                start as int,
                p as int,
                last_nl_end as int,
                last_char_start as int,
            ),
            len == bytes.len(),
        ensures
            white_progress(
                false,
                bytes@,
                start as int,
                p as int,
                last_nl_end as int,
                last_char_start as int,
            ),
            !in_set(CharSet::White, false, bytes@, p as int),
        decreases len - p,
    {
        let b: u8 = bytes[p];
        if b == CR || b == LF {
            proof {
                lemma_white_step(
                    false,
                    bytes@,
                    start as int,
                    p as int,
                    last_nl_end as int,
                    last_char_start as int,
                );
            }
            last_char_start = p;
            p += 1;
            last_nl_end = p;
        } else if is_ascii_ws(b) {
            proof {
                lemma_white_step(
                    false,
                    bytes@,
                    start as int,
                    p as int,
                    last_nl_end as int,
                    last_char_start as int,
                );
            }
            last_char_start = p;
            p += 1;
        } else if b >= 0x80 {
            let (cp, l): (u32, usize) = decode_cp(bytes, p);
            if tables.class_of(cp) == CharClass::Whitespace {
                proof {
                    lemma_white_step(
                        false,
                        bytes@,
                        start as int,
                        p as int,
                        last_nl_end as int,
                        last_char_start as int,
                    );
                }
                last_char_start = p;
                p += l;
            } else {
                break;
            }
        } else {
            break;
        }
    }
    proof {
        lemma_white_stop(
            false,
            bytes@,
            start as int,
            p as int,
            last_nl_end as int,
            last_char_start as int,
        );
    }
    if last_nl_end != 0 {
        // `\s*[\r\n]+`: through the last newline, even at the end of the text
        return last_nl_end;
    }
    if p >= len {
        // `\s+(?!\S)`: nothing follows
        return p;
    }
    if last_char_start > start {
        // `\s+(?!\S)`: all but the last whitespace character
        return last_char_start;
    }
    // `\s+`: single whitespace character before content
    p
}

/// What a scan of a whitespace run from `start` knows at `p`: the end of the
/// last line end (0 if there is none), and where the last character starts.
pub open spec fn white_progress(
    han: bool,
    bytes: Seq<u8>,
    start: int,
    p: int,
    last_nl_end: int,
    last_char_start: int,
) -> bool {
    &&& 0 <= start < bytes.len()
    &&& start <= p <= bytes.len()
    &&& in_set(CharSet::White, han, bytes, start)
    &&& chain(CharSet::White, han, bytes, start, p)
    &&& last_nl_end != 0 ==> newline_in_run(han, bytes, start, last_nl_end - 1)
    &&& forall|q: int|
        q < p && #[trigger] newline_in_run(han, bytes, start, q) ==> q < last_nl_end
    &&& if p == start {
        last_char_start == start && last_nl_end == 0
    } else {
        &&& chain(CharSet::White, han, bytes, start, last_char_start)
        &&& in_set(CharSet::White, han, bytes, last_char_start)
        &&& next(bytes, last_char_start) == p
        &&& last_nl_end <= p
    }
}

/// A whitespace character starts a run.
pub proof fn lemma_white_start(han: bool, bytes: Seq<u8>, start: int)
    requires
        in_set(CharSet::White, han, bytes, start),
    ensures
        white_progress(han, bytes, start, start, 0, start),
{
    assert forall|q: int|
        q < start && #[trigger] newline_in_run(han, bytes, start, q) implies false by {
        lemma_chain_bounds(CharSet::White, han, bytes, start, q);
    }
}

/// A whitespace character that is no line end and that no whitespace follows is
/// a token.
pub proof fn lemma_white_single(han: bool, bytes: Seq<u8>, p: int)
    requires
        in_set(CharSet::White, han, bytes, p),
        !in_set(CharSet::Newline, han, bytes, p),
        !in_set(CharSet::White, han, bytes, next(bytes, p)),
    ensures
        match_at(whitespace(), han, bytes, p) == Some(next(bytes, p)),
{
    lemma_white_start(han, bytes, p);
    lemma_white_step(han, bytes, p, p, 0, p);
    lemma_white_stop(han, bytes, p, next(bytes, p), 0, p);
    lemma_whitespace(han, bytes, p, next(bytes, p));
}

/// One more whitespace character keeps [`white_progress`].
pub proof fn lemma_white_step(
    han: bool,
    bytes: Seq<u8>,
    start: int,
    p: int,
    last_nl_end: int,
    last_char_start: int,
)
    requires
        white_progress(han, bytes, start, p, last_nl_end, last_char_start),
        in_set(CharSet::White, han, bytes, p),
    ensures
        white_progress(
            han,
            bytes,
            start,
            next(bytes, p),
            if in_set(CharSet::Newline, han, bytes, p) {
                next(bytes, p)
            } else {
                last_nl_end
            },
            p,
        ),
{
    lemma_char_bounds(bytes, p);
    lemma_chain_push(CharSet::White, han, bytes, start, p);
    assert forall|q: int|
        q < next(bytes, p) && #[trigger] newline_in_run(han, bytes, start, q) implies q < (
    if in_set(CharSet::Newline, han, bytes, p) {
        next(bytes, p)
    } else {
        last_nl_end
    }) by {
        if q >= p {
            lemma_chain_order(CharSet::White, han, bytes, start, p, q);
            if p != q {
                lemma_chain_bounds(CharSet::White, han, bytes, next(bytes, p), q);
            }
        }
    }
}

/// At the end of the run, [`white_progress`] says where the token ends.
pub proof fn lemma_white_stop(
    han: bool,
    bytes: Seq<u8>,
    start: int,
    p: int,
    last_nl_end: int,
    last_char_start: int,
)
    requires
        white_progress(han, bytes, start, p, last_nl_end, last_char_start),
        !in_set(CharSet::White, han, bytes, p),
    ensures
        start < p,
        start <= last_char_start < p,
        last_nl_end != 0 ==> white_end(han, bytes, start, last_nl_end) && start < last_nl_end <= p,
        last_nl_end == 0 && (p == bytes.len() || last_char_start == start) ==> white_end(
            han,
            bytes,
            start,
            p,
        ),
        last_nl_end == 0 && p < bytes.len() && last_char_start > start ==> white_end(
            han,
            bytes,
            start,
            last_char_start,
        ),
{
    lemma_chain_bounds(CharSet::White, han, bytes, start, p);
    lemma_chain_bounds(CharSet::White, han, bytes, start, last_char_start);
    lemma_char_bounds(bytes, last_char_start);
    assert forall|q: int| #[trigger] newline_in_run(han, bytes, start, q) implies start <= q
        < p by {
        lemma_chain_bounds(CharSet::White, han, bytes, start, q);
        lemma_scan(CharSet::White, han, bytes, q);
    }
    if last_nl_end == 0 && p < bytes.len() && last_char_start > start {
        if next(bytes, start) == p {
            lemma_chain_order(
                CharSet::White,
                han,
                bytes,
                start,
                start,
                last_char_start,
            );
            lemma_chain_bounds(
                CharSet::White,
                han,
                bytes,
                next(bytes, start),
                last_char_start,
            );
        }
    }
}

/// The Qwen2 pattern, alternative by alternative.
proof fn lemma_qwen2(bytes: Seq<u8>, p: int, max: nat)
    requires
        0 <= p < bytes.len(),
        max >= 1,
    ensures
        match_at(qwen2_regex(max), false, bytes, p) == if contraction_end(bytes, p) is Some {
            contraction_end(bytes, p)
        } else if in_set(CharSet::Letter, false, bytes, p) {
            Some(scan(CharSet::Letter, false, bytes, p))
        } else if in_set(CharSet::Prefix, false, bytes, p) && in_set(
            CharSet::Letter,
            false,
            bytes,
            next(bytes, p),
        ) {
            Some(scan(CharSet::Letter, false, bytes, next(bytes, p)))
        } else if in_set(CharSet::Number, false, bytes, p) {
            Some(scan_upto(CharSet::Number, false, bytes, p, max))
        } else if in_set(CharSet::Symbol, false, bytes, p) {
            Some(
                scan(
                    CharSet::Newline,
                    false,
                    bytes,
                    scan(CharSet::Symbol, false, bytes, p),
                ),
            )
        } else if in_set(CharSet::Space, false, bytes, p) && in_set(
            CharSet::Symbol,
            false,
            bytes,
            next(bytes, p),
        ) {
            Some(
                scan(
                    CharSet::Newline,
                    false,
                    bytes,
                    scan(CharSet::Symbol, false, bytes, next(bytes, p)),
                ),
            )
        } else {
            match_at(whitespace(), false, bytes, p)
        },
{
    let space = alt(symbols(CharSet::Newline), whitespace());
    let number = alt(numbers(max), space);
    let letter = alt(letters(), number);
    lemma_alt(contraction(), letter, false, bytes, p);
    lemma_alt(letters(), number, false, bytes, p);
    lemma_alt(numbers(max), space, false, bytes, p);
    lemma_alt(symbols(CharSet::Newline), whitespace(), false, bytes, p);
    lemma_contraction(false, bytes, p);
    lemma_letters(false, bytes, p);
    lemma_numbers(false, bytes, p, max);
    lemma_symbols(CharSet::Newline, false, bytes, p);
}

/// The whitespace token at `pos`, once no other alternative applies.
fn qwen2_white(tables: &ClassTables, bytes: &[u8], pos: usize) -> (end: usize)
    requires
        pos < bytes.len(),
        in_set(CharSet::White, false, bytes@, pos as int),
    ensures
        match_at(whitespace(), false, bytes@, pos as int) == Some(end as int),
        pos < end <= bytes.len(),
{
    let end: usize = ws_token_end(tables, bytes, pos);
    proof {
        lemma_whitespace(false, bytes@, pos as int, end as int);
    }
    end
}

/// The end of the contraction whose apostrophe is at `pos`, matched case
/// insensitively. U+017F, the long s, folds to `s`.
pub fn contraction_at(bytes: &[u8], pos: usize) -> (end: Option<usize>)
    requires
        pos < bytes.len(),
        bytes[pos as int] == APOSTROPHE,
    ensures
        match end {
            Some(e) => contraction_end(bytes@, pos as int) == Some(e as int) && pos < e
                <= bytes.len(),
            None => contraction_end(bytes@, pos as int) is None,
        },
{
    let left: usize = bytes.len() - pos;
    if left < 2 {
        return None;
    }
    let b1: u8 = lowered(bytes[pos + 1]);
    if b1 == 0x73 || b1 == 0x64 || b1 == 0x6D || b1 == 0x74 {
        return Some(pos + 2);
    }
    if left < 3 {
        return None;
    }
    let b2: u8 = lowered(bytes[pos + 2]);
    if b1 == 0x6C && b2 == 0x6C || b1 == 0x76 && b2 == 0x65 || b1 == 0x72 && b2 == 0x65 {
        return Some(pos + 3);
    }
    if bytes[pos + 1] == 0xC5 && bytes[pos + 2] == 0xBF {
        return Some(pos + 3);
    }
    None
}

/// The byte, in lower case if it is an ASCII letter.
fn lowered(b: u8) -> (r: u8)
    ensures
        r == if super::regex::ascii_upper(b) {
            (b + 0x20) as u8
        } else {
            b
        },
{
    if 0x41 <= b && b <= 0x5A {
        b + 0x20
    } else {
        b
    }
}

/// Advance past one Qwen2-scheme token starting at `pos`.
///
/// `MAX_DIGITS` is the number-run cap: 1 for the Qwen2 pattern's `\p{N}`, 3 for
/// the variant with `\p{N}{1,3}` (the only difference between the two).
pub fn qwen2_advance<const MAX_DIGITS: u32>(
    tables: &ClassTables,
    bytes: &[u8],
    pos: usize,
) -> (end: usize)
    requires
        pos < bytes.len(),
        MAX_DIGITS >= 1,
    ensures
        match_at(qwen2_regex(MAX_DIGITS as nat), false, bytes@, pos as int) == Some(end as int),
        pos < end <= bytes.len(),
{
    proof {
        lemma_qwen2(bytes@, pos as int, MAX_DIGITS as nat);
        lemma_char_bounds(bytes@, pos as int);
    }
    let b0: u8 = bytes[pos];

    // Hot path 1: ASCII letter, `\p{L}+` with empty prefix
    if is_letter(b0) {
        return scan_letters_from(tables, bytes, pos + 1);
    }
    // Hot path 2: space prefix
    if b0 == SPACE {
        return qwen2_space::<MAX_DIGITS>(tables, bytes, pos);
    }
    // Non-ASCII
    if b0 >= 0x80 {
        return qwen2_non_ascii::<MAX_DIGITS>(tables, bytes, pos);
    }
    // ASCII digit: `\p{N}` (one character) or `\p{N}{1,3}`
    if is_digit(b0) {
        if MAX_DIGITS == 1 {
            proof {
                assert(scan_upto(CharSet::Number, false, bytes@, pos + 1, 0) == pos + 1);
            }
            return pos + 1;
        }
        return scan_numbers_max::<MAX_DIGITS>(tables, bytes, pos + 1, 1);
    }
    // Apostrophe: case-insensitive contractions
    if b0 == APOSTROPHE {
        if let Some(end) = contraction_at(bytes, pos) {
            return end;
        }
    }
    // \r and \n are excluded from the letter-run prefix
    if b0 == CR || b0 == LF {
        return qwen2_white(tables, bytes, pos);
    }
    // Any other ASCII whitespace, punctuation or symbol may prefix a letter run
    if let Some(p) = letter_end_at(tables, bytes, pos + 1) {
        return scan_letters_from(tables, bytes, p);
    }
    if is_ascii_ws(b0) {
        return qwen2_white(tables, bytes, pos);
    }
    let p: usize = scan_other_from(tables, bytes, pos + 1);
    scan_newlines(bytes, p)
}

/// [`qwen2_advance`] where the first byte is a space.
fn qwen2_space<const MAX_DIGITS: u32>(
    tables: &ClassTables,
    bytes: &[u8],
    pos: usize,
) -> (end: usize)
    requires
        pos < bytes.len(),
        MAX_DIGITS >= 1,
        bytes[pos as int] == SPACE,
    ensures
        match_at(qwen2_regex(MAX_DIGITS as nat), false, bytes@, pos as int) == Some(end as int),
        pos < end <= bytes.len(),
{
    proof {
        lemma_qwen2(bytes@, pos as int, MAX_DIGITS as nat);
    }
    if pos + 1 >= bytes.len() {
        // trailing lone space (`\s+(?!\S)` at the end of the text)
        proof {
            lemma_white_single(false, bytes@, pos as int);
        }
        return pos + 1;
    }
    let b1: u8 = bytes[pos + 1];
    if is_letter(b1) {
        // " word"
        return scan_letters_from(tables, bytes, pos + 2);
    }
    if b1 < 0x80 {
        if is_digit(b1) {
            // numbers never absorb the space
            proof {
                lemma_white_single(false, bytes@, pos as int);
            }
            return pos + 1;
        }
        if is_ascii_ws(b1) {
            return qwen2_white(tables, bytes, pos);
        }
        // ` ?[^\s\p{L}\p{N}]+[\r\n]*`
        let p: usize = scan_other_from(tables, bytes, pos + 2);
        return scan_newlines(bytes, p);
    }
    let (cp, l): (u32, usize) = decode_cp(bytes, pos + 1);
    let p1: usize = pos + 1 + l;
    match tables.class_of(cp) {
        CharClass::Letter => scan_letters_from(tables, bytes, p1),
        CharClass::Whitespace => qwen2_white(tables, bytes, pos),
        CharClass::Number => {
            proof {
                lemma_white_single(false, bytes@, pos as int);
            }
            pos + 1
        },
        CharClass::Other => {
            let p: usize = scan_other_from(tables, bytes, p1);
            scan_newlines(bytes, p)
        },
    }
}

/// [`qwen2_advance`] where the first character is not ASCII.
fn qwen2_non_ascii<const MAX_DIGITS: u32>(
    tables: &ClassTables,
    bytes: &[u8],
    pos: usize,
) -> (end: usize)
    requires
        pos < bytes.len(),
        MAX_DIGITS >= 1,
        bytes[pos as int] >= 0x80,
    ensures
        match_at(qwen2_regex(MAX_DIGITS as nat), false, bytes@, pos as int) == Some(end as int),
        pos < end <= bytes.len(),
{
    proof {
        lemma_qwen2(bytes@, pos as int, MAX_DIGITS as nat);
    }
    let (cp, l): (u32, usize) = decode_cp(bytes, pos);
    let p0: usize = pos + l;
    let class = tables.class_of(cp);
    if class == CharClass::Letter {
        return scan_letters_from(tables, bytes, p0);
    }
    if class == CharClass::Number {
        if MAX_DIGITS == 1 {
            // `\p{N}`: exactly one character
            proof {
                assert(scan_upto(CharSet::Number, false, bytes@, p0 as int, 0) == p0);
            }
            return p0;
        }
        return scan_numbers_max::<MAX_DIGITS>(tables, bytes, p0, 1);
    }
    // Any non-letter/number character except \r\n may prefix a letter run
    if let Some(p) = letter_end_at(tables, bytes, p0) {
        return scan_letters_from(tables, bytes, p);
    }
    if class == CharClass::Whitespace {
        return qwen2_white(tables, bytes, pos);
    }
    let p: usize = scan_other_from(tables, bytes, p0);
    scan_newlines(bytes, p)
}

} // verus!
