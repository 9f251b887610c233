//! What holds of the schemes as a whole: tokens tile a text and stay on character
//! boundaries.

use vstd::prelude::*;
use vstd::utf8::{is_char_boundary, valid_utf8};

use super::decode::{char_cp, law_decodes_valid_utf8, lemma_char_bounds};
use super::fast_split::SLASH_BYTE;
use super::regex::{
    after, alt, case_regex, cat, contraction, done, family_regex, in_set, letters, lower_run,
    match_at, next, numbers, plus, qwen2_regex, run, star, symbols, upper_run, whitespace, CharSet,
    Rx,
};
use super::runs::{
    lemma_alt, lemma_letters, lemma_numbers, lemma_plus_run, lemma_scan, lemma_symbols, scan,
};
use super::scheme::{FastSplitScheme, KIMI_PATTERN, O200K_PATTERN, QWEN2_N3_PATTERN, QWEN2_PATTERN};
use super::unicode::is_han_cp;

verus! {

/// Every way through the pattern takes at least one character.
pub open spec fn takes_some(rx: Rx) -> bool
    decreases rx,
{
    match rx {
        Rx::Chars(_) => true,
        Rx::Cat(a, b) => takes_some(*a) || takes_some(*b),
        Rx::Alt(a, b) => takes_some(*a) && takes_some(*b),
        _ => false,
    }
}

/// `p` and `q` are offsets inside the text, `q` not before `p`, and `q` is a
/// character boundary if the text is UTF-8 and `p` is one.
spec fn reached(bytes: Seq<u8>, p: int, q: int) -> bool {
    &&& 0 <= p <= q <= bytes.len()
    &&& valid_utf8(bytes) && is_char_boundary(bytes, p) ==> is_char_boundary(bytes, q)
}

proof fn lemma_reached_next(bytes: Seq<u8>, p: int, q: int)
    requires
        reached(bytes, p, q),
        q < bytes.len(),
    ensures
        reached(bytes, p, next(bytes, q)),
        q < next(bytes, q),
{
    lemma_char_bounds(bytes, q);
    if valid_utf8(bytes) && is_char_boundary(bytes, p) {
        law_decodes_valid_utf8(bytes, q);
    }
}

proof fn lemma_star_reach(
    set: CharSet,
    han: bool,
    bytes: Seq<u8>,
    start: int,
    p: int,
    k: spec_fn(int) -> Option<int>,
) -> (q: int)
    requires
        reached(bytes, start, p),
        star(set, han, bytes, p, k) is Some,
    ensures
        reached(bytes, start, q),
        p <= q,
        k(q) == star(set, han, bytes, p, k),
    decreases bytes.len() - p,
{
    if in_set(set, han, bytes, p) {
        lemma_reached_next(bytes, start, p);
        if star(set, han, bytes, next(bytes, p), k) is Some {
            return lemma_star_reach(set, han, bytes, start, next(bytes, p), k);
        }
    }
    p
}

/// A pattern that matches ends at an offset from which the rest goes on.
proof fn lemma_reach(
    rx: Rx,
    han: bool,
    bytes: Seq<u8>,
    start: int,
    p: int,
    k: spec_fn(int) -> Option<int>,
) -> (q: int)
    requires
        reached(bytes, start, p),
        run(rx, han, bytes, p, k) is Some,
    ensures
        reached(bytes, start, q),
        p <= q,
        takes_some(rx) ==> p < q,
        k(q) == run(rx, han, bytes, p, k),
    decreases rx,
{
    match rx {
        Rx::Empty => p,
        Rx::Chars(set) => {
            lemma_reached_next(bytes, start, p);
            next(bytes, p)
        },
        Rx::Cat(a, b) => {
            let k2 = after(*b, han, bytes, k);
            let q = lemma_reach(*a, han, bytes, start, p, k2);
            lemma_reach(*b, han, bytes, start, q, k)
        },
        Rx::Alt(a, b) => {
            if run(*a, han, bytes, p, k) is Some {
                lemma_reach(*a, han, bytes, start, p, k)
            } else {
                lemma_reach(*b, han, bytes, start, p, k)
            }
        },
        Rx::Opt(a) => {
            if run(*a, han, bytes, p, k) is Some {
                lemma_reach(*a, han, bytes, start, p, k)
            } else {
                p
            }
        },
        Rx::Star(set) => lemma_star_reach(set, han, bytes, start, p, k),
        Rx::NotAhead(set) => p,
    }
}

proof fn lemma_parts_take_some()
    ensures
        takes_some(contraction()),
        takes_some(letters()),
        forall|max: nat| takes_some(#[trigger] numbers(max)),
        forall|tail: CharSet| takes_some(#[trigger] symbols(tail)),
        takes_some(whitespace()),
        forall|c: bool| takes_some(#[trigger] lower_run(c)),
        forall|c: bool| takes_some(#[trigger] upper_run(c)),
        takes_some(plus(CharSet::Han)),
{
    reveal_with_fuel(takes_some, 9);
}

proof fn lemma_scheme_takes_some(scheme: FastSplitScheme)
    ensures
        takes_some(scheme.regex()),
{
    lemma_parts_take_some();
    reveal_with_fuel(takes_some, 7);
}

proof fn lemma_whitespace_matches(han: bool, bytes: Seq<u8>, p: int)
    requires
        0 <= p < bytes.len(),
        in_set(CharSet::White, han, bytes, p),
    ensures
        match_at(whitespace(), han, bytes, p) is Some,
{
    let white = CharSet::White;
    let lines = cat(Rx::Star(white), plus(CharSet::Newline));
    let all_but = cat(plus(white), Rx::NotAhead(CharSet::NonWhite));
    lemma_alt(lines, alt(all_but, plus(white)), han, bytes, p);
    lemma_alt(all_but, plus(white), han, bytes, p);
    lemma_plus_run(white, han, bytes, p);
}

/// The alternatives of the Qwen2 patterns cover every character.
proof fn lemma_qwen2_covers(bytes: Seq<u8>, p: int, max: nat)
    requires
        0 <= p < bytes.len(),
        max >= 1,
    ensures
        match_at(qwen2_regex(max), false, bytes, p) is Some,
{
    let space = alt(symbols(CharSet::Newline), whitespace());
    let number = alt(numbers(max), space);
    let letter = alt(letters(), number);
    lemma_alt(contraction(), letter, false, bytes, p);
    lemma_alt(letters(), number, false, bytes, p);
    lemma_alt(numbers(max), space, false, bytes, p);
    lemma_alt(symbols(CharSet::Newline), whitespace(), false, bytes, p);
    lemma_letters(false, bytes, p);
    lemma_numbers(false, bytes, p, max);
    lemma_symbols(CharSet::Newline, false, bytes, p);
    if in_set(CharSet::White, false, bytes, p) {
        lemma_whitespace_matches(false, bytes, p);
    }
}

/// The alternatives of the o200k family's patterns cover every character.
proof fn lemma_family_covers(
    contractions: bool,
    digits3: bool,
    slash: bool,
    han: bool,
    bytes: Seq<u8>,
    p: int,
)
    requires
        0 <= p < bytes.len(),
    ensures
        match_at(family_regex(contractions, digits3, slash, han), han, bytes, p) is Some,
{
    let max: nat = if digits3 {
        3
    } else {
        1
    };
    let tail = if slash {
        CharSet::NewlineOrSlash
    } else {
        CharSet::Newline
    };
    let rest = alt(numbers(max), alt(symbols(tail), whitespace()));
    if han {
        lemma_alt(plus(CharSet::Han), case_regex(contractions, max, slash), han, bytes, p);
        lemma_plus_run(CharSet::Han, han, bytes, p);
    }
    lemma_alt(numbers(max), alt(symbols(tail), whitespace()), han, bytes, p);
    lemma_alt(symbols(tail), whitespace(), han, bytes, p);
    lemma_numbers(han, bytes, p, max);
    lemma_symbols(tail, han, bytes, p);
    if in_set(CharSet::White, han, bytes, p) {
        lemma_whitespace_matches(han, bytes, p);
    }
    lemma_alt(lower_run(contractions), alt(upper_run(contractions), rest), han, bytes, p);
    lemma_alt(upper_run(contractions), rest, han, bytes, p);
    if super::case_runs::in_brackets(han, bytes, p) {
        super::case_runs::lemma_letter_matches(contractions, rest, han, bytes, p);
    }
}

/// A scheme's pattern matches at every offset of a text; the match is not
/// empty, lies inside the text, and ends on a character boundary if the text is
/// UTF-8 and the offset is one.
pub proof fn law_token(scheme: FastSplitScheme, bytes: Seq<u8>, p: int)
    requires
        0 <= p < bytes.len(),
    ensures
        scheme.token_end(bytes, p) matches Some(end) && {
            &&& p < end <= bytes.len()
            &&& valid_utf8(bytes) && is_char_boundary(bytes, p) ==> is_char_boundary(bytes, end)
        },
{
    match scheme {
        FastSplitScheme::Qwen2 => lemma_qwen2_covers(bytes, p, 1),
        FastSplitScheme::Qwen2N3 => lemma_qwen2_covers(bytes, p, 3),
        FastSplitScheme::Kimi => lemma_family_covers(true, true, false, true, bytes, p),
        FastSplitScheme::O200k => lemma_family_covers(true, true, true, false, bytes, p),
    }
    lemma_scheme_takes_some(scheme);
    lemma_reach(scheme.regex(), scheme.tells_han(), bytes, p, p, done());
}

/// The leftmost match of a scheme's pattern that starts at `p` or later, as
/// start and end.
pub open spec fn find_from(scheme: FastSplitScheme, bytes: Seq<u8>, p: int) -> Option<(int, int)>
    decreases bytes.len() + 1 - p,
{
    if p > bytes.len() {
        None
    } else {
        match scheme.token_end(bytes, p) {
            Some(end) => Some((p, end)),
            None => find_from(scheme, bytes, p + 1),
        }
    }
}

/// The matches that a search over the text gives from `p` on, each starting its
/// search where the one before it ended.
pub open spec fn find_iter(scheme: FastSplitScheme, bytes: Seq<u8>, p: int) -> Seq<(int, int)>
    decreases bytes.len() - p,
{
    match find_from(scheme, bytes, p) {
        Some((start, end)) => if p < end <= bytes.len() {
            seq![(start, end)] + find_iter(scheme, bytes, end)
        } else {
            seq![]
        },
        None => seq![],
    }
}

/// The tokens from `p` on, each starting where the one before it ended.
pub open spec fn tokens(scheme: FastSplitScheme, bytes: Seq<u8>, p: int) -> Seq<(int, int)>
    decreases bytes.len() - p,
{
    match scheme.token_end(bytes, p) {
        Some(end) => if p < end <= bytes.len() {
            seq![(p, end)] + tokens(scheme, bytes, end)
        } else {
            seq![]
        },
        None => seq![],
    }
}

/// The spans follow each other without gaps from `p` to `end`.
pub open spec fn tiles(spans: Seq<(int, int)>, p: int, end: int) -> bool
    decreases spans.len(),
{
    if spans.len() == 0 {
        p == end
    } else {
        &&& spans[0].0 == p
        &&& p < spans[0].1
        &&& tiles(spans.drop_first(), spans[0].1, end)
    }
}

/// There is no token at the end of a text.
pub proof fn lemma_no_token_at_end(scheme: FastSplitScheme, bytes: Seq<u8>)
    ensures
        scheme.token_end(bytes, bytes.len() as int) is None,
{
    let p = bytes.len() as int;
    if scheme.token_end(bytes, p) is Some {
        lemma_scheme_takes_some(scheme);
        lemma_reach(scheme.regex(), scheme.tells_han(), bytes, p, p, done());
    }
}

/// Going from token to token gives exactly the spans that a search over the
/// text for the scheme's pattern finds, and they tile the text with no gaps.
pub proof fn law_tokens_tile(scheme: FastSplitScheme, bytes: Seq<u8>, p: int)
    requires
        0 <= p <= bytes.len(),
    ensures
        tokens(scheme, bytes, p) == find_iter(scheme, bytes, p),
        tiles(tokens(scheme, bytes, p), p, bytes.len() as int),
    decreases bytes.len() - p,
{
    if p < bytes.len() {
        law_token(scheme, bytes, p);
        let end = scheme.token_end(bytes, p)->0;
        law_tokens_tile(scheme, bytes, end);
        assert(tokens(scheme, bytes, p).drop_first() =~= tokens(scheme, bytes, end));
    } else {
        lemma_no_token_at_end(scheme, bytes);
    }
}

/// No character of the text is `\p{Han}`.
pub open spec fn has_no_han(bytes: Seq<u8>) -> bool {
    forall|p: int|
        0 <= p < bytes.len() && #[trigger] is_char_boundary(bytes, p) ==> !is_han_cp(
            char_cp(bytes, p),
        )
}

/// No byte of the text is `/`.
pub open spec fn has_no_slash(bytes: Seq<u8>) -> bool {
    forall|p: int| 0 <= p < bytes.len() ==> #[trigger] bytes[p] != SLASH_BYTE
}

/// Without Han, a character belongs to the same sets whether Han is told apart
/// or not.
proof fn lemma_no_han_char(set: CharSet, bytes: Seq<u8>, p: int)
    requires
        has_no_han(bytes),
        0 <= p,
        is_char_boundary(bytes, p),
    ensures
        in_set(set, true, bytes, p) == in_set(set, false, bytes, p),
{
}

proof fn lemma_no_han_star(
    set: CharSet,
    bytes: Seq<u8>,
    p: int,
    ka: spec_fn(int) -> Option<int>,
    kb: spec_fn(int) -> Option<int>,
)
    requires
        valid_utf8(bytes),
        has_no_han(bytes),
        0 <= p,
        is_char_boundary(bytes, p),
        forall|q: int| 0 <= q && is_char_boundary(bytes, q) ==> #[trigger] ka(q) == kb(q),
    ensures
        star(set, true, bytes, p, ka) == star(set, false, bytes, p, kb),
    decreases bytes.len() - p,
{
    lemma_no_han_char(set, bytes, p);
    assert(ka(p) == kb(p));
    if in_set(set, true, bytes, p) {
        lemma_char_bounds(bytes, p);
        law_decodes_valid_utf8(bytes, p);
        lemma_no_han_star(set, bytes, next(bytes, p), ka, kb);
    }
}

/// Without Han, a pattern goes the same way whether Han is told apart or not.
proof fn lemma_no_han(
    rx: Rx,
    bytes: Seq<u8>,
    p: int,
    ka: spec_fn(int) -> Option<int>,
    kb: spec_fn(int) -> Option<int>,
)
    requires
        valid_utf8(bytes),
        has_no_han(bytes),
        0 <= p,
        is_char_boundary(bytes, p),
        forall|q: int| 0 <= q && is_char_boundary(bytes, q) ==> #[trigger] ka(q) == kb(q),
    ensures
        run(rx, true, bytes, p, ka) == run(rx, false, bytes, p, kb),
    decreases rx,
{
    assert(ka(p) == kb(p));
    match rx {
        Rx::Empty => {},
        Rx::Chars(set) => {
            lemma_no_han_char(set, bytes, p);
            if in_set(set, true, bytes, p) {
                lemma_char_bounds(bytes, p);
                law_decodes_valid_utf8(bytes, p);
                assert(ka(next(bytes, p)) == kb(next(bytes, p)));
            }
        },
        Rx::Cat(a, b) => {
            let ka2 = after(*b, true, bytes, ka);
            let kb2 = after(*b, false, bytes, kb);
            assert forall|q: int| 0 <= q && is_char_boundary(bytes, q) implies #[trigger] ka2(q)
                == kb2(q) by {
                lemma_no_han(*b, bytes, q, ka, kb);
            }
            lemma_no_han(*a, bytes, p, ka2, kb2);
        },
        Rx::Alt(a, b) => {
            lemma_no_han(*a, bytes, p, ka, kb);
            lemma_no_han(*b, bytes, p, ka, kb);
        },
        Rx::Opt(a) => lemma_no_han(*a, bytes, p, ka, kb),
        Rx::Star(set) => lemma_no_han_star(set, bytes, p, ka, kb),
        Rx::NotAhead(set) => lemma_no_han_char(set, bytes, p),
    }
}

/// Without `/`, the tails of symbol runs are runs of line ends.
proof fn lemma_no_slash_tail(bytes: Seq<u8>, p: int)
    requires
        has_no_slash(bytes),
        0 <= p <= bytes.len(),
    ensures
        scan(CharSet::NewlineOrSlash, false, bytes, p) == scan(CharSet::Newline, false, bytes, p),
    decreases bytes.len() - p,
{
    if in_set(CharSet::NewlineOrSlash, false, bytes, p) {
        lemma_char_bounds(bytes, p);
        lemma_no_slash_tail(bytes, next(bytes, p));
    }
}

proof fn lemma_no_slash_symbols(bytes: Seq<u8>, p: int)
    requires
        has_no_slash(bytes),
        0 <= p < bytes.len(),
    ensures
        match_at(symbols(CharSet::NewlineOrSlash), false, bytes, p) == match_at(
            symbols(CharSet::Newline),
            false,
            bytes,
            p,
        ),
{
    lemma_symbols(CharSet::NewlineOrSlash, false, bytes, p);
    lemma_symbols(CharSet::Newline, false, bytes, p);
    lemma_char_bounds(bytes, p);
    let n = next(bytes, p);
    lemma_scan(CharSet::Symbol, false, bytes, p);
    lemma_scan(CharSet::Symbol, false, bytes, n);
    lemma_no_slash_tail(bytes, scan(CharSet::Symbol, false, bytes, p));
    lemma_no_slash_tail(bytes, scan(CharSet::Symbol, false, bytes, n));
}

/// o200k is Kimi without Han runs and with `/` in the tail of symbol runs: in a
/// UTF-8 text without Han characters and without `/`, their tokens are the same.
pub proof fn law_o200k_is_kimi_without_han(bytes: Seq<u8>, p: int)
    requires
        valid_utf8(bytes),
        has_no_han(bytes),
        has_no_slash(bytes),
        is_char_boundary(bytes, p),
        0 <= p < bytes.len(),
    ensures
        FastSplitScheme::Kimi.token_end(bytes, p) == FastSplitScheme::O200k.token_end(bytes, p),
{
    let cased = case_regex(true, 3, false);
    lemma_no_han(cased, bytes, p, done(), done());
    lemma_alt(plus(CharSet::Han), cased, true, bytes, p);
    lemma_plus_run(CharSet::Han, true, bytes, p);
    lemma_no_slash_symbols(bytes, p);
    lemma_case_alternatives(CharSet::Newline, bytes, p);
    lemma_case_alternatives(CharSet::NewlineOrSlash, bytes, p);
}

/// The alternatives that follow each other in the o200k patterns.
proof fn lemma_case_alternatives(tail: CharSet, bytes: Seq<u8>, p: int)
    requires
        tail is Newline || tail is NewlineOrSlash,
    ensures
        match_at(case_regex(true, 3, tail is NewlineOrSlash), false, bytes, p) == match match_at(
            lower_run(true),
            false,
            bytes,
            p,
        ) {
            Some(end) => Some(end),
            None => match match_at(upper_run(true), false, bytes, p) {
                Some(end) => Some(end),
                None => match match_at(numbers(3), false, bytes, p) {
                    Some(end) => Some(end),
                    None => match match_at(symbols(tail), false, bytes, p) {
                        Some(end) => Some(end),
                        None => match_at(whitespace(), false, bytes, p),
                    },
                },
            },
        },
{
    let spaces = alt(symbols(tail), whitespace());
    let rest = alt(numbers(3), spaces);
    lemma_alt(symbols(tail), whitespace(), false, bytes, p);
    lemma_alt(numbers(3), spaces, false, bytes, p);
    lemma_alt(upper_run(true), rest, false, bytes, p);
    lemma_alt(lower_run(true), alt(upper_run(true), rest), false, bytes, p);
}

/// In a UTF-8 text without Han characters and without `/`, both schemes give
/// the same tokens.
pub proof fn law_o200k_tokens_are_kimi_tokens(bytes: Seq<u8>, p: int)
    requires
        valid_utf8(bytes),
        has_no_han(bytes),
        has_no_slash(bytes),
        is_char_boundary(bytes, p),
        0 <= p <= bytes.len(),
    ensures
        tokens(FastSplitScheme::Kimi, bytes, p) == tokens(FastSplitScheme::O200k, bytes, p),
    decreases bytes.len() - p,
{
    if p < bytes.len() {
        law_o200k_is_kimi_without_han(bytes, p);
        law_token(FastSplitScheme::Kimi, bytes, p);
        law_o200k_tokens_are_kimi_tokens(bytes, FastSplitScheme::Kimi.token_end(bytes, p)->0);
    } else {
        lemma_no_token_at_end(FastSplitScheme::Kimi, bytes);
        lemma_no_token_at_end(FastSplitScheme::O200k, bytes);
    }
}

proof fn lemma_pattern_lengths()
    ensures
        QWEN2_PATTERN@.len() == 110,
        QWEN2_N3_PATTERN@.len() == 115,
        KIMI_PATTERN@.len() == 332,
        O200K_PATTERN@.len() == 274,
{
    reveal_strlit(r"(?i:'s|'t|'re|'ve|'m|'ll|'d)|[^\r\n\p{L}\p{N}]?\p{L}+|\p{N}| ?[^\s\p{L}\p{N}]+[\r\n]*|\s*[\r\n]+|\s+(?!\S)|\s+");
    reveal_strlit(r"(?i:'s|'t|'re|'ve|'m|'ll|'d)|[^\r\n\p{L}\p{N}]?\p{L}+|\p{N}{1,3}| ?[^\s\p{L}\p{N}]+[\r\n]*|\s*[\r\n]+|\s+(?!\S)|\s+");
    reveal_strlit(r"[\p{Han}]+|[^\r\n\p{L}\p{N}]?[\p{Lu}\p{Lt}\p{Lm}\p{Lo}\p{M}&&[^\p{Han}]]*[\p{Ll}\p{Lm}\p{Lo}\p{M}&&[^\p{Han}]]+(?i:'s|'t|'re|'ve|'m|'ll|'d)?|[^\r\n\p{L}\p{N}]?[\p{Lu}\p{Lt}\p{Lm}\p{Lo}\p{M}&&[^\p{Han}]]+[\p{Ll}\p{Lm}\p{Lo}\p{M}&&[^\p{Han}]]*(?i:'s|'t|'re|'ve|'m|'ll|'d)?|\p{N}{1,3}| ?[^\s\p{L}\p{N}]+[\r\n]*|\s*[\r\n]+|\s+(?!\S)|\s+");
    reveal_strlit(r"[^\r\n\p{L}\p{N}]?[\p{Lu}\p{Lt}\p{Lm}\p{Lo}\p{M}]*[\p{Ll}\p{Lm}\p{Lo}\p{M}]+(?i:'s|'t|'re|'ve|'m|'ll|'d)?|[^\r\n\p{L}\p{N}]?[\p{Lu}\p{Lt}\p{Lm}\p{Lo}\p{M}]+[\p{Ll}\p{Lm}\p{Lo}\p{M}]*(?i:'s|'t|'re|'ve|'m|'ll|'d)?|\p{N}{1,3}| ?[^\s\p{L}\p{N}]+[\r\n/]*|\s*[\r\n]+|\s+(?!\S)|\s+");
}

/// The patterns of different schemes differ, so a pattern's text names its
/// scheme.
pub proof fn law_patterns_are_distinct(a: FastSplitScheme, b: FastSplitScheme)
    ensures
        a.pattern() == b.pattern() ==> a == b,
{
    lemma_pattern_lengths();
}

} // verus!
