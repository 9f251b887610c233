//! Cutting a text for parallel scanning: tokens do not cross the boundaries
//! offered for it, and the pieces can be scanned each on its own.

use vstd::prelude::*;
use vstd::utf8::{is_char_boundary, length_of_first_scalar, pop_first_scalar, valid_utf8};

use super::decode::{law_decodes_valid_utf8, lemma_char_bounds};
use super::laws::{law_token, lemma_no_token_at_end, tiles, tokens};
use super::regex::{
    after, alt, cat, contraction, done, in_set, letters, lower_run, match_at, next, numbers, plus,
    run, star, symbols, upper_run, upto, whitespace, CharSet, Rx,
};
use super::runs::{chain, lemma_alt, lemma_cat, lemma_plus, lemma_plus_run};
use super::scheme::FastSplitScheme;

verus! {

/// No character boundary of UTF-8 lies inside a character.
proof fn lemma_next_boundary(bytes: Seq<u8>, p: int, b: int)
    requires
        valid_utf8(bytes),
        is_char_boundary(bytes, p),
        is_char_boundary(bytes, b),
        0 <= p < b <= bytes.len(),
    ensures
        next(bytes, p) <= b,
{
    law_decodes_valid_utf8(bytes, p);
    lemma_boundary_gap(bytes, p, b);
}

proof fn lemma_boundary_gap(bytes: Seq<u8>, p: int, b: int)
    requires
        valid_utf8(bytes),
        is_char_boundary(bytes, p),
        is_char_boundary(bytes, b),
        0 <= p < b <= bytes.len(),
    ensures
        p + length_of_first_scalar(bytes.subrange(p, bytes.len() as int)) <= b,
    decreases bytes.len(),
{
    reveal_with_fuel(is_char_boundary, 3);
    let tail = pop_first_scalar(bytes);
    let step = length_of_first_scalar(bytes);
    if p != 0 {
        lemma_boundary_gap(tail, p - step, b - step);
    }
}

/// No part of the pattern takes the character at `p`.
spec fn blocked(rx: Rx, han: bool, bytes: Seq<u8>, p: int) -> bool
    decreases rx,
{
    match rx {
        Rx::Chars(set) => !in_set(set, han, bytes, p),
        Rx::Cat(a, b) => blocked(*a, han, bytes, p) && blocked(*b, han, bytes, p),
        Rx::Alt(a, b) => blocked(*a, han, bytes, p) && blocked(*b, han, bytes, p),
        Rx::Opt(a) => blocked(*a, han, bytes, p),
        Rx::Star(set) => !in_set(set, han, bytes, p),
        _ => true,
    }
}

/// Once a part of the pattern has taken the character at `p - 1`, no later part
/// takes the one at `p`.
spec fn stops(rx: Rx, han: bool, bytes: Seq<u8>, p: int) -> bool
    decreases rx,
{
    match rx {
        Rx::Cat(a, b) => {
            &&& stops(*a, han, bytes, p)
            &&& stops(*b, han, bytes, p)
            &&& blocked(*a, han, bytes, p - 1) || blocked(*b, han, bytes, p)
        },
        Rx::Alt(a, b) => stops(*a, han, bytes, p) && stops(*b, han, bytes, p),
        Rx::Opt(a) => stops(*a, han, bytes, p),
        Rx::Star(set) => !in_set(set, han, bytes, p - 1) || !in_set(set, han, bytes, p),
        _ => true,
    }
}

/// A line end right before `p`, between two characters.
spec fn splits(bytes: Seq<u8>, p: int) -> bool {
    &&& valid_utf8(bytes)
    &&& 0 < p < bytes.len()
    &&& is_char_boundary(bytes, p - 1)
    &&& is_char_boundary(bytes, p)
    &&& bytes[p - 1] < 0x80
}

/// From `q`, at most `p` is reached, and `p` only by taking the character
/// before it.
spec fn short(rx: Rx, han: bool, bytes: Seq<u8>, p: int, q: int) -> bool {
    &&& 0 <= q <= p
    &&& is_char_boundary(bytes, q)
    &&& q == p ==> !blocked(rx, han, bytes, p - 1)
}

proof fn lemma_blocked_run(
    rx: Rx,
    han: bool,
    bytes: Seq<u8>,
    p: int,
    k: spec_fn(int) -> Option<int>,
)
    requires
        blocked(rx, han, bytes, p),
        run(rx, han, bytes, p, k) is Some,
    ensures
        k(p) == run(rx, han, bytes, p, k),
    decreases rx,
{
    match rx {
        Rx::Cat(a, b) => {
            let k2 = after(*b, han, bytes, k);
            lemma_blocked_run(*a, han, bytes, p, k2);
            lemma_blocked_run(*b, han, bytes, p, k);
        },
        Rx::Alt(a, b) => {
            if run(*a, han, bytes, p, k) is Some {
                lemma_blocked_run(*a, han, bytes, p, k);
            } else {
                lemma_blocked_run(*b, han, bytes, p, k);
            }
        },
        Rx::Opt(a) => {
            if run(*a, han, bytes, p, k) is Some {
                lemma_blocked_run(*a, han, bytes, p, k);
            }
        },
        _ => {},
    }
}

proof fn lemma_step_to(bytes: Seq<u8>, p: int, q: int)
    requires
        splits(bytes, p),
        0 <= q < p,
        is_char_boundary(bytes, q),
    ensures
        next(bytes, q) <= p,
        q < next(bytes, q),
        is_char_boundary(bytes, next(bytes, q)),
        next(bytes, q) == p ==> q == p - 1,
{
    law_decodes_valid_utf8(bytes, q);
    lemma_char_bounds(bytes, q);
    lemma_next_boundary(bytes, q, p);
    if q < p - 1 {
        lemma_next_boundary(bytes, q, p - 1);
    }
}

proof fn lemma_star_stops(
    set: CharSet,
    han: bool,
    bytes: Seq<u8>,
    p: int,
    q: int,
    k: spec_fn(int) -> Option<int>,
) -> (r: int)
    requires
        splits(bytes, p),
        0 <= q <= p,
        is_char_boundary(bytes, q),
        q == p ==> in_set(set, han, bytes, p - 1),
        stops(Rx::Star(set), han, bytes, p),
        star(set, han, bytes, q, k) is Some,
    ensures
        short(Rx::Star(set), han, bytes, p, r),
        k(r) == star(set, han, bytes, q, k),
    decreases p - q,
{
    if in_set(set, han, bytes, q) {
        lemma_step_to(bytes, p, q);
        if star(set, han, bytes, next(bytes, q), k) is Some {
            return lemma_star_stops(set, han, bytes, p, next(bytes, q), k);
        }
    }
    q
}

/// Where [`stops`] holds, a match from before `p` ends at `p` or before it.
proof fn lemma_stops(
    rx: Rx,
    han: bool,
    bytes: Seq<u8>,
    p: int,
    q: int,
    k: spec_fn(int) -> Option<int>,
) -> (r: int)
    requires
        splits(bytes, p),
        0 <= q < p,
        is_char_boundary(bytes, q),
        stops(rx, han, bytes, p),
        run(rx, han, bytes, q, k) is Some,
    ensures
        short(rx, han, bytes, p, r),
        k(r) == run(rx, han, bytes, q, k),
    decreases rx,
{
    match rx {
        Rx::Empty => q,
        Rx::Chars(set) => {
            lemma_step_to(bytes, p, q);
            next(bytes, q)
        },
        Rx::Cat(a, b) => {
            let k2 = after(*b, han, bytes, k);
            let r = lemma_stops(*a, han, bytes, p, q, k2);
            if r < p {
                lemma_stops(*b, han, bytes, p, r, k)
            } else {
                lemma_blocked_run(*b, han, bytes, p, k);
                r
            }
        },
        Rx::Alt(a, b) => {
            if run(*a, han, bytes, q, k) is Some {
                lemma_stops(*a, han, bytes, p, q, k)
            } else {
                lemma_stops(*b, han, bytes, p, q, k)
            }
        },
        Rx::Opt(a) => {
            if run(*a, han, bytes, q, k) is Some {
                lemma_stops(*a, han, bytes, p, q, k)
            } else {
                q
            }
        },
        Rx::Star(set) => lemma_star_stops(set, han, bytes, p, q, k),
        Rx::NotAhead(set) => q,
    }
}

proof fn lemma_ascii_boundary(bytes: Seq<u8>, p: int)
    requires
        valid_utf8(bytes),
        0 <= p < bytes.len(),
        bytes[p] < 0x80,
    ensures
        is_char_boundary(bytes, p),
        is_char_boundary(bytes, p + 1),
{
    vstd::utf8::is_char_boundary_iff_is_leading_byte(bytes, p);
    law_decodes_valid_utf8(bytes, p);
}

/// At a safe boundary, the parts of the patterns stop.
proof fn lemma_parts_stop(scheme: FastSplitScheme, han: bool, bytes: Seq<u8>, p: int)
    requires
        scheme.is_safe_boundary(bytes, p),
    ensures
        stops(contraction(), han, bytes, p),
        stops(letters(), han, bytes, p),
        stops(numbers(1), han, bytes, p),
        stops(numbers(3), han, bytes, p),
        stops(symbols(CharSet::Newline), han, bytes, p),
        scheme is O200k ==> stops(symbols(CharSet::NewlineOrSlash), han, bytes, p),
        stops(whitespace(), han, bytes, p),
        stops(lower_run(true), han, bytes, p),
        stops(upper_run(true), han, bytes, p),
        stops(plus(CharSet::Han), han, bytes, p),
{
    reveal_with_fuel(stops, 14);
    reveal_with_fuel(blocked, 14);
    reveal_with_fuel(upto, 3);
}

/// No token that starts before a safe boundary crosses it: in a UTF-8 text,
/// going from token to token from any character boundary before it leads to it.
pub proof fn law_safe_boundary_is_not_crossed(
    scheme: FastSplitScheme,
    bytes: Seq<u8>,
    s: int,
    p: int,
)
    requires
        valid_utf8(bytes),
        is_char_boundary(bytes, s),
        0 <= s < p,
        scheme.is_safe_boundary(bytes, p),
    ensures
        scheme.token_end(bytes, s) matches Some(end) && s < end <= p,
{
    let han = scheme.tells_han();
    lemma_ascii_boundary(bytes, p - 1);
    lemma_parts_stop(scheme, han, bytes, p);
    assert(stops(scheme.regex(), han, bytes, p)) by {
        reveal_with_fuel(stops, 7);
    }
    law_token(scheme, bytes, s);
    lemma_stops(scheme.regex(), han, bytes, p, s, done());
}

/// Scanning the text from `s` up to a safe boundary, and on its own from there
/// on, gives the tokens that scanning it in one go gives.
pub proof fn law_chunks_join(scheme: FastSplitScheme, bytes: Seq<u8>, s: int, p: int)
    requires
        valid_utf8(bytes),
        is_char_boundary(bytes, s),
        0 <= s <= p,
        scheme.is_safe_boundary(bytes, p),
    ensures
        tokens(scheme, bytes, s) == tokens_until(scheme, bytes, s, p) + tokens(scheme, bytes, p),
        tiles(tokens_until(scheme, bytes, s, p), s, p),
    decreases p - s,
{
    if s < p {
        law_safe_boundary_is_not_crossed(scheme, bytes, s, p);
        law_token(scheme, bytes, s);
        let end = scheme.token_end(bytes, s)->0;
        law_chunks_join(scheme, bytes, end, p);
        assert(tokens_until(scheme, bytes, s, p).drop_first() =~= tokens_until(
            scheme,
            bytes,
            end,
            p,
        ));
    }
}

/// The tokens from `s` on that start before `p`.
pub open spec fn tokens_until(
    scheme: FastSplitScheme,
    bytes: Seq<u8>,
    s: int,
    p: int,
) -> Seq<(int, int)>
    decreases bytes.len() - s,
{
    match scheme.token_end(bytes, s) {
        Some(end) => if s < p && s < end <= bytes.len() {
            seq![(s, end)] + tokens_until(scheme, bytes, end, p)
        } else {
            seq![]
        },
        None => seq![],
    }
}


// The first chunk, cut off.

/// The pattern does not look ahead.
pub open spec fn looks_not_ahead(rx: Rx) -> bool
    decreases rx,
{
    match rx {
        Rx::Cat(a, b) => looks_not_ahead(*a) && looks_not_ahead(*b),
        Rx::Alt(a, b) => looks_not_ahead(*a) && looks_not_ahead(*b),
        Rx::Opt(a) => looks_not_ahead(*a),
        Rx::NotAhead(_) => false,
        _ => true,
    }
}

/// A character before `p` reads the same in the text cut off at `p`.
proof fn lemma_cut_char(set: CharSet, han: bool, bytes: Seq<u8>, p: int, q: int)
    requires
        splits(bytes, p),
        0 <= q < p,
        is_char_boundary(bytes, q),
    ensures
        in_set(set, han, bytes.take(p), q) == in_set(set, han, bytes, q),
        next(bytes.take(p), q) == next(bytes, q),
{
    lemma_step_to(bytes, p, q);
}

/// At the end of the text, and where every part is blocked, only what takes
/// nothing goes on.
proof fn lemma_cut_blocked(
    rx: Rx,
    han: bool,
    bytes: Seq<u8>,
    p: int,
    ka: spec_fn(int) -> Option<int>,
    kb: spec_fn(int) -> Option<int>,
)
    requires
        0 <= p <= bytes.len(),
        looks_not_ahead(rx),
        blocked(rx, han, bytes, p),
        ka(p) == kb(p),
    ensures
        run(rx, han, bytes.take(p), p, ka) == run(rx, han, bytes, p, kb),
    decreases rx,
{
    let cut = bytes.take(p);
    match rx {
        Rx::Cat(a, b) => {
            lemma_cut_blocked(*b, han, bytes, p, ka, kb);
            let ka2 = after(*b, han, cut, ka);
            let kb2 = after(*b, han, bytes, kb);
            lemma_cut_blocked(*a, han, bytes, p, ka2, kb2);
        },
        Rx::Alt(a, b) => {
            lemma_cut_blocked(*a, han, bytes, p, ka, kb);
            lemma_cut_blocked(*b, han, bytes, p, ka, kb);
        },
        Rx::Opt(a) => {
            lemma_cut_blocked(*a, han, bytes, p, ka, kb);
        },
        _ => {},
    }
}

proof fn lemma_cut_star(
    set: CharSet,
    han: bool,
    bytes: Seq<u8>,
    p: int,
    q: int,
    ka: spec_fn(int) -> Option<int>,
    kb: spec_fn(int) -> Option<int>,
)
    requires
        splits(bytes, p),
        0 <= q <= p,
        is_char_boundary(bytes, q),
        q == p ==> in_set(set, han, bytes, p - 1),
        stops(Rx::Star(set), han, bytes, p),
        forall|r: int| #[trigger] short(Rx::Star(set), han, bytes, p, r) ==> ka(r) == kb(r),
    ensures
        star(set, han, bytes.take(p), q, ka) == star(set, han, bytes, q, kb),
    decreases p - q,
{
    assert(short(Rx::Star(set), han, bytes, p, q));
    if q < p {
        lemma_cut_char(set, han, bytes, p, q);
        if in_set(set, han, bytes, q) {
            lemma_step_to(bytes, p, q);
            lemma_cut_star(set, han, bytes, p, next(bytes, q), ka, kb);
        }
    }
}

/// Where [`stops`] holds, a pattern that does not look ahead goes the same way
/// in the text cut off at `p`.
proof fn lemma_cut(
    rx: Rx,
    han: bool,
    bytes: Seq<u8>,
    p: int,
    q: int,
    ka: spec_fn(int) -> Option<int>,
    kb: spec_fn(int) -> Option<int>,
)
    requires
        splits(bytes, p),
        0 <= q < p,
        is_char_boundary(bytes, q),
        looks_not_ahead(rx),
        stops(rx, han, bytes, p),
        forall|r: int| #[trigger] short(rx, han, bytes, p, r) ==> ka(r) == kb(r),
    ensures
        run(rx, han, bytes.take(p), q, ka) == run(rx, han, bytes, q, kb),
    decreases rx,
{
    let cut = bytes.take(p);
    match rx {
        Rx::Empty => {
            assert(short(rx, han, bytes, p, q));
        },
        Rx::Chars(set) => {
            lemma_cut_char(set, han, bytes, p, q);
            if in_set(set, han, bytes, q) {
                lemma_step_to(bytes, p, q);
                assert(short(rx, han, bytes, p, next(bytes, q)));
            }
        },
        Rx::Cat(a, b) => {
            let ka2 = after(*b, han, cut, ka);
            let kb2 = after(*b, han, bytes, kb);
            assert forall|r: int| #[trigger] short(*a, han, bytes, p, r) implies ka2(r) == kb2(
                r,
            ) by {
                if r < p {
                    assert forall|t: int| #[trigger] short(*b, han, bytes, p, t) implies ka(t)
                        == kb(t) by {
                        assert(short(rx, han, bytes, p, t));
                    }
                    lemma_cut(*b, han, bytes, p, r, ka, kb);
                } else {
                    assert(short(rx, han, bytes, p, p));
                    lemma_cut_blocked(*b, han, bytes, p, ka, kb);
                }
            }
            lemma_cut(*a, han, bytes, p, q, ka2, kb2);
        },
        Rx::Alt(a, b) => {
            assert forall|r: int| #[trigger] short(*a, han, bytes, p, r) implies ka(r) == kb(
                r,
            ) by {
                assert(short(rx, han, bytes, p, r));
            }
            assert forall|r: int| #[trigger] short(*b, han, bytes, p, r) implies ka(r) == kb(
                r,
            ) by {
                assert(short(rx, han, bytes, p, r));
            }
            lemma_cut(*a, han, bytes, p, q, ka, kb);
            lemma_cut(*b, han, bytes, p, q, ka, kb);
        },
        Rx::Opt(a) => {
            assert forall|r: int| #[trigger] short(*a, han, bytes, p, r) implies ka(r) == kb(
                r,
            ) by {
                assert(short(rx, han, bytes, p, r));
            }
            assert(short(rx, han, bytes, p, q));
            lemma_cut(*a, han, bytes, p, q, ka, kb);
        },
        Rx::Star(set) => lemma_cut_star(set, han, bytes, p, q, ka, kb),
        Rx::NotAhead(_) => {},
    }
}

/// A repetition succeeds if what follows it does somewhere along the run.
proof fn lemma_star_some(
    set: CharSet,
    han: bool,
    bytes: Seq<u8>,
    q: int,
    r: int,
    k: spec_fn(int) -> Option<int>,
)
    requires
        0 <= q,
        chain(set, han, bytes, q, r),
        k(r) is Some,
    ensures
        star(set, han, bytes, q, k) is Some,
    decreases bytes.len() - q,
{
    if q != r {
        lemma_char_bounds(bytes, q);
        lemma_star_some(set, han, bytes, next(bytes, q), r, k);
    }
}

/// As [`lemma_cut_star`], for a run that ends before the character at `p - 1`.
proof fn lemma_cut_short_star(
    set: CharSet,
    han: bool,
    bytes: Seq<u8>,
    p: int,
    q: int,
    ka: spec_fn(int) -> Option<int>,
    kb: spec_fn(int) -> Option<int>,
)
    requires
        splits(bytes, p),
        0 <= q < p,
        is_char_boundary(bytes, q),
        !(chain(set, han, bytes, q, p - 1) && in_set(set, han, bytes, p - 1)),
        forall|r: int| 0 <= r < p && is_char_boundary(bytes, r) ==> #[trigger] ka(r) == kb(r),
    ensures
        star(set, han, bytes.take(p), q, ka) == star(set, han, bytes, q, kb),
    decreases p - q,
{
    lemma_cut_char(set, han, bytes, p, q);
    assert(ka(q) == kb(q));
    if in_set(set, han, bytes, q) {
        lemma_step_to(bytes, p, q);
        lemma_cut_short_star(set, han, bytes, p, next(bytes, q), ka, kb);
    }
}

/// Whitespace before a safe boundary matches the same in the text cut off there:
/// a run that reaches the boundary has a line end.
proof fn lemma_cut_whitespace(
    scheme: FastSplitScheme,
    han: bool,
    bytes: Seq<u8>,
    p: int,
    q: int,
)
    requires
        splits(bytes, p),
        0 <= q < p,
        is_char_boundary(bytes, q),
        scheme.is_safe_boundary(bytes, p),
    ensures
        match_at(whitespace(), han, bytes.take(p), q) == match_at(whitespace(), han, bytes, q),
{
    let cut = bytes.take(p);
    let white = CharSet::White;
    let lines = cat(Rx::Star(white), plus(CharSet::Newline));
    let ahead = Rx::NotAhead(CharSet::NonWhite);
    let all_but = cat(plus(white), ahead);
    lemma_alt(lines, alt(all_but, plus(white)), han, bytes, q);
    lemma_alt(all_but, plus(white), han, bytes, q);
    lemma_alt(lines, alt(all_but, plus(white)), han, cut, q);
    lemma_alt(all_but, plus(white), han, cut, q);
    reveal_with_fuel(stops, 4);
    reveal_with_fuel(blocked, 4);
    reveal_with_fuel(looks_not_ahead, 4);
    lemma_cut(lines, han, bytes, p, q, done(), done());
    lemma_cut(plus(white), han, bytes, p, q, done(), done());
    if match_at(lines, han, bytes, q) is None {
        let k = after(plus(CharSet::Newline), han, bytes, done());
        lemma_cat(Rx::Star(white), plus(CharSet::Newline), han, bytes, q, done());
        lemma_plus_run(CharSet::Newline, han, bytes, p - 1);
        if chain(white, han, bytes, q, p - 1) {
            lemma_star_some(white, han, bytes, q, p - 1, k);
        }
        let ka = after(ahead, han, cut, done());
        let kb = after(ahead, han, bytes, done());
        lemma_cat(plus(white), ahead, han, bytes, q, done());
        lemma_cat(plus(white), ahead, han, cut, q, done());
        lemma_plus(white, han, bytes, q, kb);
        lemma_plus(white, han, cut, q, ka);
        lemma_cut_char(white, han, bytes, p, q);
        if in_set(white, han, bytes, q) {
            lemma_step_to(bytes, p, q);
            assert forall|r: int| 0 <= r < p && is_char_boundary(bytes, r) implies #[trigger] ka(r)
                == kb(r) by {
                lemma_cut_char(CharSet::NonWhite, han, bytes, p, r);
            }
            lemma_cut_short_star(white, han, bytes, p, next(bytes, q), ka, kb);
        }
    }
}

/// A token before a safe boundary is the same in the text cut off there.
pub proof fn law_token_of_first_chunk(scheme: FastSplitScheme, bytes: Seq<u8>, s: int, p: int)
    requires
        valid_utf8(bytes),
        is_char_boundary(bytes, s),
        0 <= s < p,
        scheme.is_safe_boundary(bytes, p),
    ensures
        scheme.token_end(bytes.take(p), s) == scheme.token_end(bytes, s),
{
    let han = scheme.tells_han();
    let cut = bytes.take(p);
    lemma_ascii_boundary(bytes, p - 1);
    lemma_parts_stop(scheme, han, bytes, p);
    lemma_cut_whitespace(scheme, han, bytes, p, s);
    reveal_with_fuel(looks_not_ahead, 12);
    reveal_with_fuel(upto, 3);
    let tail = if scheme is O200k {
        CharSet::NewlineOrSlash
    } else {
        CharSet::Newline
    };
    let max: nat = if scheme is Qwen2 {
        1
    } else {
        3
    };
    let d = done();
    lemma_cut(numbers(max), han, bytes, p, s, d, d);
    lemma_cut(symbols(tail), han, bytes, p, s, d, d);
    let spaces = alt(symbols(tail), whitespace());
    let rest = alt(numbers(max), spaces);
    lemma_alt(symbols(tail), whitespace(), han, bytes, s);
    lemma_alt(symbols(tail), whitespace(), han, cut, s);
    lemma_alt(numbers(max), spaces, han, bytes, s);
    lemma_alt(numbers(max), spaces, han, cut, s);
    if scheme is Qwen2 || scheme is Qwen2N3 {
        lemma_cut(contraction(), han, bytes, p, s, d, d);
        lemma_cut(letters(), han, bytes, p, s, d, d);
        lemma_alt(letters(), rest, han, bytes, s);
        lemma_alt(letters(), rest, han, cut, s);
        lemma_alt(contraction(), alt(letters(), rest), han, bytes, s);
        lemma_alt(contraction(), alt(letters(), rest), han, cut, s);
    } else {
        lemma_cut(lower_run(true), han, bytes, p, s, d, d);
        lemma_cut(upper_run(true), han, bytes, p, s, d, d);
        lemma_cut(plus(CharSet::Han), han, bytes, p, s, d, d);
        let upper = alt(upper_run(true), rest);
        let cased = alt(lower_run(true), upper);
        lemma_alt(upper_run(true), rest, han, bytes, s);
        lemma_alt(upper_run(true), rest, han, cut, s);
        lemma_alt(lower_run(true), upper, han, bytes, s);
        lemma_alt(lower_run(true), upper, han, cut, s);
        lemma_alt(plus(CharSet::Han), cased, han, bytes, s);
        lemma_alt(plus(CharSet::Han), cased, han, cut, s);
    }
}

/// Scanning the text cut off at a safe boundary gives the tokens that scanning
/// the whole text gives before it.
pub proof fn law_first_chunk(scheme: FastSplitScheme, bytes: Seq<u8>, s: int, p: int)
    requires
        valid_utf8(bytes),
        is_char_boundary(bytes, s),
        0 <= s <= p,
        scheme.is_safe_boundary(bytes, p),
    ensures
        tokens(scheme, bytes.take(p), s) == tokens_until(scheme, bytes, s, p),
    decreases p - s,
{
    if s < p {
        law_token_of_first_chunk(scheme, bytes, s, p);
        law_safe_boundary_is_not_crossed(scheme, bytes, s, p);
        law_token(scheme, bytes, s);
        law_first_chunk(scheme, bytes, scheme.token_end(bytes, s)->0, p);
    } else {
        lemma_no_token_at_end(scheme, bytes.take(p));
    }
}

// The later chunk, on its own.

/// The offset, `p` further on.
pub open spec fn moved(end: Option<int>, p: int) -> Option<int> {
    match end {
        Some(q) => Some(p + q),
        None => None,
    }
}

/// A character reads the same in the text from `p` on.
proof fn lemma_skip_char(set: CharSet, han: bool, bytes: Seq<u8>, p: int, q: int)
    requires
        0 <= p <= bytes.len(),
        0 <= q,
    ensures
        in_set(set, han, bytes, p + q) == in_set(set, han, bytes.skip(p), q),
        q < bytes.len() - p ==> next(bytes, p + q) == p + next(bytes.skip(p), q),
{
}

proof fn lemma_skip_star(
    set: CharSet,
    han: bool,
    bytes: Seq<u8>,
    p: int,
    q: int,
    k: spec_fn(int) -> Option<int>,
    ks: spec_fn(int) -> Option<int>,
)
    requires
        0 <= p <= bytes.len(),
        0 <= q,
        forall|r: int| 0 <= r ==> k(p + r) == moved(#[trigger] ks(r), p),
    ensures
        star(set, han, bytes, p + q, k) == moved(star(set, han, bytes.skip(p), q, ks), p),
    decreases bytes.len() - p - q,
{
    lemma_skip_char(set, han, bytes, p, q);
    assert(k(p + q) == moved(ks(q), p));
    if in_set(set, han, bytes, p + q) {
        lemma_char_bounds(bytes, p + q);
        lemma_skip_star(set, han, bytes, p, next(bytes.skip(p), q), k, ks);
    }
}

/// No pattern looks back: it goes the same way in the text from `p` on.
proof fn lemma_skip(
    rx: Rx,
    han: bool,
    bytes: Seq<u8>,
    p: int,
    q: int,
    k: spec_fn(int) -> Option<int>,
    ks: spec_fn(int) -> Option<int>,
)
    requires
        0 <= p <= bytes.len(),
        0 <= q,
        forall|r: int| 0 <= r ==> k(p + r) == moved(#[trigger] ks(r), p),
    ensures
        run(rx, han, bytes, p + q, k) == moved(run(rx, han, bytes.skip(p), q, ks), p),
    decreases rx,
{
    let rest = bytes.skip(p);
    match rx {
        Rx::Empty => {
            assert(k(p + q) == moved(ks(q), p));
        },
        Rx::Chars(set) => {
            lemma_skip_char(set, han, bytes, p, q);
            if in_set(set, han, bytes, p + q) {
                lemma_char_bounds(bytes, p + q);
                assert(k(p + next(rest, q)) == moved(ks(next(rest, q)), p));
            }
        },
        Rx::Cat(a, b) => {
            let k2 = after(*b, han, bytes, k);
            let ks2 = after(*b, han, rest, ks);
            assert forall|r: int| 0 <= r implies k2(p + r) == moved(#[trigger] ks2(r), p) by {
                lemma_skip(*b, han, bytes, p, r, k, ks);
            }
            lemma_skip(*a, han, bytes, p, q, k2, ks2);
        },
        Rx::Alt(a, b) => {
            lemma_skip(*a, han, bytes, p, q, k, ks);
            lemma_skip(*b, han, bytes, p, q, k, ks);
        },
        Rx::Opt(a) => {
            lemma_skip(*a, han, bytes, p, q, k, ks);
            assert(k(p + q) == moved(ks(q), p));
        },
        Rx::Star(set) => lemma_skip_star(set, han, bytes, p, q, k, ks),
        Rx::NotAhead(set) => {
            lemma_skip_char(set, han, bytes, p, q);
            assert(k(p + q) == moved(ks(q), p));
        },
    }
}

/// The spans, `p` further on.
pub open spec fn moved_spans(spans: Seq<(int, int)>, p: int) -> Seq<(int, int)> {
    Seq::new(spans.len(), |i: int| (p + spans[i].0, p + spans[i].1))
}

/// Scanning the text from `p` on as a text of its own gives the tokens that
/// scanning the whole text from there gives.
pub proof fn law_later_chunk(scheme: FastSplitScheme, bytes: Seq<u8>, p: int, q: int)
    requires
        0 <= p,
        0 <= q,
        p + q <= bytes.len(),
    ensures
        tokens(scheme, bytes, p + q) == moved_spans(tokens(scheme, bytes.skip(p), q), p),
    decreases bytes.len() - p - q,
{
    let rest = bytes.skip(p);
    lemma_skip(scheme.regex(), scheme.tells_han(), bytes, p, q, done(), done());
    if p + q < bytes.len() {
        law_token(scheme, rest, q);
        let end = scheme.token_end(rest, q)->0;
        law_later_chunk(scheme, bytes, p, end);
        let left = tokens(scheme, rest, end);
        assert(moved_spans(seq![(q, end)] + left, p) =~= seq![(p + q, p + end)] + moved_spans(
            left,
            p,
        ));
    } else {
        lemma_no_token_at_end(scheme, rest);
        lemma_no_token_at_end(scheme, bytes);
    }
}

/// A text cut at a safe boundary can be scanned in two pieces, each on its own:
/// the tokens of the first, and those of the second moved by its offset, are
/// the tokens of the text.
pub proof fn law_chunks_scan_alone(scheme: FastSplitScheme, bytes: Seq<u8>, p: int)
    requires
        valid_utf8(bytes),
        scheme.is_safe_boundary(bytes, p),
    ensures
        tokens(scheme, bytes, 0) == tokens(scheme, bytes.take(p), 0) + moved_spans(
            tokens(scheme, bytes.skip(p), 0),
            p,
        ),
        tiles(tokens(scheme, bytes.take(p), 0), 0, p),
{
    vstd::utf8::is_char_boundary_start_end_of_seq(bytes);
    law_chunks_join(scheme, bytes, 0, p);
    law_first_chunk(scheme, bytes, 0, p);
    law_later_chunk(scheme, bytes, p, 0);
}

} // verus!
