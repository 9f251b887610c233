//! What the case-structured letter runs of the o200k patterns match, in closed
//! form.

use vstd::prelude::*;

use super::decode::lemma_char_bounds;
use super::regex::{
    after, alt, cat, contraction, done, in_set, lower_run, match_at, next, numbers, opt, plus,
    suffix, symbols, upper_run, whitespace, CharSet, Rx,
};
use super::runs::{
    chain, contraction_end, lemma_alt, lemma_cat, lemma_chain_bounds, lemma_contraction,
    lemma_numbers, lemma_opt, lemma_plus, lemma_scan, lemma_star_at, lemma_star_greedy,
    lemma_star_none, lemma_symbols, scan, scan_upto,
};

verus! {

/// The end of a letter token whose letters end at `p`: past the contraction
/// that follows, if the pattern takes it along.
pub open spec fn suffix_end(contractions: bool, bytes: Seq<u8>, p: int) -> int {
    if contractions {
        match contraction_end(bytes, p) {
            Some(end) => end,
            None => p,
        }
    } else {
        p
    }
}

/// `q` is the last place along the upper case bracket's run from `s` where the
/// lower case bracket can take over.
pub open spec fn last_turn(han: bool, bytes: Seq<u8>, s: int, q: int) -> bool {
    &&& chain(CharSet::Upperish, han, bytes, s, q)
    &&& in_set(CharSet::Lowerish, han, bytes, q)
    &&& forall|r: int|
        q < r && #[trigger] chain(CharSet::Upperish, han, bytes, s, r) ==> !in_set(
            CharSet::Lowerish,
            han,
            bytes,
            r,
        )
}

/// Nowhere along the upper case bracket's run from `s` can the lower case
/// bracket take over.
pub open spec fn no_turn(han: bool, bytes: Seq<u8>, s: int) -> bool {
    forall|r: int| #[trigger]
        chain(CharSet::Upperish, han, bytes, s, r) ==> !in_set(CharSet::Lowerish, han, bytes, r)
}

/// The letters of a case-structured run from `s` end at `end`: as late as the
/// lower case bracket can take over, it does; if it cannot, the run is all
/// upper case.
pub open spec fn case_end(han: bool, bytes: Seq<u8>, s: int, end: int) -> bool {
    ||| exists|q: int| #[trigger] last_turn(han, bytes, s, q) && end == scan(
        CharSet::Lowerish,
        han,
        bytes,
        q,
    )
    ||| no_turn(han, bytes, s) && in_set(CharSet::Upperish, han, bytes, s) && end == scan(
        CharSet::Upperish,
        han,
        bytes,
        s,
    )
}

/// The character at `p` belongs to one of the letter brackets.
pub open spec fn in_brackets(han: bool, bytes: Seq<u8>, p: int) -> bool {
    in_set(CharSet::Upperish, han, bytes, p) || in_set(CharSet::Lowerish, han, bytes, p)
}

/// `[\p{Lu}..]*[\p{Ll}..]+SUF?`
spec fn lower_body(contractions: bool) -> Rx {
    cat(Rx::Star(CharSet::Upperish), cat(plus(CharSet::Lowerish), suffix(contractions)))
}

/// `[\p{Lu}..]+[\p{Ll}..]*SUF?`
spec fn upper_body(contractions: bool) -> Rx {
    cat(plus(CharSet::Upperish), cat(Rx::Star(CharSet::Lowerish), suffix(contractions)))
}

proof fn lemma_suffix(contractions: bool, han: bool, bytes: Seq<u8>, p: int)
    requires
        0 <= p,
    ensures
        match_at(suffix(contractions), han, bytes, p) == Some(suffix_end(contractions, bytes, p)),
{
    if contractions {
        lemma_opt(contraction(), han, bytes, p, done());
        lemma_contraction(han, bytes, p);
    }
}

/// The lower case bracket and what follows it, from `q`.
proof fn lemma_lower_tail(contractions: bool, han: bool, bytes: Seq<u8>, q: int)
    requires
        0 <= q <= bytes.len(),
    ensures
        match_at(cat(plus(CharSet::Lowerish), suffix(contractions)), han, bytes, q) == if in_set(
            CharSet::Lowerish,
            han,
            bytes,
            q,
        ) {
            Some(suffix_end(contractions, bytes, scan(CharSet::Lowerish, han, bytes, q)))
        } else {
            None
        },
{
    let k = after(suffix(contractions), han, bytes, done());
    lemma_cat(plus(CharSet::Lowerish), suffix(contractions), han, bytes, q, done());
    lemma_plus(CharSet::Lowerish, han, bytes, q, k);
    if in_set(CharSet::Lowerish, han, bytes, q) {
        lemma_char_bounds(bytes, q);
        let n = next(bytes, q);
        lemma_scan(CharSet::Lowerish, han, bytes, n);
        lemma_suffix(contractions, han, bytes, scan(CharSet::Lowerish, han, bytes, n));
        lemma_star_greedy(CharSet::Lowerish, han, bytes, n, k);
    }
}

/// The lower case run's brackets match where the lower case bracket can take
/// over, at the last such place.
proof fn lemma_lower_body(contractions: bool, han: bool, bytes: Seq<u8>, s: int)
    requires
        0 <= s <= bytes.len(),
    ensures
        forall|q: int| #[trigger]
            last_turn(han, bytes, s, q) ==> match_at(lower_body(contractions), han, bytes, s)
                == Some(suffix_end(contractions, bytes, scan(CharSet::Lowerish, han, bytes, q))),
        no_turn(han, bytes, s) ==> match_at(lower_body(contractions), han, bytes, s) is None,
{
    let tail = cat(plus(CharSet::Lowerish), suffix(contractions));
    let k = after(tail, han, bytes, done());
    let upper = CharSet::Upperish;
    lemma_cat(Rx::Star(upper), tail, han, bytes, s, done());
    assert forall|q: int| #[trigger] last_turn(han, bytes, s, q) implies match_at(
        lower_body(contractions),
        han,
        bytes,
        s,
    ) == Some(suffix_end(contractions, bytes, scan(CharSet::Lowerish, han, bytes, q))) by {
        lemma_chain_bounds(upper, han, bytes, s, q);
        lemma_lower_tail(contractions, han, bytes, q);
        assert forall|r: int| q < r && #[trigger] chain(upper, han, bytes, s, r) implies k(
            r,
        ) is None by {
            lemma_chain_bounds(upper, han, bytes, s, r);
            lemma_lower_tail(contractions, han, bytes, r);
        }
        lemma_star_at(upper, han, bytes, s, k, q);
    }
    if no_turn(han, bytes, s) {
        assert forall|r: int| #[trigger] chain(upper, han, bytes, s, r) implies k(r) is None by {
            lemma_chain_bounds(upper, han, bytes, s, r);
            lemma_lower_tail(contractions, han, bytes, r);
        }
        lemma_star_none(upper, han, bytes, s, k);
    }
}

/// The upper case run's brackets take both runs whole.
proof fn lemma_upper_body(contractions: bool, han: bool, bytes: Seq<u8>, s: int)
    requires
        0 <= s <= bytes.len(),
    ensures
        match_at(upper_body(contractions), han, bytes, s) == if in_set(
            CharSet::Upperish,
            han,
            bytes,
            s,
        ) {
            Some(
                suffix_end(
                    contractions,
                    bytes,
                    scan(
                        CharSet::Lowerish,
                        han,
                        bytes,
                        scan(CharSet::Upperish, han, bytes, s),
                    ),
                ),
            )
        } else {
            None
        },
{
    let tail = cat(Rx::Star(CharSet::Lowerish), suffix(contractions));
    let k = after(tail, han, bytes, done());
    lemma_cat(plus(CharSet::Upperish), tail, han, bytes, s, done());
    lemma_plus(CharSet::Upperish, han, bytes, s, k);
    if in_set(CharSet::Upperish, han, bytes, s) {
        lemma_char_bounds(bytes, s);
        let n = next(bytes, s);
        lemma_scan(CharSet::Upperish, han, bytes, n);
        let e = scan(CharSet::Upperish, han, bytes, n);
        let k2 = after(suffix(contractions), han, bytes, done());
        lemma_cat(Rx::Star(CharSet::Lowerish), suffix(contractions), han, bytes, e, done());
        lemma_scan(CharSet::Lowerish, han, bytes, e);
        lemma_suffix(contractions, han, bytes, scan(CharSet::Lowerish, han, bytes, e));
        lemma_star_greedy(CharSet::Lowerish, han, bytes, e, k2);
        lemma_star_greedy(CharSet::Upperish, han, bytes, n, k);
    }
}

/// A letter token starts at `p` with its letters, or with one character before
/// its letters at `s`.
pub proof fn lemma_case_token(
    contractions: bool,
    rest: Rx,
    han: bool,
    bytes: Seq<u8>,
    p: int,
    s: int,
    end: int,
)
    requires
        0 <= p < bytes.len(),
        if s == p {
            in_brackets(han, bytes, p)
        } else {
            &&& s == next(bytes, p)
            &&& in_set(CharSet::Prefix, han, bytes, p)
            &&& !in_brackets(han, bytes, p)
        },
        case_end(han, bytes, s, end),
    ensures
        match_at(
            alt(lower_run(contractions), alt(upper_run(contractions), rest)),
            han,
            bytes,
            p,
        ) == Some(suffix_end(contractions, bytes, end)),
{
    let prefix = Rx::Chars(CharSet::Prefix);
    let upper = CharSet::Upperish;
    let n = next(bytes, p);
    lemma_char_bounds(bytes, p);
    lemma_alt(lower_run(contractions), alt(upper_run(contractions), rest), han, bytes, p);
    lemma_alt(upper_run(contractions), rest, han, bytes, p);

    let k = after(lower_body(contractions), han, bytes, done());
    lemma_cat(opt(prefix), lower_body(contractions), han, bytes, p, done());
    lemma_opt(prefix, han, bytes, p, k);
    lemma_lower_body(contractions, han, bytes, p);
    lemma_lower_body(contractions, han, bytes, n);
    let k2 = after(upper_body(contractions), han, bytes, done());
    lemma_cat(opt(prefix), upper_body(contractions), han, bytes, p, done());
    lemma_opt(prefix, han, bytes, p, k2);
    lemma_upper_body(contractions, han, bytes, p);
    lemma_upper_body(contractions, han, bytes, n);

    if exists|q: int| #[trigger]
        last_turn(han, bytes, s, q) && end == scan(CharSet::Lowerish, han, bytes, q) {
        let q = choose|q: int| #[trigger]
            last_turn(han, bytes, s, q) && end == scan(CharSet::Lowerish, han, bytes, q);
        if s == p && in_set(CharSet::Prefix, han, bytes, p) {
            // a mark, which the prefix takes first
            if q == p {
                assert forall|r: int| #[trigger] chain(upper, han, bytes, n, r) implies !in_set(
                    CharSet::Lowerish,
                    han,
                    bytes,
                    r,
                ) by {
                    lemma_chain_bounds(upper, han, bytes, n, r);
                    assert(chain(upper, han, bytes, p, r));
                }
            } else {
                assert forall|r: int|
                    q < r && #[trigger] chain(upper, han, bytes, n, r) implies !in_set(
                    CharSet::Lowerish,
                    han,
                    bytes,
                    r,
                ) by {
                    assert(chain(upper, han, bytes, p, r));
                }
                assert(last_turn(han, bytes, n, q));
            }
        }
    } else {
        lemma_scan(upper, han, bytes, s);
        assert(chain(upper, han, bytes, s, s));
    }
}

/// Where there is no letter at `p` nor after a prefix at `p`, neither letter
/// alternative matches.
pub proof fn lemma_no_case_token(
    contractions: bool,
    rest: Rx,
    han: bool,
    bytes: Seq<u8>,
    p: int,
)
    requires
        0 <= p < bytes.len(),
        !in_brackets(han, bytes, p),
        in_set(CharSet::Prefix, han, bytes, p) ==> !in_brackets(han, bytes, next(bytes, p)),
    ensures
        match_at(
            alt(lower_run(contractions), alt(upper_run(contractions), rest)),
            han,
            bytes,
            p,
        ) == match_at(rest, han, bytes, p),
{
    let prefix = Rx::Chars(CharSet::Prefix);
    let n = next(bytes, p);
    lemma_char_bounds(bytes, p);
    lemma_alt(lower_run(contractions), alt(upper_run(contractions), rest), han, bytes, p);
    lemma_alt(upper_run(contractions), rest, han, bytes, p);
    let k = after(lower_body(contractions), han, bytes, done());
    lemma_cat(opt(prefix), lower_body(contractions), han, bytes, p, done());
    lemma_opt(prefix, han, bytes, p, k);
    lemma_lower_body(contractions, han, bytes, p);
    lemma_lower_body(contractions, han, bytes, n);
    let k2 = after(upper_body(contractions), han, bytes, done());
    lemma_cat(opt(prefix), upper_body(contractions), han, bytes, p, done());
    lemma_opt(prefix, han, bytes, p, k2);
    lemma_upper_body(contractions, han, bytes, p);
    lemma_upper_body(contractions, han, bytes, n);
}

/// The alternatives after the letter runs, one by one.
pub proof fn lemma_rest(tail: CharSet, han: bool, bytes: Seq<u8>, p: int, max: nat)
    requires
        0 <= p < bytes.len(),
        max >= 1,
    ensures
        match_at(alt(numbers(max), alt(symbols(tail), whitespace())), han, bytes, p) == if in_set(
            CharSet::Number,
            han,
            bytes,
            p,
        ) {
            Some(scan_upto(CharSet::Number, han, bytes, p, max))
        } else if in_set(CharSet::Symbol, han, bytes, p) {
            Some(scan(tail, han, bytes, scan(CharSet::Symbol, han, bytes, p)))
        } else if in_set(CharSet::Space, han, bytes, p) && in_set(
            CharSet::Symbol,
            han,
            bytes,
            next(bytes, p),
        ) {
            Some(scan(tail, han, bytes, scan(CharSet::Symbol, han, bytes, next(bytes, p))))
        } else {
            match_at(whitespace(), han, bytes, p)
        },
{
    lemma_alt(numbers(max), alt(symbols(tail), whitespace()), han, bytes, p);
    lemma_alt(symbols(tail), whitespace(), han, bytes, p);
    lemma_numbers(han, bytes, p, max);
    lemma_symbols(tail, han, bytes, p);
}

/// Where there is a letter at `p`, one of the letter alternatives matches.
pub proof fn lemma_letter_matches(
    contractions: bool,
    rest: Rx,
    han: bool,
    bytes: Seq<u8>,
    p: int,
)
    requires
        0 <= p < bytes.len(),
        in_brackets(han, bytes, p),
    ensures
        match_at(
            alt(lower_run(contractions), alt(upper_run(contractions), rest)),
            han,
            bytes,
            p,
        ) is Some,
{
    let prefix = Rx::Chars(CharSet::Prefix);
    lemma_alt(lower_run(contractions), alt(upper_run(contractions), rest), han, bytes, p);
    lemma_alt(upper_run(contractions), rest, han, bytes, p);
    let k = after(lower_body(contractions), han, bytes, done());
    lemma_cat(opt(prefix), lower_body(contractions), han, bytes, p, done());
    lemma_opt(prefix, han, bytes, p, k);
    lemma_lower_body(contractions, han, bytes, p);
    let k2 = after(upper_body(contractions), han, bytes, done());
    lemma_cat(opt(prefix), upper_body(contractions), han, bytes, p, done());
    lemma_opt(prefix, han, bytes, p, k2);
    lemma_upper_body(contractions, han, bytes, p);
    if !in_set(CharSet::Upperish, han, bytes, p) {
        assert(last_turn(han, bytes, p, p));
    }
}

} // verus!
