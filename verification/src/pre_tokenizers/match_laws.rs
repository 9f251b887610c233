//! What a pattern can match, whatever order a search tries it in, and what it
//! prefers.

use vstd::prelude::*;

use super::decode::lemma_char_bounds;
use super::regex::{after, alt, done, in_set, match_at, next, numbers, plus, run, star, CharSet, Rx};
use super::runs::{
    chain, lemma_alt, lemma_numbers, lemma_plus_run, lemma_scan, lemma_star_greedy, scan_upto,
};

verus! {

/// `m` is not before `p`.
pub open spec fn forward(p: int, m: int) -> bool {
    p <= m
}

/// The pattern fits the text from `p` to `q`: one after the other for parts in a
/// row, either for alternatives, nothing or it for an option, any number of
/// characters of the set for a repetition.
pub open spec fn fits(rx: Rx, han: bool, bytes: Seq<u8>, p: int, q: int) -> bool
    decreases rx,
{
    match rx {
        Rx::Empty => p == q,
        Rx::Chars(set) => in_set(set, han, bytes, p) && q == next(bytes, p),
        Rx::Cat(a, b) => exists|m: int| #[trigger]
            forward(p, m) && fits(*a, han, bytes, p, m) && fits(*b, han, bytes, m, q),
        Rx::Alt(a, b) => fits(*a, han, bytes, p, q) || fits(*b, han, bytes, p, q),
        Rx::Opt(a) => p == q || fits(*a, han, bytes, p, q),
        Rx::Star(set) => chain(set, han, bytes, p, q),
        Rx::NotAhead(set) => p == q && !in_set(set, han, bytes, p),
    }
}

proof fn lemma_star_found(
    set: CharSet,
    han: bool,
    bytes: Seq<u8>,
    p: int,
    k: spec_fn(int) -> Option<int>,
) -> (q: int)
    requires
        star(set, han, bytes, p, k) is Some,
    ensures
        p <= q,
        chain(set, han, bytes, p, q),
        k(q) == star(set, han, bytes, p, k),
    decreases bytes.len() - p,
{
    if in_set(set, han, bytes, p) {
        lemma_char_bounds(bytes, p);
        if star(set, han, bytes, next(bytes, p), k) is Some {
            return lemma_star_found(set, han, bytes, next(bytes, p), k);
        }
    }
    p
}

proof fn lemma_found(
    rx: Rx,
    han: bool,
    bytes: Seq<u8>,
    p: int,
    k: spec_fn(int) -> Option<int>,
) -> (q: int)
    requires
        run(rx, han, bytes, p, k) is Some,
    ensures
        p <= q,
        fits(rx, han, bytes, p, q),
        k(q) == run(rx, han, bytes, p, k),
    decreases rx,
{
    match rx {
        Rx::Empty => p,
        Rx::Chars(set) => {
            lemma_char_bounds(bytes, p);
            next(bytes, p)
        },
        Rx::Cat(a, b) => {
            let m = lemma_found(*a, han, bytes, p, after(*b, han, bytes, k));
            let q = lemma_found(*b, han, bytes, m, k);
            assert(forward(p, m));
            q
        },
        Rx::Alt(a, b) => if run(*a, han, bytes, p, k) is Some {
            lemma_found(*a, han, bytes, p, k)
        } else {
            lemma_found(*b, han, bytes, p, k)
        },
        Rx::Opt(a) => if run(*a, han, bytes, p, k) is Some {
            lemma_found(*a, han, bytes, p, k)
        } else {
            p
        },
        Rx::Star(set) => lemma_star_found(set, han, bytes, p, k),
        Rx::NotAhead(set) => p,
    }
}

proof fn lemma_star_complete(
    set: CharSet,
    han: bool,
    bytes: Seq<u8>,
    p: int,
    k: spec_fn(int) -> Option<int>,
    q: int,
)
    requires
        chain(set, han, bytes, p, q),
        k(q) is Some,
    ensures
        star(set, han, bytes, p, k) is Some,
    decreases bytes.len() - p,
{
    if p != q {
        lemma_char_bounds(bytes, p);
        lemma_star_complete(set, han, bytes, next(bytes, p), k, q);
    }
}

proof fn lemma_complete(
    rx: Rx,
    han: bool,
    bytes: Seq<u8>,
    p: int,
    k: spec_fn(int) -> Option<int>,
    q: int,
)
    requires
        fits(rx, han, bytes, p, q),
        k(q) is Some,
    ensures
        run(rx, han, bytes, p, k) is Some,
    decreases rx,
{
    match rx {
        Rx::Cat(a, b) => {
            let m = choose|m: int| #[trigger]
                forward(p, m) && fits(*a, han, bytes, p, m) && fits(*b, han, bytes, m, q);
            lemma_complete(*b, han, bytes, m, k, q);
            assert(after(*b, han, bytes, k)(m) is Some);
            lemma_complete(*a, han, bytes, p, after(*b, han, bytes, k), m);
        },
        Rx::Alt(a, b) => {
            if fits(*a, han, bytes, p, q) {
                lemma_complete(*a, han, bytes, p, k, q);
            } else {
                lemma_complete(*b, han, bytes, p, k, q);
            }
        },
        Rx::Opt(a) => {
            if p != q {
                lemma_complete(*a, han, bytes, p, k, q);
            }
        },
        Rx::Star(set) => lemma_star_complete(set, han, bytes, p, k, q),
        _ => {},
    }
}

/// A match is where the pattern fits, and there is one wherever it fits at all.
pub proof fn law_matches_fit(rx: Rx, han: bool, bytes: Seq<u8>, p: int, q: int)
    ensures
        match_at(rx, han, bytes, p) matches Some(end) ==> fits(rx, han, bytes, p, end),
        fits(rx, han, bytes, p, q) ==> match_at(rx, han, bytes, p) is Some,
{
    if match_at(rx, han, bytes, p) is Some {
        let end = lemma_found(rx, han, bytes, p, done());
    }
    if fits(rx, han, bytes, p, q) {
        lemma_complete(rx, han, bytes, p, done(), q);
    }
}

/// Of two alternatives the first is taken where it matches, however long the
/// other would be.
pub proof fn law_first_alternative_is_taken(a: Rx, b: Rx, han: bool, bytes: Seq<u8>, p: int)
    ensures
        match_at(a, han, bytes, p) is Some ==> match_at(alt(a, b), han, bytes, p) == match_at(
            a,
            han,
            bytes,
            p,
        ),
        match_at(a, han, bytes, p) is None ==> match_at(alt(a, b), han, bytes, p) == match_at(
            b,
            han,
            bytes,
            p,
        ),
{
    lemma_alt(a, b, han, bytes, p);
}

/// A repetition takes all characters of the set that follow each other, and stops
/// where one does not belong to it.
pub proof fn law_repetition_takes_all(set: CharSet, han: bool, bytes: Seq<u8>, p: int)
    requires
        0 <= p <= bytes.len(),
    ensures
        match_at(Rx::Star(set), han, bytes, p) matches Some(end) && p <= end <= bytes.len() && chain(
            set,
            han,
            bytes,
            p,
            end,
        ) && !in_set(set, han, bytes, end),
        in_set(set, han, bytes, p) ==> match_at(plus(set), han, bytes, p) == match_at(
            Rx::Star(set),
            han,
            bytes,
            p,
        ),
        !in_set(set, han, bytes, p) ==> match_at(plus(set), han, bytes, p) is None,
{
    lemma_scan(set, han, bytes, p);
    lemma_star_greedy(set, han, bytes, p, done());
    lemma_plus_run(set, han, bytes, p);
}

/// The characters of the set, exactly `n` of them, lead from `p` to `q`.
pub open spec fn counted(set: CharSet, han: bool, bytes: Seq<u8>, p: int, q: int, n: nat) -> bool
    decreases n,
{
    if n == 0 {
        p == q
    } else {
        in_set(set, han, bytes, p) && counted(set, han, bytes, next(bytes, p), q, (n - 1) as nat)
    }
}

proof fn lemma_counted(set: CharSet, han: bool, bytes: Seq<u8>, p: int, max: nat) -> (n: nat)
    ensures
        n <= max,
        counted(set, han, bytes, p, scan_upto(set, han, bytes, p, max), n),
        n < max ==> !in_set(set, han, bytes, scan_upto(set, han, bytes, p, max)),
        max > 0 && in_set(set, han, bytes, p) ==> n > 0,
    decreases max,
{
    if max > 0 && in_set(set, han, bytes, p) {
        let n = lemma_counted(set, han, bytes, next(bytes, p), (max - 1) as nat);
        n + 1
    } else {
        0
    }
}

/// A run of numbers has at least one and at most `max` of them, and fewer only
/// where no number follows.
pub proof fn law_number_runs(han: bool, bytes: Seq<u8>, p: int, max: nat)
    requires
        max >= 1,
    ensures
        match_at(numbers(max), han, bytes, p) is Some <==> in_set(CharSet::Number, han, bytes, p),
        match_at(numbers(max), han, bytes, p) matches Some(end) ==> exists|n: nat|
            {
                &&& 1 <= n <= max
                &&& #[trigger] counted(CharSet::Number, han, bytes, p, end, n)
                &&& n < max ==> !in_set(CharSet::Number, han, bytes, end)
            },
{
    lemma_numbers(han, bytes, p, max);
    let n = lemma_counted(CharSet::Number, han, bytes, p, max);
    if let Some(end) = match_at(numbers(max), han, bytes, p) {
        assert(counted(CharSet::Number, han, bytes, p, end, n));
    }
}

} // verus!
