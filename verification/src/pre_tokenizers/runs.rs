//! What each part of a split pattern matches, in closed form.

use vstd::prelude::*;

use super::decode::lemma_char_bounds;
use super::regex::{
    after, alt, cat, contraction, done, in_set, letters, long_contraction, match_at, next, numbers,
    opt, plus, run, short_contraction, star, symbols, upto, whitespace, CharSet, Rx,
};

verus! {

/// The end of the run of characters of the set that starts at `p`.
pub open spec fn scan(set: CharSet, han: bool, bytes: Seq<u8>, p: int) -> int
    decreases bytes.len() - p,
{
    if in_set(set, han, bytes, p) {
        scan(set, han, bytes, next(bytes, p))
    } else {
        p
    }
}

/// As [`scan`], but at most `n` characters.
pub open spec fn scan_upto(set: CharSet, han: bool, bytes: Seq<u8>, p: int, n: nat) -> int
    decreases n,
{
    if n > 0 && in_set(set, han, bytes, p) {
        scan_upto(set, han, bytes, next(bytes, p), (n - 1) as nat)
    } else {
        p
    }
}

/// Characters of the set lead from `p` to `q`.
pub open spec fn chain(set: CharSet, han: bool, bytes: Seq<u8>, p: int, q: int) -> bool
    decreases bytes.len() - p,
{
    p == q || (in_set(set, han, bytes, p) && chain(set, han, bytes, next(bytes, p), q))
}

/// The end of the contraction at `p`, if there is one.
pub open spec fn contraction_end(bytes: Seq<u8>, p: int) -> Option<int> {
    if !(p < bytes.len() && bytes[p] == 0x27) {
        None
    } else if folds(bytes, p + 1, 0x73) || folds(bytes, p + 1, 0x74) || folds(bytes, p + 1, 0x6D)
        || folds(bytes, p + 1, 0x64) {
        Some(p + 2)
    } else if p + 2 < bytes.len() && bytes[p + 1] == 0xC5 && bytes[p + 2] == 0xBF {
        Some(p + 3)
    } else if (folds(bytes, p + 1, 0x72) && folds(bytes, p + 2, 0x65)) || (folds(
        bytes,
        p + 1,
        0x76,
    ) && folds(bytes, p + 2, 0x65)) || (folds(bytes, p + 1, 0x6C) && folds(bytes, p + 2, 0x6C)) {
        Some(p + 3)
    } else {
        None
    }
}

/// The byte at `p` is the lower case ASCII letter `c` or its upper case.
pub open spec fn folds(bytes: Seq<u8>, p: int, c: u8) -> bool {
    p < bytes.len() && (bytes[p] == c || bytes[p] == c - 0x20)
}

/// A run starts and ends inside the buffer, and ends where no character of the
/// set follows.
pub proof fn lemma_scan(set: CharSet, han: bool, bytes: Seq<u8>, p: int)
    requires
        0 <= p <= bytes.len(),
    ensures
        p <= scan(set, han, bytes, p) <= bytes.len(),
        chain(set, han, bytes, p, scan(set, han, bytes, p)),
        !in_set(set, han, bytes, scan(set, han, bytes, p)),
        in_set(set, han, bytes, p) ==> p < scan(set, han, bytes, p),
    decreases bytes.len() - p,
{
    if in_set(set, han, bytes, p) {
        lemma_char_bounds(bytes, p);
        lemma_scan(set, han, bytes, next(bytes, p));
    }
}

/// A chain goes forward and stays inside the buffer.
pub proof fn lemma_chain_bounds(set: CharSet, han: bool, bytes: Seq<u8>, p: int, q: int)
    requires
        0 <= p <= bytes.len(),
        chain(set, han, bytes, p, q),
    ensures
        p <= q <= bytes.len(),
        scan(set, han, bytes, p) == scan(set, han, bytes, q),
    decreases bytes.len() - p,
{
    if p != q {
        lemma_char_bounds(bytes, p);
        lemma_chain_bounds(set, han, bytes, next(bytes, p), q);
    }
}

/// A chain extends by a further character of the set.
pub proof fn lemma_chain_push(set: CharSet, han: bool, bytes: Seq<u8>, p: int, q: int)
    requires
        0 <= p <= bytes.len(),
        chain(set, han, bytes, p, q),
        in_set(set, han, bytes, q),
    ensures
        chain(set, han, bytes, p, next(bytes, q)),
    decreases bytes.len() - p,
{
    reveal_with_fuel(chain, 2);
    if p != q {
        lemma_char_bounds(bytes, p);
        lemma_chain_push(set, han, bytes, next(bytes, p), q);
    }
}

/// Of two offsets that chains from `p` reach, a chain leads from the lower to
/// the higher one.
pub proof fn lemma_chain_order(set: CharSet, han: bool, bytes: Seq<u8>, p: int, q: int, r: int)
    requires
        0 <= p <= bytes.len(),
        chain(set, han, bytes, p, q),
        chain(set, han, bytes, p, r),
        q <= r,
    ensures
        chain(set, han, bytes, q, r),
    decreases bytes.len() - p,
{
    if p != q {
        lemma_char_bounds(bytes, p);
        lemma_chain_bounds(set, han, bytes, next(bytes, p), q);
        lemma_chain_order(set, han, bytes, next(bytes, p), q, r);
    }
}

/// The repetition stops at `q` if `k` succeeds there and at no offset further
/// along the run.
pub proof fn lemma_star_at(
    set: CharSet,
    han: bool,
    bytes: Seq<u8>,
    p: int,
    k: spec_fn(int) -> Option<int>,
    q: int,
)
    requires
        0 <= p <= bytes.len(),
        chain(set, han, bytes, p, q),
        k(q) is Some,
        forall|r: int| q < r && #[trigger] chain(set, han, bytes, p, r) ==> k(r) is None,
    ensures
        star(set, han, bytes, p, k) == k(q),
    decreases bytes.len() - p,
{
    if in_set(set, han, bytes, p) {
        let n = next(bytes, p);
        lemma_char_bounds(bytes, p);
        assert forall|r: int| q < r && #[trigger] chain(set, han, bytes, n, r) implies k(
            r,
        ) is None by {
            assert(chain(set, han, bytes, p, r));
        }
        if p == q {
            assert forall|r: int| #[trigger] chain(set, han, bytes, n, r) implies k(
                r,
            ) is None by {
                lemma_chain_bounds(set, han, bytes, n, r);
            }
            lemma_star_none(set, han, bytes, n, k);
        } else {
            lemma_star_at(set, han, bytes, n, k, q);
        }
    }
}

/// The repetition fails if `k` succeeds nowhere along the run.
pub proof fn lemma_star_none(
    set: CharSet,
    han: bool,
    bytes: Seq<u8>,
    p: int,
    k: spec_fn(int) -> Option<int>,
)
    requires
        0 <= p <= bytes.len(),
        forall|r: int| #[trigger] chain(set, han, bytes, p, r) ==> k(r) is None,
    ensures
        star(set, han, bytes, p, k) is None,
    decreases bytes.len() - p,
{
    assert(chain(set, han, bytes, p, p));
    if in_set(set, han, bytes, p) {
        let n = next(bytes, p);
        lemma_char_bounds(bytes, p);
        assert forall|r: int| #[trigger] chain(set, han, bytes, n, r) implies k(r) is None by {
            assert(chain(set, han, bytes, p, r));
        }
        lemma_star_none(set, han, bytes, n, k);
    }
}

/// The repetition takes the whole run if `k` succeeds after it.
pub proof fn lemma_star_greedy(
    set: CharSet,
    han: bool,
    bytes: Seq<u8>,
    p: int,
    k: spec_fn(int) -> Option<int>,
)
    requires
        0 <= p <= bytes.len(),
        k(scan(set, han, bytes, p)) is Some,
    ensures
        star(set, han, bytes, p, k) == k(scan(set, han, bytes, p)),
    decreases bytes.len() - p,
{
    if in_set(set, han, bytes, p) {
        lemma_char_bounds(bytes, p);
        lemma_star_greedy(set, han, bytes, next(bytes, p), k);
    }
}

/// `[set]+` before `k` is `[set]*` before `k` after a first character.
pub proof fn lemma_plus(
    set: CharSet,
    han: bool,
    bytes: Seq<u8>,
    p: int,
    k: spec_fn(int) -> Option<int>,
)
    ensures
        run(plus(set), han, bytes, p, k) == if in_set(set, han, bytes, p) {
            star(set, han, bytes, next(bytes, p), k)
        } else {
            None
        },
{
    reveal_with_fuel(run, 3);
}

/// `ab` before `k` is `a` before (`b` before `k`).
pub proof fn lemma_cat(
    a: Rx,
    b: Rx,
    han: bool,
    bytes: Seq<u8>,
    p: int,
    k: spec_fn(int) -> Option<int>,
)
    ensures
        run(cat(a, b), han, bytes, p, k) == run(a, han, bytes, p, after(b, han, bytes, k)),
        forall|q: int|
            #[trigger] after(b, han, bytes, k)(q) == run(b, han, bytes, q, k),
{
}

/// `a|b` matches what `a` matches, or else what `b` matches.
pub proof fn lemma_alt(a: Rx, b: Rx, han: bool, bytes: Seq<u8>, p: int)
    ensures
        match_at(alt(a, b), han, bytes, p) == match match_at(a, han, bytes, p) {
            Some(end) => Some(end),
            None => match_at(b, han, bytes, p),
        },
{
}

/// `a?` before `k` prefers `a`.
pub proof fn lemma_opt(
    a: Rx,
    han: bool,
    bytes: Seq<u8>,
    p: int,
    k: spec_fn(int) -> Option<int>,
)
    ensures
        run(opt(a), han, bytes, p, k) == match run(a, han, bytes, p, k) {
            Some(end) => Some(end),
            None => k(p),
        },
{
}

proof fn lemma_short_contraction(c: u8, han: bool, bytes: Seq<u8>, p: int)
    requires
        0 <= p,
        0x61 <= c <= 0x7A,
    ensures
        match_at(short_contraction(c), han, bytes, p) == if p < bytes.len() && bytes[p] == 0x27 {
            if folds(bytes, p + 1, c) {
                Some(p + 2)
            } else if c == 0x73 && p + 2 < bytes.len() && bytes[p + 1] == 0xC5 && bytes[p + 2]
                == 0xBF {
                Some(p + 3)
            } else {
                None
            }
        } else {
            None
        },
{
    lemma_cat(
        Rx::Chars(CharSet::Apostrophe),
        Rx::Chars(CharSet::Folded(c)),
        han,
        bytes,
        p,
        done(),
    );
}

proof fn lemma_long_contraction(c: u8, d: u8, han: bool, bytes: Seq<u8>, p: int)
    requires
        0 <= p,
        0x61 <= c <= 0x7A,
        0x61 <= d <= 0x7A,
        c != 0x73,
        d != 0x73,
    ensures
        match_at(long_contraction(c, d), han, bytes, p) == if p < bytes.len() && bytes[p] == 0x27
            && folds(bytes, p + 1, c) && folds(bytes, p + 2, d) {
            Some(p + 3)
        } else {
            None
        },
{
    let tail = cat(Rx::Chars(CharSet::Folded(c)), Rx::Chars(CharSet::Folded(d)));
    lemma_cat(Rx::Chars(CharSet::Apostrophe), tail, han, bytes, p, done());
    lemma_cat(
        Rx::Chars(CharSet::Folded(c)),
        Rx::Chars(CharSet::Folded(d)),
        han,
        bytes,
        p + 1,
        done(),
    );
}

/// The contractions match as [`contraction_end`] says.
pub proof fn lemma_contraction(han: bool, bytes: Seq<u8>, p: int)
    requires
        0 <= p,
    ensures
        match_at(contraction(), han, bytes, p) == contraction_end(bytes, p),
{
    lemma_short_contraction(0x73, han, bytes, p);
    lemma_short_contraction(0x74, han, bytes, p);
    lemma_long_contraction(0x72, 0x65, han, bytes, p);
    lemma_long_contraction(0x76, 0x65, han, bytes, p);
    lemma_short_contraction(0x6D, han, bytes, p);
    lemma_long_contraction(0x6C, 0x6C, han, bytes, p);
    lemma_short_contraction(0x64, han, bytes, p);
    let d = short_contraction(0x64);
    let ll = alt(long_contraction(0x6C, 0x6C), d);
    let m = alt(short_contraction(0x6D), ll);
    let ve = alt(long_contraction(0x76, 0x65), m);
    let re = alt(long_contraction(0x72, 0x65), ve);
    let t = alt(short_contraction(0x74), re);
    lemma_alt(short_contraction(0x73), t, han, bytes, p);
    lemma_alt(short_contraction(0x74), re, han, bytes, p);
    lemma_alt(long_contraction(0x72, 0x65), ve, han, bytes, p);
    lemma_alt(long_contraction(0x76, 0x65), m, han, bytes, p);
    lemma_alt(short_contraction(0x6D), ll, han, bytes, p);
    lemma_alt(long_contraction(0x6C, 0x6C), d, han, bytes, p);
}

/// A letter run starts at a letter, or one character before it.
pub proof fn lemma_letters(han: bool, bytes: Seq<u8>, p: int)
    requires
        0 <= p <= bytes.len(),
    ensures
        match_at(letters(), han, bytes, p) == if in_set(CharSet::Letter, han, bytes, p) {
            Some(scan(CharSet::Letter, han, bytes, p))
        } else if in_set(CharSet::Prefix, han, bytes, p) && in_set(
            CharSet::Letter,
            han,
            bytes,
            next(bytes, p),
        ) {
            Some(scan(CharSet::Letter, han, bytes, next(bytes, p)))
        } else {
            None
        },
{
    let k = after(plus(CharSet::Letter), han, bytes, done());
    lemma_cat(opt(Rx::Chars(CharSet::Prefix)), plus(CharSet::Letter), han, bytes, p, done());
    lemma_opt(Rx::Chars(CharSet::Prefix), han, bytes, p, k);
    lemma_plus_run(CharSet::Letter, han, bytes, p);
    if p < bytes.len() {
        lemma_char_bounds(bytes, p);
        lemma_plus_run(CharSet::Letter, han, bytes, next(bytes, p));
    }
}

/// `[set]+` at the end of a pattern takes the whole run.
pub proof fn lemma_plus_run(set: CharSet, han: bool, bytes: Seq<u8>, p: int)
    requires
        0 <= p <= bytes.len(),
    ensures
        match_at(plus(set), han, bytes, p) == if in_set(set, han, bytes, p) {
            Some(scan(set, han, bytes, p))
        } else {
            None
        },
{
    lemma_plus(set, han, bytes, p, done());
    if in_set(set, han, bytes, p) {
        lemma_char_bounds(bytes, p);
        lemma_star_greedy(set, han, bytes, next(bytes, p), done());
    }
}

proof fn lemma_upto(set: CharSet, han: bool, bytes: Seq<u8>, p: int, n: nat)
    ensures
        match_at(upto(set, n), han, bytes, p) == Some(scan_upto(set, han, bytes, p, n)),
    decreases n,
{
    if n > 0 {
        let rest = upto(set, (n - 1) as nat);
        lemma_opt(cat(Rx::Chars(set), rest), han, bytes, p, done());
        lemma_cat(Rx::Chars(set), rest, han, bytes, p, done());
        lemma_upto(set, han, bytes, next(bytes, p), (n - 1) as nat);
    }
}

/// A number run takes up to `max` characters.
pub proof fn lemma_numbers(han: bool, bytes: Seq<u8>, p: int, max: nat)
    requires
        max >= 1,
    ensures
        match_at(numbers(max), han, bytes, p) == if in_set(CharSet::Number, han, bytes, p) {
            Some(scan_upto(CharSet::Number, han, bytes, p, max))
        } else {
            None
        },
{
    let rest = upto(CharSet::Number, (max - 1) as nat);
    lemma_cat(Rx::Chars(CharSet::Number), rest, han, bytes, p, done());
    lemma_upto(CharSet::Number, han, bytes, next(bytes, p), (max - 1) as nat);
}

/// A symbol run, after its space if there is one, takes its whole tail.
pub proof fn lemma_symbols(tail: CharSet, han: bool, bytes: Seq<u8>, p: int)
    requires
        0 <= p <= bytes.len(),
    ensures
        match_at(symbols(tail), han, bytes, p) == if in_set(CharSet::Symbol, han, bytes, p) {
            Some(scan(tail, han, bytes, scan(CharSet::Symbol, han, bytes, p)))
        } else if in_set(CharSet::Space, han, bytes, p) && in_set(
            CharSet::Symbol,
            han,
            bytes,
            next(bytes, p),
        ) {
            Some(scan(tail, han, bytes, scan(CharSet::Symbol, han, bytes, next(bytes, p))))
        } else {
            None
        },
{
    let body = cat(plus(CharSet::Symbol), Rx::Star(tail));
    let k = after(body, han, bytes, done());
    lemma_cat(opt(Rx::Chars(CharSet::Space)), body, han, bytes, p, done());
    lemma_opt(Rx::Chars(CharSet::Space), han, bytes, p, k);
    lemma_symbol_body(tail, han, bytes, p);
    if p < bytes.len() {
        lemma_char_bounds(bytes, p);
        lemma_symbol_body(tail, han, bytes, next(bytes, p));
    }
}

proof fn lemma_symbol_body(tail: CharSet, han: bool, bytes: Seq<u8>, p: int)
    requires
        0 <= p <= bytes.len(),
    ensures
        match_at(cat(plus(CharSet::Symbol), Rx::Star(tail)), han, bytes, p) == if in_set(
            CharSet::Symbol,
            han,
            bytes,
            p,
        ) {
            Some(scan(tail, han, bytes, scan(CharSet::Symbol, han, bytes, p)))
        } else {
            None
        },
{
    let k = after(Rx::Star(tail), han, bytes, done());
    lemma_cat(plus(CharSet::Symbol), Rx::Star(tail), han, bytes, p, done());
    lemma_plus(CharSet::Symbol, han, bytes, p, k);
    if in_set(CharSet::Symbol, han, bytes, p) {
        lemma_char_bounds(bytes, p);
        let n = next(bytes, p);
        lemma_scan(CharSet::Symbol, han, bytes, n);
        let e = scan(CharSet::Symbol, han, bytes, n);
        lemma_star_greedy(tail, han, bytes, e, done());
        lemma_star_greedy(CharSet::Symbol, han, bytes, n, k);
    }
}

/// Which of the whitespace alternatives applies is a matter of the run of `\s`
/// that starts at `p`, and `end` is where the match ends.
pub open spec fn white_end(han: bool, bytes: Seq<u8>, p: int, end: int) -> bool {
    let run_end = scan(CharSet::White, han, bytes, p);
    if exists|q: int| newline_in_run(han, bytes, p, q) {
        // through the last line end of the run
        &&& newline_in_run(han, bytes, p, end - 1)
        &&& forall|q: int| #[trigger] newline_in_run(han, bytes, p, q) ==> q < end
    } else if run_end == bytes.len() || next(bytes, p) == run_end {
        // all of the run: the text ends with it, or it is one character long
        end == run_end
    } else {
        // all but the last character of the run
        &&& chain(CharSet::White, han, bytes, p, end)
        &&& in_set(CharSet::White, han, bytes, end)
        &&& next(bytes, end) == run_end
    }
}

/// The run of `\s` that starts at `p` has a line end at `q`.
pub open spec fn newline_in_run(han: bool, bytes: Seq<u8>, p: int, q: int) -> bool {
    chain(CharSet::White, han, bytes, p, q) && in_set(CharSet::Newline, han, bytes, q)
}

/// Whitespace matches as [`white_end`] says.
pub proof fn lemma_whitespace(han: bool, bytes: Seq<u8>, p: int, end: int)
    requires
        0 <= p < bytes.len(),
        in_set(CharSet::White, han, bytes, p),
        white_end(han, bytes, p, end),
    ensures
        match_at(whitespace(), han, bytes, p) == Some(end),
        p < end <= bytes.len(),
{
    let white = CharSet::White;
    let lines = cat(Rx::Star(white), plus(CharSet::Newline));
    let all_but = cat(plus(white), Rx::NotAhead(CharSet::NonWhite));
    lemma_alt(lines, alt(all_but, plus(white)), han, bytes, p);
    lemma_alt(all_but, plus(white), han, bytes, p);

    lemma_cat(Rx::Star(white), plus(CharSet::Newline), han, bytes, p, done());
    let k = after(plus(CharSet::Newline), han, bytes, done());
    assert forall|q: int| 0 <= q <= bytes.len() implies (#[trigger] k(q)) == if in_set(
        CharSet::Newline,
        han,
        bytes,
        q,
    ) {
        Some(scan(CharSet::Newline, han, bytes, q))
    } else {
        None
    } by {
        lemma_plus_run(CharSet::Newline, han, bytes, q);
    }
    lemma_scan(white, han, bytes, p);
    let run_end = scan(white, han, bytes, p);
    if exists|q: int| newline_in_run(han, bytes, p, q) {
        let q = end - 1;
        lemma_chain_bounds(white, han, bytes, p, q);
        assert(!in_set(CharSet::Newline, han, bytes, end)) by {
            if in_set(CharSet::Newline, han, bytes, end) {
                lemma_chain_push(white, han, bytes, p, q);
                assert(newline_in_run(han, bytes, p, end));
            }
        }
        assert(scan(CharSet::Newline, han, bytes, end) == end);
        assert forall|r: int| q < r && #[trigger] chain(white, han, bytes, p, r) implies k(
            r,
        ) is None by {
            lemma_chain_bounds(white, han, bytes, p, r);
            if in_set(CharSet::Newline, han, bytes, r) {
                assert(newline_in_run(han, bytes, p, r));
            }
        }
        lemma_star_at(white, han, bytes, p, k, q);
    } else {
        assert forall|r: int| #[trigger] chain(white, han, bytes, p, r) implies k(r) is None by {
            lemma_chain_bounds(white, han, bytes, p, r);
            assert(!newline_in_run(han, bytes, p, r));
        }
        lemma_star_none(white, han, bytes, p, k);

        let n = next(bytes, p);
        lemma_char_bounds(bytes, p);
        lemma_scan(white, han, bytes, n);
        lemma_cat(plus(white), Rx::NotAhead(CharSet::NonWhite), han, bytes, p, done());
        let k2 = after(Rx::NotAhead(CharSet::NonWhite), han, bytes, done());
        lemma_plus(white, han, bytes, p, k2);
        if run_end == bytes.len() {
            lemma_star_greedy(white, han, bytes, n, k2);
        } else if n == run_end {
            assert forall|r: int| #[trigger] chain(white, han, bytes, n, r) implies k2(
                r,
            ) is None by {
                lemma_chain_bounds(white, han, bytes, n, r);
            }
            lemma_star_none(white, han, bytes, n, k2);
            lemma_plus_run(white, han, bytes, p);
        } else {
            lemma_chain_bounds(white, han, bytes, p, end);
            lemma_char_bounds(bytes, end);
            lemma_chain_bounds(white, han, bytes, n, end);
            assert forall|r: int| end < r && #[trigger] chain(white, han, bytes, n, r) implies k2(
                r,
            ) is None by {
                lemma_chain_order(white, han, bytes, n, end, r);
                assert(chain(white, han, bytes, run_end, r));
            }
            lemma_star_at(white, han, bytes, n, k2, end);
        }
    }
}

} // verus!
