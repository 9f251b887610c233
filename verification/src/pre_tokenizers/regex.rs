//! What a split pattern matches: patterns as terms, and the leftmost-first
//! backtracking search that gives them their meaning.

use vstd::prelude::*;

use super::decode::{char_cp, char_len};
use super::unicode::{
    family_class, general_category, is_han_cp, white_space, CategoryGroup, LetterCategory,
    O200kCharClass,
};

verus! {

/// ASCII `\p{Lu}`.
pub open spec fn ascii_upper(b: u8) -> bool {
    0x41 <= b <= 0x5A
}

/// ASCII `\p{Ll}`.
pub open spec fn ascii_lower(b: u8) -> bool {
    0x61 <= b <= 0x7A
}

/// ASCII `\p{N}`.
pub open spec fn ascii_digit(b: u8) -> bool {
    0x30 <= b <= 0x39
}

/// ASCII `\s`: tab, line feed, vertical tab, form feed, carriage return, space.
pub open spec fn ascii_white(b: u8) -> bool {
    b == 0x20 || 9 <= b <= 13
}

/// The class of an ASCII byte.
pub open spec fn ascii_class(b: u8) -> O200kCharClass {
    if ascii_upper(b) {
        O200kCharClass::Upper
    } else if ascii_lower(b) {
        O200kCharClass::Lower
    } else if ascii_digit(b) {
        O200kCharClass::Number
    } else if ascii_white(b) {
        O200kCharClass::Whitespace
    } else {
        O200kCharClass::Other
    }
}

/// The class of the character at `p`, and whether it is `\p{Han}` in a pattern
/// that tells Han apart (`han`).
pub open spec fn class_at(han: bool, bytes: Seq<u8>, p: int) -> (O200kCharClass, bool) {
    if bytes[p] < 0x80 {
        (ascii_class(bytes[p]), false)
    } else {
        family_class(han, char_cp(bytes, p))
    }
}

/// The sets of characters that the split patterns are made of.
pub enum CharSet {
    /// `[\r\n]`
    Newline,
    /// `[\r\n/]`
    NewlineOrSlash,
    /// A space.
    Space,
    /// `'`
    Apostrophe,
    /// A lower case ASCII letter under `(?i)`; for `s` also U+017F, the long
    /// s, which folds to it.
    Folded(u8),
    /// `\p{L}`
    Letter,
    /// `\p{N}`
    Number,
    /// `\s`
    White,
    /// `\S`
    NonWhite,
    /// `[^\r\n\p{L}\p{N}]`
    Prefix,
    /// `[^\s\p{L}\p{N}]`
    Symbol,
    /// `\p{Han}`
    Han,
    /// `[\p{Lu}\p{Lt}\p{Lm}\p{Lo}\p{M}]`, without Han where the pattern says so.
    Upperish,
    /// `[\p{Ll}\p{Lm}\p{Lo}\p{M}]`, without Han where the pattern says so.
    Lowerish,
}

/// `\p{L}` by class.
pub open spec fn is_letter_class(class: O200kCharClass) -> bool {
    class is Upper || class is Lower || class is Caseless
}

/// Whether there is a character at `p` and it belongs to the set.
pub open spec fn in_set(set: CharSet, han: bool, bytes: Seq<u8>, p: int) -> bool {
    let b = bytes[p];
    let (class, is_han) = class_at(han, bytes, p);
    &&& 0 <= p < bytes.len()
    &&& match set {
        CharSet::Newline => b == 0x0D || b == 0x0A,
        CharSet::NewlineOrSlash => b == 0x0D || b == 0x0A || b == 0x2F,
        CharSet::Space => b == 0x20,
        CharSet::Apostrophe => b == 0x27,
        CharSet::Folded(c) => b == c || b == c - 0x20 || (c == 0x73 && b == 0xC5 && p + 1
            < bytes.len() && bytes[p + 1] == 0xBF),
        CharSet::Letter => is_letter_class(class),
        CharSet::Number => class is Number,
        CharSet::White => class is Whitespace,
        CharSet::NonWhite => !(class is Whitespace),
        CharSet::Prefix => b != 0x0D && b != 0x0A && !is_letter_class(class) && !(class is Number),
        CharSet::Symbol => class is Mark || class is Other,
        CharSet::Han => is_han,
        CharSet::Upperish => !is_han && (class is Upper || class is Caseless || class is Mark),
        CharSet::Lowerish => !is_han && (class is Lower || class is Caseless || class is Mark),
    }
}

/// The offset after the character at `p`.
pub open spec fn next(bytes: Seq<u8>, p: int) -> int {
    p + char_len(bytes, p)
}

/// A split pattern.
pub enum Rx {
    /// Matches the empty text.
    Empty,
    /// One character of the set.
    Chars(CharSet),
    /// One after the other.
    Cat(Box<Rx>, Box<Rx>),
    /// `a|b`: the first that leads to a match.
    Alt(Box<Rx>, Box<Rx>),
    /// `a?`, with preference for `a`.
    Opt(Box<Rx>),
    /// `[set]*`, with preference for more characters.
    Star(CharSet),
    /// `(?![set])`
    NotAhead(CharSet),
}

/// `[set]*` followed by `k`: the longest repetition after which `k` succeeds.
pub open spec fn star(
    set: CharSet,
    han: bool,
    bytes: Seq<u8>,
    p: int,
    k: spec_fn(int) -> Option<int>,
) -> Option<int>
    decreases bytes.len() - p,
{
    if in_set(set, han, bytes, p) {
        match star(set, han, bytes, next(bytes, p), k) {
            Some(end) => Some(end),
            None => k(p),
        }
    } else {
        k(p)
    }
}

/// Matches `rx` at `p` and goes on with `k`, which says where the whole match
/// ends if it succeeds from there: the search of a backtracking matcher.
pub open spec fn run(
    rx: Rx,
    han: bool,
    bytes: Seq<u8>,
    p: int,
    k: spec_fn(int) -> Option<int>,
) -> Option<int>
    decreases rx, 0int,
{
    match rx {
        Rx::Empty => k(p),
        Rx::Chars(set) => if in_set(set, han, bytes, p) {
            k(next(bytes, p))
        } else {
            None
        },
        Rx::Cat(a, b) => run(*a, han, bytes, p, after(*b, han, bytes, k)),
        Rx::Alt(a, b) => match run(*a, han, bytes, p, k) {
            Some(end) => Some(end),
            None => run(*b, han, bytes, p, k),
        },
        Rx::Opt(a) => match run(*a, han, bytes, p, k) {
            Some(end) => Some(end),
            None => k(p),
        },
        Rx::Star(set) => star(set, han, bytes, p, k),
        Rx::NotAhead(set) => if in_set(set, han, bytes, p) {
            None
        } else {
            k(p)
        },
    }
}

/// What goes on after an offset if `rx` comes next, and then `k`.
pub open spec fn after(
    rx: Rx,
    han: bool,
    bytes: Seq<u8>,
    k: spec_fn(int) -> Option<int>,
) -> spec_fn(int) -> Option<int>
    decreases rx, 1int,
{
    |q: int| run(rx, han, bytes, q, k)
}

/// What goes on after the last part of a pattern: the match ends here.
pub open spec fn done() -> spec_fn(int) -> Option<int> {
    |q: int| Some(q)
}

/// The end of the match of `rx` that starts at `p`.
pub open spec fn match_at(rx: Rx, han: bool, bytes: Seq<u8>, p: int) -> Option<int> {
    run(rx, han, bytes, p, done())
}

/// `ab`
pub open spec fn cat(a: Rx, b: Rx) -> Rx {
    Rx::Cat(Box::new(a), Box::new(b))
}

/// `a|b`
pub open spec fn alt(a: Rx, b: Rx) -> Rx {
    Rx::Alt(Box::new(a), Box::new(b))
}

/// `a?`
pub open spec fn opt(a: Rx) -> Rx {
    Rx::Opt(Box::new(a))
}

/// `[set]+`
pub open spec fn plus(set: CharSet) -> Rx {
    cat(Rx::Chars(set), Rx::Star(set))
}

/// `[set]{0,n}`
pub open spec fn upto(set: CharSet, n: nat) -> Rx
    decreases n,
{
    if n == 0 {
        Rx::Empty
    } else {
        opt(cat(Rx::Chars(set), upto(set, (n - 1) as nat)))
    }
}

/// `'x` under `(?i)`
pub open spec fn short_contraction(c: u8) -> Rx {
    cat(Rx::Chars(CharSet::Apostrophe), Rx::Chars(CharSet::Folded(c)))
}

/// `'xy` under `(?i)`
pub open spec fn long_contraction(c: u8, d: u8) -> Rx {
    cat(
        Rx::Chars(CharSet::Apostrophe),
        cat(Rx::Chars(CharSet::Folded(c)), Rx::Chars(CharSet::Folded(d))),
    )
}

/// `(?i:'s|'t|'re|'ve|'m|'ll|'d)`
pub open spec fn contraction() -> Rx {
    alt(
        short_contraction(0x73),
        alt(
            short_contraction(0x74),
            alt(
                long_contraction(0x72, 0x65),
                alt(
                    long_contraction(0x76, 0x65),
                    alt(
                        short_contraction(0x6D),
                        alt(long_contraction(0x6C, 0x6C), short_contraction(0x64)),
                    ),
                ),
            ),
        ),
    )
}

/// `[^\r\n\p{L}\p{N}]?\p{L}+`
pub open spec fn letters() -> Rx {
    cat(opt(Rx::Chars(CharSet::Prefix)), plus(CharSet::Letter))
}

/// `\p{N}{1,max}`
pub open spec fn numbers(max: nat) -> Rx {
    cat(Rx::Chars(CharSet::Number), upto(CharSet::Number, (max - 1) as nat))
}

/// ` ?[^\s\p{L}\p{N}]+[tail]*`
pub open spec fn symbols(tail: CharSet) -> Rx {
    cat(opt(Rx::Chars(CharSet::Space)), cat(plus(CharSet::Symbol), Rx::Star(tail)))
}

/// `\s*[\r\n]+|\s+(?!\S)|\s+`
pub open spec fn whitespace() -> Rx {
    alt(
        cat(Rx::Star(CharSet::White), plus(CharSet::Newline)),
        alt(
            cat(plus(CharSet::White), Rx::NotAhead(CharSet::NonWhite)),
            plus(CharSet::White),
        ),
    )
}

/// The Qwen2 patterns: number runs of up to `max_digits` characters.
pub open spec fn qwen2_regex(max_digits: nat) -> Rx {
    alt(
        contraction(),
        alt(
            letters(),
            alt(numbers(max_digits), alt(symbols(CharSet::Newline), whitespace())),
        ),
    )
}

/// The contraction that may follow a letter run.
pub open spec fn suffix(contractions: bool) -> Rx {
    if contractions {
        opt(contraction())
    } else {
        Rx::Empty
    }
}

/// `[^\r\n\p{L}\p{N}]?[\p{Lu}\p{Lt}\p{Lm}\p{Lo}\p{M}]*[\p{Ll}\p{Lm}\p{Lo}\p{M}]+SUF?`
pub open spec fn lower_run(contractions: bool) -> Rx {
    cat(
        opt(Rx::Chars(CharSet::Prefix)),
        cat(Rx::Star(CharSet::Upperish), cat(plus(CharSet::Lowerish), suffix(contractions))),
    )
}

/// `[^\r\n\p{L}\p{N}]?[\p{Lu}\p{Lt}\p{Lm}\p{Lo}\p{M}]+[\p{Ll}\p{Lm}\p{Lo}\p{M}]*SUF?`
pub open spec fn upper_run(contractions: bool) -> Rx {
    cat(
        opt(Rx::Chars(CharSet::Prefix)),
        cat(plus(CharSet::Upperish), cat(Rx::Star(CharSet::Lowerish), suffix(contractions))),
    )
}

/// The o200k patterns that have no Han runs.
pub open spec fn case_regex(contractions: bool, max_digits: nat, slash: bool) -> Rx {
    alt(
        lower_run(contractions),
        alt(
            upper_run(contractions),
            alt(
                numbers(max_digits),
                alt(
                    symbols(
                        if slash {
                            CharSet::NewlineOrSlash
                        } else {
                            CharSet::Newline
                        },
                    ),
                    whitespace(),
                ),
            ),
        ),
    )
}

/// The patterns of the o200k family. `contractions`: letter runs take a
/// contraction along. `digits3`: number runs of up to three characters, not
/// one. `slash`: symbol runs take `/` along with line ends. `han`: Han runs
/// come first, and no letter run has Han characters.
pub open spec fn family_regex(contractions: bool, digits3: bool, slash: bool, han: bool) -> Rx {
    let max_digits: nat = if digits3 {
        3
    } else {
        1
    };
    if han {
        alt(plus(CharSet::Han), case_regex(contractions, max_digits, slash))
    } else {
        case_regex(contractions, max_digits, slash)
    }
}

/// As the Unicode data has it: what is `White_Space` is no letter, mark, number or
/// Han character.
pub open spec fn is_tidy(cp: u32) -> bool {
    white_space(cp) ==> !(1 <= general_category(cp) <= 11) && !is_han_cp(cp)
}

/// Whether a code point beyond ASCII has the property that the set is written by.
pub open spec fn has_property(set: CharSet, han: bool, cp: u32) -> bool {
    let category = general_category(cp);
    let letter = CategoryGroup::Letter.holds(category);
    let mark = CategoryGroup::Mark.holds(category);
    let number = CategoryGroup::Number.holds(category);
    let apart = han && is_han_cp(cp);
    match set {
        CharSet::Newline | CharSet::NewlineOrSlash | CharSet::Space | CharSet::Apostrophe => false,
        CharSet::Folded(c) => c == 0x73 && cp == 0x17F,
        CharSet::Letter => letter,
        CharSet::Number => number,
        CharSet::White => white_space(cp),
        CharSet::NonWhite => !white_space(cp),
        CharSet::Prefix => !letter && !number,
        CharSet::Symbol => !white_space(cp) && !letter && !number,
        CharSet::Han => apart,
        CharSet::Upperish => !apart && (mark || letter && category
            != LetterCategory::Lowercase.number()),
        CharSet::Lowerish => !apart && (mark || letter && category
            != LetterCategory::Uppercase.number() && category
            != LetterCategory::Titlecase.number()),
    }
}

/// Beyond ASCII, a character belongs to a set exactly if its code point has the
/// property that the set is written by. (The letters of contractions are
/// compared by their bytes.)
pub proof fn law_sets_are_properties(set: CharSet, han: bool, bytes: Seq<u8>, p: int)
    requires
        0 <= p < bytes.len(),
        bytes[p] >= 0x80,
        is_tidy(char_cp(bytes, p)),
        !(set is Folded),
    ensures
        in_set(set, han, bytes, p) == has_property(set, han, char_cp(bytes, p)),
{
}

} // verus!
