//! Hand-specialized scanner for the o200k pattern family: o200k_base (GPT-4o,
//! gpt-oss), the Nemotron-3 variant, and the Kimi (moonshotai K2) variant.
//! o200k and Kimi are wired into dispatch (see
//! [`super::scheme::FastSplitScheme::from_pattern`]); Nemotron-3 is
//! `advance_pos::<false, false, true, false>`.
//!
//! The patterns share the shape
//!
//! ```text
//! HAN-RUN?|
//!  [^\r\n\p{L}\p{N}]?[\p{Lu}\p{Lt}\p{Lm}\p{Lo}\p{M}]*[\p{Ll}\p{Lm}\p{Lo}\p{M}]+SUF?|
//!  [^\r\n\p{L}\p{N}]?[\p{Lu}\p{Lt}\p{Lm}\p{Lo}\p{M}]+[\p{Ll}\p{Lm}\p{Lo}\p{M}]*SUF?|
//!  \p{N}{1,3} or \p{N}| ?[^\s\p{L}\p{N}]+TAIL|\s*[\r\n]+|\s+(?!\S)|\s+
//! ```

use vstd::prelude::*;

use super::case_runs::{
    case_end, in_brackets, last_turn, lemma_case_token, lemma_no_case_token, lemma_rest, suffix_end,
};
use super::decode::{decode_cp, lemma_char_bounds};
use super::fast_split::{
    contraction_at, lemma_white_single, lemma_white_start, lemma_white_step, lemma_white_stop,
    scan_numbers_max, white_progress, APOSTROPHE, CR, LF, SLASH_BYTE, SPACE,
};
use super::regex::{
    alt, case_regex, class_at, family_regex, in_set, match_at, next, numbers, plus, symbols,
    whitespace, CharSet,
};
use super::runs::{
    chain, lemma_alt, lemma_chain_bounds, lemma_chain_order, lemma_chain_push, lemma_plus_run,
    lemma_scan, lemma_whitespace, scan, scan_upto, white_end,
};
use super::swar::{ascii_letter, is_ascii_ws, is_digit, is_letter, is_upper_ascii};
use super::tables::ClassTables;
use super::unicode::O200kCharClass;

verus! {

/// The characters that a symbol run takes along.
pub open spec fn tail_set(slash: bool) -> CharSet {
    if slash {
        CharSet::NewlineOrSlash
    } else {
        CharSet::Newline
    }
}

/// Whether the byte belongs to the tail of a symbol run.
pub fn is_tail_byte<const SLASH: bool>(b: u8) -> (r: bool)
    ensures
        r == (b == CR || b == LF || (SLASH && b == SLASH_BYTE)),
{
    b == CR || b == LF || (SLASH && b == SLASH_BYTE)
}

/// Scan state of a case-structured letter run under leftmost-greedy
/// backtracking. `U`: still inside the upper case bracket's run; `last_cl_end`
/// is the end offset of the last caseless or mark character (0 if there is
/// none), where the token ends if the run ends on a strict-upper tail. `L`:
/// inside the lower case bracket's run, where a strict-upper character ends the
/// token.
#[derive(Clone, Copy)]
pub enum CaseState {
    /// Inside the upper case bracket's run.
    U {
        /// The end of the last caseless or mark character, or 0.
        last_cl_end: usize,
    },
    /// Inside the lower case bracket's run.
    L,
}

/// What the scan state says of the letters from `s` to `p`.
pub open spec fn case_progress(
    han: bool,
    bytes: Seq<u8>,
    s: int,
    p: int,
    st: CaseState,
) -> bool {
    &&& 0 <= s < p <= bytes.len()
    &&& match st {
        CaseState::U { last_cl_end } => {
            &&& chain(CharSet::Upperish, han, bytes, s, p)
            &&& in_set(CharSet::Upperish, han, bytes, s)
            &&& if last_cl_end == 0 {
                forall|r: int|
                    r < p && #[trigger] chain(CharSet::Upperish, han, bytes, s, r) ==> !in_set(
                        CharSet::Lowerish,
                        han,
                        bytes,
                        r,
                    )
            } else {
                exists|q: int| #[trigger] turn_before(han, bytes, s, p, q) && next(bytes, q)
                    == last_cl_end
            }
        },
        CaseState::L => exists|e: int| #[trigger]
            last_turn(han, bytes, s, e) && e < p && chain(CharSet::Lowerish, han, bytes, e, p),
    }
}

/// `q` is the last place before `p` along the upper case bracket's run from `s`
/// where the lower case bracket can take over.
pub open spec fn turn_before(han: bool, bytes: Seq<u8>, s: int, p: int, q: int) -> bool {
    &&& q < p
    &&& chain(CharSet::Upperish, han, bytes, s, q)
    &&& in_set(CharSet::Upperish, han, bytes, q)
    &&& in_set(CharSet::Lowerish, han, bytes, q)
    &&& forall|r: int|
        q < r < p && #[trigger] chain(CharSet::Upperish, han, bytes, s, r) ==> !in_set(
            CharSet::Lowerish,
            han,
            bytes,
            r,
        )
}

/// The state after the character at `p`, which belongs to one of the brackets.
pub open spec fn step(han: bool, bytes: Seq<u8>, p: int, st: CaseState) -> CaseState {
    let (class, is_han) = class_at(han, bytes, p);
    if class is Lower {
        CaseState::L
    } else if class is Caseless || class is Mark {
        match st {
            CaseState::U { .. } => CaseState::U { last_cl_end: next(bytes, p) as usize },
            CaseState::L => CaseState::L,
        }
    } else {
        st
    }
}

/// The state after a run's first character.
pub open spec fn first_state(han: bool, bytes: Seq<u8>, s: int) -> CaseState {
    step(han, bytes, s, CaseState::U { last_cl_end: 0 })
}

proof fn lemma_case_first(han: bool, bytes: Seq<u8>, s: int)
    requires
        in_brackets(han, bytes, s),
        bytes.len() <= usize::MAX,
    ensures
        case_progress(han, bytes, s, next(bytes, s), first_state(han, bytes, s)),
{
    let upper = CharSet::Upperish;
    lemma_char_bounds(bytes, s);
    if class_at(han, bytes, s).0 is Lower {
        assert(last_turn(han, bytes, s, s));
        assert(chain(CharSet::Lowerish, han, bytes, next(bytes, s), next(bytes, s)));
    } else {
        lemma_chain_push(upper, han, bytes, s, s);
        assert forall|r: int| r < next(bytes, s) && #[trigger] chain(
            upper,
            han,
            bytes,
            s,
            r,
        ) implies r == s by {
            lemma_chain_bounds(upper, han, bytes, s, r);
            if r != s {
                lemma_chain_bounds(upper, han, bytes, next(bytes, s), r);
            }
        }
        if !(class_at(han, bytes, s).0 is Upper) {
            assert(turn_before(han, bytes, s, next(bytes, s), s));
        }
    }
}

/// One more letter keeps [`case_progress`]: any but, past the turn to the lower
/// case bracket, a strict-upper one.
proof fn lemma_case_step(han: bool, bytes: Seq<u8>, s: int, p: int, st: CaseState)
    requires
        case_progress(han, bytes, s, p, st),
        in_brackets(han, bytes, p),
        st is L ==> in_set(CharSet::Lowerish, han, bytes, p),
        bytes.len() <= usize::MAX,
    ensures
        case_progress(han, bytes, s, next(bytes, p), step(han, bytes, p, st)),
{
    let upper = CharSet::Upperish;
    let n = next(bytes, p);
    lemma_char_bounds(bytes, p);
    match st {
        CaseState::L => {
            let e = choose|e: int| #[trigger]
                last_turn(han, bytes, s, e) && e < p && chain(CharSet::Lowerish, han, bytes, e, p);
            lemma_chain_bounds(upper, han, bytes, s, e);
            lemma_chain_push(CharSet::Lowerish, han, bytes, e, p);
        },
        CaseState::U { last_cl_end } => {
            assert forall|r: int| r < n && #[trigger] chain(
                upper,
                han,
                bytes,
                s,
                r,
            ) implies r <= p by {
                if r > p {
                    lemma_chain_order(upper, han, bytes, s, p, r);
                    lemma_chain_bounds(upper, han, bytes, n, r);
                }
            }
            if class_at(han, bytes, p).0 is Lower {
                assert forall|r: int| p < r && #[trigger] chain(
                    upper,
                    han,
                    bytes,
                    s,
                    r,
                ) implies false by {
                    lemma_chain_order(upper, han, bytes, s, p, r);
                }
                assert(last_turn(han, bytes, s, p));
                assert(chain(CharSet::Lowerish, han, bytes, n, n));
            } else {
                lemma_chain_push(upper, han, bytes, s, p);
                if class_at(han, bytes, p).0 is Upper {
                    if last_cl_end != 0 {
                        let q = choose|q: int| #[trigger]
                            turn_before(han, bytes, s, p, q) && next(bytes, q) == last_cl_end;
                        assert(turn_before(han, bytes, s, n, q));
                    }
                } else {
                    assert(turn_before(han, bytes, s, n, p));
                }
            }
        },
    }
}

/// Where no letter can follow, [`case_progress`] says where the letters end.
proof fn lemma_case_stop(han: bool, bytes: Seq<u8>, s: int, p: int, st: CaseState)
    requires
        case_progress(han, bytes, s, p, st),
        !in_set(CharSet::Lowerish, han, bytes, p),
        st is U ==> !in_set(CharSet::Upperish, han, bytes, p),
    ensures
        match st {
            CaseState::U { last_cl_end } => if last_cl_end != 0 {
                case_end(han, bytes, s, last_cl_end as int) && last_cl_end <= p && s < last_cl_end
            } else {
                case_end(han, bytes, s, p)
            },
            CaseState::L => case_end(han, bytes, s, p),
        },
{
    let upper = CharSet::Upperish;
    let lower = CharSet::Lowerish;
    match st {
        CaseState::L => {
            let e = choose|e: int| #[trigger]
                last_turn(han, bytes, s, e) && e < p && chain(lower, han, bytes, e, p);
            lemma_chain_bounds(upper, han, bytes, s, e);
            lemma_chain_bounds(lower, han, bytes, e, p);
        },
        CaseState::U { last_cl_end } => {
            lemma_chain_bounds(upper, han, bytes, s, p);
            assert forall|r: int| #[trigger] chain(upper, han, bytes, s, r) implies r <= p by {
                lemma_chain_bounds(upper, han, bytes, s, r);
                lemma_scan(upper, han, bytes, r);
            }
            if last_cl_end != 0 {
                let q = choose|q: int| #[trigger]
                    turn_before(han, bytes, s, p, q) && next(bytes, q) == last_cl_end;
                let n = next(bytes, q);
                lemma_chain_bounds(upper, han, bytes, s, q);
                lemma_char_bounds(bytes, q);
                lemma_chain_push(upper, han, bytes, s, q);
                assert(scan(lower, han, bytes, n) == n);
                assert(last_turn(han, bytes, s, q) && n == scan(lower, han, bytes, q));
            }
        },
    }
}

/// The state after an ASCII letter that starts a run.
pub fn ascii_letter_state(b: u8) -> (st: CaseState)
    requires
        ascii_letter(b),
    ensures
        st == if super::regex::ascii_upper(b) {
            CaseState::U { last_cl_end: 0 }
        } else {
            CaseState::L
        },
{
    if is_upper_ascii(b) {
        CaseState::U { last_cl_end: 0 }
    } else {
        CaseState::L
    }
}

/// If the character at `pos` is a letter-run member (`\p{L}` or `\p{M}`, minus
/// Han where it is told apart), the offset past it and the scan state there.
pub fn letter_run_first<const HAN: bool>(
    tables: &ClassTables,
    bytes: &[u8],
    pos: usize,
) -> (first: Option<(usize, CaseState)>)
    requires
        pos <= bytes.len(),
    ensures
        match first {
            Some((e, st)) => {
                &&& in_brackets(HAN, bytes@, pos as int)
                &&& e == next(bytes@, pos as int)
                &&& st == first_state(HAN, bytes@, pos as int)
                &&& case_progress(HAN, bytes@, pos as int, e as int, st)
            },
            None => !in_brackets(HAN, bytes@, pos as int),
        },
{
    if pos >= bytes.len() {
        return None;
    }
    proof {
        if in_brackets(HAN, bytes@, pos as int) {
            lemma_case_first(HAN, bytes@, pos as int);
        }
    }
    let b: u8 = bytes[pos];
    if is_letter(b) {
        return Some((pos + 1, ascii_letter_state(b)));
    }
    if b >= 0x80 {
        let (cp, l): (u32, usize) = decode_cp(bytes, pos);
        let (class, is_han) = tables.family_class_of::<HAN>(cp);
        if !is_han {
            match class {
                O200kCharClass::Upper => {
                    return Some((pos + l, CaseState::U { last_cl_end: 0 }));
                },
                O200kCharClass::Lower => {
                    return Some((pos + l, CaseState::L));
                },
                O200kCharClass::Caseless | O200kCharClass::Mark => {
                    return Some((pos + l, CaseState::U { last_cl_end: pos + l }));
                },
                _ => {},
            }
        }
    }
    None
}

/// Letter-run continuation with the casing phase automaton. In phase U a
/// strict-upper continues and a strict-lower switches to phase L; in phase L a
/// strict-upper ends the token. A run ending while still in phase U backtracks
/// to the last caseless or mark character, splitting off the trailing
/// strict-upper run ("AxxB" gives `Axx|B` for caseless x, "HTTPResponse" one
/// token).
pub fn scan_case_run<const HAN: bool>(
    tables: &ClassTables,
    bytes: &[u8],
    pos: usize,
    state: CaseState,
) -> (end: usize)
    requires
        exists|s: int| #[trigger] case_progress(HAN, bytes@, s, pos as int, state),
    ensures
        end <= bytes.len(),
        forall|s: int| #[trigger]
            case_progress(HAN, bytes@, s, pos as int, state) ==> case_end(
                HAN,
                bytes@,
                s,
                end as int,
            ) && s < end,
{
    let len: usize = bytes.len();
    let ghost s0 = choose|s: int| #[trigger] case_progress(HAN, bytes@, s, pos as int, state);
    let mut p: usize = pos;
    let mut st: CaseState = state;
    while p < len
        invariant
            len == bytes.len(),
            p <= len,
            case_progress(HAN, bytes@, s0, pos as int, state),
            forall|s: int| #[trigger]
                case_progress(HAN, bytes@, s, pos as int, state) ==> case_progress(
                    HAN,
                    bytes@,
                    s,
                    p as int,
                    st,
                ),
        ensures
            p <= len,
            forall|s: int| #[trigger]
                case_progress(HAN, bytes@, s, pos as int, state) ==> case_progress(
                    HAN,
                    bytes@,
                    s,
                    p as int,
                    st,
                ),
            !in_set(CharSet::Lowerish, HAN, bytes@, p as int),
            st is U ==> !in_set(CharSet::Upperish, HAN, bytes@, p as int),
        decreases len - p,
    {
        proof {
            if in_brackets(HAN, bytes@, p as int) && (st is L ==> in_set(
                CharSet::Lowerish,
                HAN,
                bytes@,
                p as int,
            )) {
                assert forall|s: int| #[trigger]
                    case_progress(HAN, bytes@, s, pos as int, state) implies case_progress(
                    HAN,
                    bytes@,
                    s,
                    next(bytes@, p as int),
                    step(HAN, bytes@, p as int, st),
                ) by {
                    lemma_case_step(HAN, bytes@, s, p as int, st);
                }
            }
        }
        let b: u8 = bytes[p];
        if is_upper_ascii(b) {
            if matches!(st, CaseState::L) {
                break;
            }
            p += 1;
        } else if is_letter(b) {
            st = CaseState::L;
            p += 1;
        } else if b >= 0x80 {
            let (cp, l): (u32, usize) = decode_cp(bytes, p);
            let (class, is_han) = tables.family_class_of::<HAN>(cp);
            if is_han {
                break;
            }
            match class {
                O200kCharClass::Upper => {
                    if matches!(st, CaseState::L) {
                        break;
                    }
                    p += l;
                },
                O200kCharClass::Lower => {
                    st = CaseState::L;
                    p += l;
                },
                O200kCharClass::Caseless | O200kCharClass::Mark => {
                    p += l;
                    if let CaseState::U { .. } = st {
                        st = CaseState::U { last_cl_end: p };
                    }
                },
                _ => {
                    break;
                },
            }
        } else {
            break;
        }
    }
    proof {
        assert forall|s: int| #[trigger]
            case_progress(HAN, bytes@, s, pos as int, state) implies case_progress(
            HAN,
            bytes@,
            s,
            p as int,
            st,
        ) && match st {
            CaseState::U { last_cl_end } => if last_cl_end != 0 {
                case_end(HAN, bytes@, s, last_cl_end as int) && last_cl_end <= p && s
                    < last_cl_end
            } else {
                case_end(HAN, bytes@, s, p as int)
            },
            CaseState::L => case_end(HAN, bytes@, s, p as int),
        } by {
            lemma_case_stop(HAN, bytes@, s, p as int, st);
        }
    }
    match st {
        CaseState::U { last_cl_end } => if last_cl_end != 0 {
            last_cl_end
        } else {
            p
        },
        CaseState::L => p,
    }
}

/// Attach a `(?i:'s|'t|'re|'ve|'m|'ll|'d)?` suffix to a letter token ending at
/// `end`, when the scheme has contractions.
pub fn try_suffix<const CONTRACTIONS: bool>(bytes: &[u8], end: usize) -> (e: usize)
    requires
        end <= bytes.len(),
    ensures
        e == suffix_end(CONTRACTIONS, bytes@, end as int),
        end <= e <= bytes.len(),
{
    if !CONTRACTIONS || end >= bytes.len() || bytes[end] != APOSTROPHE {
        return end;
    }
    match contraction_at(bytes, end) {
        Some(e) => e,
        None => end,
    }
}

/// `[^\s\p{L}\p{N}]+` continuation (punctuation, symbols, marks, controls).
pub fn scan_punct_from<const HAN: bool>(
    tables: &ClassTables,
    bytes: &[u8],
    pos: usize,
) -> (end: usize)
    requires
        pos <= bytes.len(),
    ensures
        end == scan(CharSet::Symbol, HAN, bytes@, pos as int),
        pos <= end <= bytes.len(),
{
    let len: usize = bytes.len();
    let mut p: usize = pos;
    while p < len
        invariant
            pos <= p <= len,
            len == bytes.len(),
            scan(CharSet::Symbol, HAN, bytes@, pos as int) == scan(
                CharSet::Symbol,
                HAN,
                bytes@,
                p as int,
            ),
        decreases len - p,
    {
        let b: u8 = bytes[p];
        if b >= 0x80 {
            let (cp, l): (u32, usize) = decode_cp(bytes, p);
            if !matches!(
                tables.family_class_of::<HAN>(cp).0,
                O200kCharClass::Other | O200kCharClass::Mark
            ) {
                return p;
            }
            p += l;
        } else {
            if is_letter(b) || is_digit(b) || is_ascii_ws(b) {
                return p;
            }
            p += 1;
        }
    }
    p
}

/// The `[\r\n/]*` or `[\r\n]*` tail absorbed after a symbol run. The sets do
/// not depend on Han.
pub fn scan_tail<const SLASH: bool>(bytes: &[u8], pos: usize) -> (end: usize)
    requires
        pos <= bytes.len(),
    ensures
        forall|han: bool| end == #[trigger] scan(tail_set(SLASH), han, bytes@, pos as int),
        pos <= end <= bytes.len(),
{
    let mut p: usize = pos;
    while p < bytes.len() && is_tail_byte::<SLASH>(bytes[p])
        invariant
            pos <= p <= bytes.len(),
            forall|han: bool| #[trigger]
                scan(tail_set(SLASH), han, bytes@, pos as int) == scan(
                    tail_set(SLASH),
                    han,
                    bytes@,
                    p as int,
                ),
        decreases bytes.len() - p,
    {
        p += 1;
    }
    p
}

/// `[\p{Han}]+` from `pos` (characters of any Han class).
pub fn scan_han_run(tables: &ClassTables, bytes: &[u8], pos: usize) -> (end: usize)
    requires
        pos <= bytes.len(),
    ensures
        end == scan(CharSet::Han, true, bytes@, pos as int),
        pos <= end <= bytes.len(),
{
    let mut p: usize = pos;
    while p < bytes.len()
        invariant
            pos <= p <= bytes.len(),
            scan(CharSet::Han, true, bytes@, pos as int) == scan(
                CharSet::Han,
                true,
                bytes@,
                p as int,
            ),
        decreases bytes.len() - p,
    {
        let b: u8 = bytes[p];
        if b < 0x80 {
            return p;
        }
        let (cp, l): (u32, usize) = decode_cp(bytes, p);
        if !tables.kimi_class_of(cp).is_han() {
            return p;
        }
        p += l;
    }
    p
}

/// Whitespace-led token: `\s*[\r\n]+`, `\s+(?!\S)` and `\s+`, in that priority.
pub fn ws_token_end<const HAN: bool>(
    tables: &ClassTables,
    bytes: &[u8],
    start: usize,
) -> (end: usize)
    requires
        start < bytes.len(),
        in_set(CharSet::White, HAN, bytes@, start as int),
    ensures
        white_end(HAN, bytes@, start as int, end as int),
        match_at(whitespace(), HAN, bytes@, start as int) == Some(end as int),
        start < end <= bytes.len(),
{
    let len: usize = bytes.len();
    let mut p: usize = start;
    let mut last_nl_end: usize = 0;
    let mut last_char_start: usize = start;
    proof {
        lemma_white_start(HAN, bytes@, start as int);
    }
    while p < len
        invariant
            white_progress(
                HAN,
                bytes@,
                start as int,
                p as int,
                last_nl_end as int,
                last_char_start as int,
            ),
            len == bytes.len(),
        ensures
            white_progress(
                HAN,
                bytes@,
                start as int,
                p as int,
                last_nl_end as int,
                last_char_start as int,
            ),
            !in_set(CharSet::White, HAN, bytes@, p as int),
        decreases len - p,
    {
        proof {
            if in_set(CharSet::White, HAN, bytes@, p as int) {
                lemma_white_step(
                    HAN,
                    bytes@,
                    start as int,
                    p as int,
                    last_nl_end as int,
                    last_char_start as int,
                );
            }
        }
        let b: u8 = bytes[p];
        if b == CR || b == LF {
            last_char_start = p;
            p += 1;
            last_nl_end = p;
        } else if is_ascii_ws(b) {
            last_char_start = p;
            p += 1;
        } else if b >= 0x80 {
            let (cp, l): (u32, usize) = decode_cp(bytes, p);
            if tables.family_class_of::<HAN>(cp).0 == O200kCharClass::Whitespace {
                last_char_start = p;
                p += l;
            } else {
                break;
            }
        } else {
            break;
        }
    }
    let end: usize = if last_nl_end != 0 {
        last_nl_end
    } else if p >= len {
        p
    } else if last_char_start > start {
        last_char_start
    } else {
        p
    };
    proof {
        lemma_white_stop(
            HAN,
            bytes@,
            start as int,
            p as int,
            last_nl_end as int,
            last_char_start as int,
        );
        lemma_whitespace(HAN, bytes@, start as int, end as int);
    }
    end
}

/// `\p{N}` does not depend on whether Han is told apart.
proof fn lemma_number_run(bytes: Seq<u8>, p: int, n: nat)
    ensures
        in_set(CharSet::Number, true, bytes, p) == in_set(CharSet::Number, false, bytes, p),
        scan_upto(CharSet::Number, true, bytes, p, n) == scan_upto(
            CharSet::Number,
            false,
            bytes,
            p,
            n,
        ),
    decreases n,
{
    if n > 0 {
        lemma_number_run(bytes, next(bytes, p), (n - 1) as nat);
    }
}

/// How many more characters a number run may take after its first.
pub open spec fn more_digits(digits3: bool) -> nat {
    if digits3 {
        2
    } else {
        0
    }
}

/// `\p{N}{1,3}` or `\p{N}` starting at a digit character ending at `first_end`.
pub fn digit_token_end<const DIGITS3: bool>(
    tables: &ClassTables,
    bytes: &[u8],
    first_end: usize,
) -> (end: usize)
    requires
        first_end <= bytes.len(),
    ensures
        forall|han: bool|
            end == #[trigger] scan_upto(
                CharSet::Number,
                han,
                bytes@,
                first_end as int,
                more_digits(DIGITS3),
            ),
        first_end <= end <= bytes.len(),
{
    let end: usize = if DIGITS3 {
        scan_numbers_max::<3>(tables, bytes, first_end, 1)
    } else {
        first_end
    };
    proof {
        lemma_number_run(
            bytes@,
            first_end as int,
            more_digits(DIGITS3),
        );
    }
    end
}

/// The part of the pattern after the Han run.
proof fn lemma_past_han(
    contractions: bool,
    digits3: bool,
    slash: bool,
    han: bool,
    bytes: Seq<u8>,
    p: int,
)
    requires
        0 <= p < bytes.len(),
    ensures
        match_at(family_regex(contractions, digits3, slash, han), han, bytes, p) == if han
            && in_set(CharSet::Han, han, bytes, p) {
            Some(scan(CharSet::Han, han, bytes, p))
        } else {
            match_at(
                case_regex(contractions, (1 + more_digits(digits3)) as nat, slash),
                han,
                bytes,
                p,
            )
        },
{
    if han {
        let rest = case_regex(contractions, (1 + more_digits(digits3)) as nat, slash);
        lemma_alt(plus(CharSet::Han), rest, han, bytes, p);
        lemma_plus_run(CharSet::Han, han, bytes, p);
    }
}

/// A letter token: see [`lemma_case_token`].
proof fn lemma_family_letters(
    contractions: bool,
    digits3: bool,
    slash: bool,
    han: bool,
    bytes: Seq<u8>,
    p: int,
    s: int,
    end: int,
)
    requires
        0 <= p < bytes.len(),
        !in_set(CharSet::Han, han, bytes, p),
        if s == p {
            in_brackets(han, bytes, p)
        } else {
            &&& s == next(bytes, p)
            &&& in_set(CharSet::Prefix, han, bytes, p)
            &&& !in_brackets(han, bytes, p)
        },
        case_end(han, bytes, s, end),
    ensures
        match_at(family_regex(contractions, digits3, slash, han), han, bytes, p) == Some(
            suffix_end(contractions, bytes, end),
        ),
{
    lemma_past_han(contractions, digits3, slash, han, bytes, p);
    let max = (1 + more_digits(digits3)) as nat;
    let rest = alt(numbers(max), alt(symbols(tail_set(slash)), whitespace()));
    lemma_case_token(contractions, rest, han, bytes, p, s, end);
}

/// A token without letters: number, symbols or whitespace.
proof fn lemma_family_rest(
    contractions: bool,
    digits3: bool,
    slash: bool,
    han: bool,
    bytes: Seq<u8>,
    p: int,
)
    requires
        0 <= p < bytes.len(),
        !in_set(CharSet::Han, han, bytes, p),
        !in_brackets(han, bytes, p),
        in_set(CharSet::Prefix, han, bytes, p) ==> !in_brackets(han, bytes, next(bytes, p)),
    ensures
        match_at(family_regex(contractions, digits3, slash, han), han, bytes, p) == if in_set(
            CharSet::Number,
            han,
            bytes,
            p,
        ) {
            Some(
                scan_upto(
                    CharSet::Number,
                    han,
                    bytes,
                    next(bytes, p),
                    more_digits(digits3),
                ),
            )
        } else if in_set(CharSet::Symbol, han, bytes, p) {
            Some(
                scan(
                    tail_set(slash),
                    han,
                    bytes,
                    scan(CharSet::Symbol, han, bytes, next(bytes, p)),
                ),
            )
        } else if in_set(CharSet::Space, han, bytes, p) && in_set(
            CharSet::Symbol,
            han,
            bytes,
            next(bytes, p),
        ) {
            Some(
                scan(
                    tail_set(slash),
                    han,
                    bytes,
                    scan(CharSet::Symbol, han, bytes, next(bytes, p)),
                ),
            )
        } else {
            match_at(whitespace(), han, bytes, p)
        },
{
    lemma_past_han(contractions, digits3, slash, han, bytes, p);
    let max = (1 + more_digits(digits3)) as nat;
    let rest = alt(numbers(max), alt(symbols(tail_set(slash)), whitespace()));
    lemma_no_case_token(contractions, rest, han, bytes, p);
    lemma_rest(tail_set(slash), han, bytes, p, max);
}

/// Advance past one token starting at `pos`.
pub fn advance_pos<
    const CONTRACTIONS: bool,
    const DIGITS3: bool,
    const SLASH: bool,
    const HAN: bool,
>(tables: &ClassTables, bytes: &[u8], pos: usize) -> (end: usize)
    requires
        pos < bytes.len(),
    ensures
        match_at(family_regex(CONTRACTIONS, DIGITS3, SLASH, HAN), HAN, bytes@, pos as int) == Some(
            end as int,
        ),
        pos < end <= bytes.len(),
{
    let b0: u8 = bytes[pos];
    let ghost p = pos as int;

    // Hot path 1: ASCII letter run (empty prefix)
    if is_letter(b0) {
        proof {
            lemma_case_first(HAN, bytes@, p);
        }
        let e: usize = scan_case_run::<HAN>(tables, bytes, pos + 1, ascii_letter_state(b0));
        proof {
            lemma_family_letters(CONTRACTIONS, DIGITS3, SLASH, HAN, bytes@, p, p, e as int);
        }
        return try_suffix::<CONTRACTIONS>(bytes, e);
    }
    // Hot path 2: space prefix
    if b0 == SPACE {
        return advance_space::<CONTRACTIONS, DIGITS3, SLASH, HAN>(tables, bytes, pos);
    }
    // Non-ASCII first character
    if b0 >= 0x80 {
        return advance_non_ascii::<CONTRACTIONS, DIGITS3, SLASH, HAN>(tables, bytes, pos);
    }
    // ASCII digit
    if is_digit(b0) {
        proof {
            lemma_family_rest(CONTRACTIONS, DIGITS3, SLASH, HAN, bytes@, p);
        }
        return digit_token_end::<DIGITS3>(tables, bytes, pos + 1);
    }
    // \r and \n are excluded from the letter-run prefix
    if b0 == CR || b0 == LF {
        proof {
            lemma_family_rest(CONTRACTIONS, DIGITS3, SLASH, HAN, bytes@, p);
        }
        return ws_token_end::<HAN>(tables, bytes, pos);
    }
    // Other ASCII whitespace, punctuation, symbols and controls may prefix a
    // letter run (a leading apostrophe too: there is no contraction on its own,
    // so "'sound" is one token)
    if let Some((first, st)) = letter_run_first::<HAN>(tables, bytes, pos + 1) {
        let e: usize = scan_case_run::<HAN>(tables, bytes, first, st);
        proof {
            lemma_family_letters(CONTRACTIONS, DIGITS3, SLASH, HAN, bytes@, p, p + 1, e as int);
        }
        return try_suffix::<CONTRACTIONS>(bytes, e);
    }
    proof {
        lemma_family_rest(CONTRACTIONS, DIGITS3, SLASH, HAN, bytes@, p);
    }
    if is_ascii_ws(b0) {
        return ws_token_end::<HAN>(tables, bytes, pos);
    }
    let q: usize = scan_punct_from::<HAN>(tables, bytes, pos + 1);
    scan_tail::<SLASH>(bytes, q)
}

/// [`advance_pos`] where the first byte is a space.
fn advance_space<
    const CONTRACTIONS: bool,
    const DIGITS3: bool,
    const SLASH: bool,
    const HAN: bool,
>(tables: &ClassTables, bytes: &[u8], pos: usize) -> (end: usize)
    requires
        pos < bytes.len(),
        bytes[pos as int] == SPACE,
    ensures
        match_at(family_regex(CONTRACTIONS, DIGITS3, SLASH, HAN), HAN, bytes@, pos as int) == Some(
            end as int,
        ),
        pos < end <= bytes.len(),
{
    let ghost p = pos as int;
    if pos + 1 >= bytes.len() {
        proof {
            lemma_family_rest(CONTRACTIONS, DIGITS3, SLASH, HAN, bytes@, p);
            lemma_white_single(HAN, bytes@, p);
        }
        return pos + 1;
    }
    let b1: u8 = bytes[pos + 1];
    if let Some((first, st)) = letter_run_first::<HAN>(tables, bytes, pos + 1) {
        let e: usize = scan_case_run::<HAN>(tables, bytes, first, st);
        proof {
            lemma_family_letters(CONTRACTIONS, DIGITS3, SLASH, HAN, bytes@, p, p + 1, e as int);
        }
        return try_suffix::<CONTRACTIONS>(bytes, e);
    }
    proof {
        lemma_family_rest(CONTRACTIONS, DIGITS3, SLASH, HAN, bytes@, p);
    }
    if b1 < 0x80 {
        if is_digit(b1) {
            proof {
                lemma_white_single(HAN, bytes@, p);
            }
            return pos + 1;
        }
        if is_ascii_ws(b1) {
            return ws_token_end::<HAN>(tables, bytes, pos);
        }
        let q: usize = scan_punct_from::<HAN>(tables, bytes, pos + 2);
        return scan_tail::<SLASH>(bytes, q);
    }
    let (cp, l): (u32, usize) = decode_cp(bytes, pos + 1);
    let (class, is_han) = tables.family_class_of::<HAN>(cp);
    match class {
        O200kCharClass::Whitespace => ws_token_end::<HAN>(tables, bytes, pos),
        O200kCharClass::Other | O200kCharClass::Mark => {
            let q: usize = scan_punct_from::<HAN>(tables, bytes, pos + 1 + l);
            scan_tail::<SLASH>(bytes, q)
        },
        _ => {
            // A number never takes the space along. A Han letter can neither
            // join a letter run nor extend ` ?[^\s\p{L}\p{N}]+`: the space is a
            // lone `\s+` token and the Han run starts after it.
            proof {
                lemma_white_single(HAN, bytes@, p);
            }
            pos + 1
        },
    }
}

/// [`advance_pos`] where the first character is not ASCII.
fn advance_non_ascii<
    const CONTRACTIONS: bool,
    const DIGITS3: bool,
    const SLASH: bool,
    const HAN: bool,
>(tables: &ClassTables, bytes: &[u8], pos: usize) -> (end: usize)
    requires
        pos < bytes.len(),
        bytes[pos as int] >= 0x80,
    ensures
        match_at(family_regex(CONTRACTIONS, DIGITS3, SLASH, HAN), HAN, bytes@, pos as int) == Some(
            end as int,
        ),
        pos < end <= bytes.len(),
{
    let ghost p = pos as int;
    let (cp, l): (u32, usize) = decode_cp(bytes, pos);
    let p0: usize = pos + l;
    let (class, is_han) = tables.family_class_of::<HAN>(cp);
    if HAN && is_han {
        proof {
            lemma_past_han(CONTRACTIONS, DIGITS3, SLASH, HAN, bytes@, p);
        }
        return scan_han_run(tables, bytes, p0);
    }
    if let Some((first, st)) = letter_run_first::<HAN>(tables, bytes, pos) {
        let e: usize = scan_case_run::<HAN>(tables, bytes, first, st);
        proof {
            lemma_family_letters(CONTRACTIONS, DIGITS3, SLASH, HAN, bytes@, p, p, e as int);
        }
        return try_suffix::<CONTRACTIONS>(bytes, e);
    }
    if class == O200kCharClass::Number {
        proof {
            lemma_family_rest(CONTRACTIONS, DIGITS3, SLASH, HAN, bytes@, p);
        }
        return digit_token_end::<DIGITS3>(tables, bytes, p0);
    }
    if let Some((first, st)) = letter_run_first::<HAN>(tables, bytes, p0) {
        let e: usize = scan_case_run::<HAN>(tables, bytes, first, st);
        proof {
            lemma_family_letters(
                CONTRACTIONS,
                DIGITS3,
                SLASH,
                HAN,
                bytes@,
                p,
                p0 as int,
                e as int,
            );
        }
        return try_suffix::<CONTRACTIONS>(bytes, e);
    }
    proof {
        lemma_family_rest(CONTRACTIONS, DIGITS3, SLASH, HAN, bytes@, p);
    }
    if class == O200kCharClass::Whitespace {
        return ws_token_end::<HAN>(tables, bytes, pos);
    }
    let q: usize = scan_punct_from::<HAN>(tables, bytes, p0);
    scan_tail::<SLASH>(bytes, q)
}

/// Advance past one Kimi-scheme token starting at `pos`: contractions,
/// `\p{N}{1,3}`, no `/` tail, Han runs.
pub fn kimi_advance(tables: &ClassTables, bytes: &[u8], pos: usize) -> (end: usize)
    requires
        pos < bytes.len(),
    ensures
        match_at(family_regex(true, true, false, true), true, bytes@, pos as int) == Some(
            end as int,
        ),
        pos < end <= bytes.len(),
{
    advance_pos::<true, true, false, true>(tables, bytes, pos)
}

/// Advance past one o200k-scheme token starting at `pos`: contractions,
/// `\p{N}{1,3}`, `[\r\n/]*` tail, no Han runs.
pub fn o200k_advance(tables: &ClassTables, bytes: &[u8], pos: usize) -> (end: usize)
    requires
        pos < bytes.len(),
    ensures
        match_at(family_regex(true, true, true, false), false, bytes@, pos as int) == Some(
            end as int,
        ),
        pos < end <= bytes.len(),
{
    advance_pos::<true, true, true, false>(tables, bytes, pos)
}

} // verus!
