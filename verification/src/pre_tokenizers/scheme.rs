//! The known split patterns and their scanners.

use vstd::prelude::*;

use super::fast_split::{qwen2_advance, LF, SLASH_BYTE};
use super::fast_split_o200k::{kimi_advance, o200k_advance};
use super::regex::{ascii_white, family_regex, match_at, qwen2_regex, Rx};
use super::swar::is_ascii_ws;
use super::tables::ClassTables;
use crate::text::str_eq;

verus! {

/// The Qwen2/Qwen3 split pattern, as it appears in `tokenizer.json`.
pub const QWEN2_PATTERN: &'static str =
    r"(?i:'s|'t|'re|'ve|'m|'ll|'d)|[^\r\n\p{L}\p{N}]?\p{L}+|\p{N}| ?[^\s\p{L}\p{N}]+[\r\n]*|\s*[\r\n]+|\s+(?!\S)|\s+";

/// The Qwen2 scheme with number runs of up to three characters (`\p{N}{1,3}`
/// instead of `\p{N}`): GLM-4/GLM-5, and dolma2 / OLMo 2/3.
pub const QWEN2_N3_PATTERN: &'static str =
    r"(?i:'s|'t|'re|'ve|'m|'ll|'d)|[^\r\n\p{L}\p{N}]?\p{L}+|\p{N}{1,3}| ?[^\s\p{L}\p{N}]+[\r\n]*|\s*[\r\n]+|\s+(?!\S)|\s+";

/// The Kimi (moonshotai Kimi-K2 family) split pattern, as it appears in
/// `tokenizer.json`.
pub const KIMI_PATTERN: &'static str =
    r"[\p{Han}]+|[^\r\n\p{L}\p{N}]?[\p{Lu}\p{Lt}\p{Lm}\p{Lo}\p{M}&&[^\p{Han}]]*[\p{Ll}\p{Lm}\p{Lo}\p{M}&&[^\p{Han}]]+(?i:'s|'t|'re|'ve|'m|'ll|'d)?|[^\r\n\p{L}\p{N}]?[\p{Lu}\p{Lt}\p{Lm}\p{Lo}\p{M}&&[^\p{Han}]]+[\p{Ll}\p{Lm}\p{Lo}\p{M}&&[^\p{Han}]]*(?i:'s|'t|'re|'ve|'m|'ll|'d)?|\p{N}{1,3}| ?[^\s\p{L}\p{N}]+[\r\n]*|\s*[\r\n]+|\s+(?!\S)|\s+";

/// The o200k_base split pattern (GPT-4o, gpt-oss), as it appears in
/// `tokenizer.json`.
pub const O200K_PATTERN: &'static str =
    r"[^\r\n\p{L}\p{N}]?[\p{Lu}\p{Lt}\p{Lm}\p{Lo}\p{M}]*[\p{Ll}\p{Lm}\p{Lo}\p{M}]+(?i:'s|'t|'re|'ve|'m|'ll|'d)?|[^\r\n\p{L}\p{N}]?[\p{Lu}\p{Lt}\p{Lm}\p{Lo}\p{M}]+[\p{Ll}\p{Lm}\p{Lo}\p{M}]*(?i:'s|'t|'re|'ve|'m|'ll|'d)?|\p{N}{1,3}| ?[^\s\p{L}\p{N}]+[\r\n/]*|\s*[\r\n]+|\s+(?!\S)|\s+";

/// A split pattern with a hand-specialized scanner.
#[derive(Clone, Copy, Debug, PartialEq, Eq, Structural)]
pub enum FastSplitScheme {
    /// [`QWEN2_PATTERN`]: Qwen2/Qwen3 and derivatives.
    Qwen2,
    /// [`QWEN2_N3_PATTERN`]: Qwen2 with `\p{N}{1,3}`, for GLM and dolma2/OLMo.
    Qwen2N3,
    /// [`KIMI_PATTERN`]: the moonshotai K2 family.
    Kimi,
    /// [`O200K_PATTERN`]: GPT-4o, gpt-oss.
    O200k,
}

/// The bytes that decide whether `p` is a boundary are there: the one before
/// it, and the one at it if that is a line feed.
pub open spec fn readable(bytes: Seq<u8>, p: int) -> bool {
    p <= bytes.len() && (bytes[p - 1] == LF ==> p < bytes.len())
}

impl FastSplitScheme {
    /// The scheme's split pattern, as text.
    pub open spec fn pattern(self) -> Seq<char> {
        match self {
            FastSplitScheme::Qwen2 => QWEN2_PATTERN@,
            FastSplitScheme::Qwen2N3 => QWEN2_N3_PATTERN@,
            FastSplitScheme::Kimi => KIMI_PATTERN@,
            FastSplitScheme::O200k => O200K_PATTERN@,
        }
    }

    /// The scheme's split pattern, as a term.
    pub open spec fn regex(self) -> Rx {
        match self {
            FastSplitScheme::Qwen2 => qwen2_regex(1),
            FastSplitScheme::Qwen2N3 => qwen2_regex(3),
            FastSplitScheme::Kimi => family_regex(true, true, false, true),
            FastSplitScheme::O200k => family_regex(true, true, true, false),
        }
    }

    /// Whether the scheme's pattern tells Han characters apart.
    pub open spec fn tells_han(self) -> bool {
        self is Kimi
    }

    /// The end of the pattern's match that starts at `pos`.
    pub open spec fn token_end(self, bytes: Seq<u8>, pos: int) -> Option<int> {
        match_at(self.regex(), self.tells_han(), bytes, pos)
    }

    /// `p` is right after a line feed and the byte at `p` is ASCII other than
    /// whitespace (for o200k, whose symbol runs take `/` along with line ends,
    /// other than `/` too).
    pub open spec fn is_safe_boundary(self, bytes: Seq<u8>, p: int) -> bool {
        &&& 0 < p < bytes.len()
        &&& bytes[p - 1] == LF
        &&& bytes[p] < 0x80
        &&& !ascii_white(bytes[p])
        &&& !(self is O200k && bytes[p] == SLASH_BYTE)
    }

    /// Recognize a split pattern's source text. Only known patterns qualify,
    /// letter for letter; anything else is for a general regex engine.
    pub fn from_pattern(pattern: &str) -> (scheme: Option<Self>)
        ensures
            match scheme {
                Some(s) => pattern@ == s.pattern(),
                None => forall|s: FastSplitScheme| pattern@ != #[trigger] s.pattern(),
            },
    {
        if str_eq(pattern, QWEN2_PATTERN) {
            Some(FastSplitScheme::Qwen2)
        } else if str_eq(pattern, QWEN2_N3_PATTERN) {
            Some(FastSplitScheme::Qwen2N3)
        } else if str_eq(pattern, KIMI_PATTERN) {
            Some(FastSplitScheme::Kimi)
        } else if str_eq(pattern, O200K_PATTERN) {
            Some(FastSplitScheme::O200k)
        } else {
            None
        }
    }

    /// Advance past one token starting at `pos`: the match of the scheme's
    /// pattern there. It is not empty.
    pub fn advance(self, tables: &ClassTables, bytes: &[u8], pos: usize) -> (end: usize)
        requires
            pos < bytes.len(),
        ensures
            self.token_end(bytes@, pos as int) == Some(end as int),
            pos < end <= bytes.len(),
    {
        match self {
            FastSplitScheme::Qwen2 => qwen2_advance::<1>(tables, bytes, pos),
            FastSplitScheme::Qwen2N3 => qwen2_advance::<3>(tables, bytes, pos),
            FastSplitScheme::Kimi => kimi_advance(tables, bytes, pos),
            FastSplitScheme::O200k => o200k_advance(tables, bytes, pos),
        }
    }

    /// The search for a boundary from `lo` up to `limit` stays inside the text:
    /// before any offset whose bytes are missing, there is a boundary.
    pub open spec fn search_in_bounds(self, bytes: Seq<u8>, lo: int, limit: int) -> bool {
        forall|p: int|
            lo <= p < limit ==> {
                ||| #[trigger] readable(bytes, p)
                ||| exists|q: int| lo <= q < p && #[trigger] self.is_safe_boundary(bytes, q)
            }
    }

    /// `p` is the first boundary from `target` on and before `limit`, if there is
    /// one.
    pub open spec fn is_first_boundary(
        self,
        bytes: Seq<u8>,
        target: int,
        limit: int,
        p: Option<usize>,
    ) -> bool {
        match p {
            Some(p) => {
                &&& target <= p < limit
                &&& self.is_safe_boundary(bytes, p as int)
                &&& forall|q: int| target <= q < p ==> !#[trigger] self.is_safe_boundary(bytes, q)
            },
            None => forall|q: int|
                target <= q < limit ==> !#[trigger] self.is_safe_boundary(bytes, q),
        }
    }

    /// A chunk boundary near `target` that no token can cross, for parallel
    /// scanning of large inputs: the first in `[target, limit)` that is right
    /// after a `\n` whose next byte is non-whitespace ASCII. Safe because no
    /// alternative reaches backward across such a point: letter-run prefixes
    /// exclude `\r\n`, a whitespace run containing a newline always ends at its
    /// last newline, and a symbol run's absorbed tail is only `[\r\n]` (all
    /// whitespace, so excluded by the non-whitespace check).
    ///
    /// The one exception is the o200k scheme, whose tail is `[\r\n/]*`: a symbol
    /// token can absorb the `\n` and a following `/` (`.\n/` is one token). So
    /// `/` is not a safe boundary-follower there.
    pub fn find_safe_boundary(self, bytes: &[u8], target: usize, limit: usize) -> (p: Option<usize>)
        requires
            self.search_in_bounds(
                bytes@,
                if target < 1 {
                    1
                } else {
                    target as int
                },
                limit as int,
            ),
        ensures
            self.is_first_boundary(bytes@, target as int, limit as int, p),
            match p {
                Some(p) => {
                    &&& target <= p < limit
                    &&& self.is_safe_boundary(bytes@, p as int)
                    &&& forall|q: int|
                        target <= q < p ==> !#[trigger] self.is_safe_boundary(bytes@, q)
                },
                None => forall|q: int|
                    target <= q < limit ==> !#[trigger] self.is_safe_boundary(bytes@, q),
            },
    {
        let slash_unsafe: bool = matches!(self, FastSplitScheme::O200k);
        let lo: usize = if target < 1 {
            1
        } else {
            target
        };
        let mut p: usize = lo;
        while p < limit
            invariant
                1 <= lo <= p,
                lo == if target < 1 {
                    1
                } else {
                    target
                },
                slash_unsafe == (self is O200k),
                self.search_in_bounds(bytes@, lo as int, limit as int),
                forall|q: int| target <= q < p ==> !#[trigger] self.is_safe_boundary(bytes@, q),
            decreases limit - p,
        {
            assert(readable(bytes@, p as int));
            if bytes[p - 1] == LF {
                let b: u8 = bytes[p];
                if b < 0x80 && !is_ascii_ws(b) && !(slash_unsafe && b == SLASH_BYTE) {
                    return Some(p);
                }
            }
            p += 1;
        }
        None
    }
}

} // verus!
