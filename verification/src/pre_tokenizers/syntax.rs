//! The text of a split pattern and its term, from one description.

use vstd::prelude::*;

use super::regex::{alt, cat, contraction, opt, plus, upto, CharSet, Rx};
use super::scheme::{FastSplitScheme, KIMI_PATTERN, O200K_PATTERN, QWEN2_N3_PATTERN, QWEN2_PATTERN};

verus! {

/// A part of an alternative of a split pattern.
pub enum Piece {
    /// `[set]?`
    Maybe(CharSet),
    /// `[set]+`
    Many(CharSet),
    /// `[set]*`
    Any(CharSet),
    /// `[set]{1,3}`
    UpToThree(CharSet),
    /// `[set]`
    One(CharSet),
    /// `(?![set])`
    NotAhead(CharSet),
    /// `(?i:'s|'t|'re|'ve|'m|'ll|'d)`
    Contraction,
    /// `(?i:'s|'t|'re|'ve|'m|'ll|'d)?`
    MaybeContraction,
}

/// How a set is written; `han`: in a pattern that tells Han apart.
pub open spec fn set_text(set: CharSet, han: bool) -> Seq<char> {
    match set {
        CharSet::Newline => r"[\r\n]"@,
        CharSet::NewlineOrSlash => r"[\r\n/]"@,
        CharSet::Space => " "@,
        CharSet::Apostrophe => "'"@,
        CharSet::Folded(c) => seq![c as char],
        CharSet::Letter => r"\p{L}"@,
        CharSet::Number => r"\p{N}"@,
        CharSet::White => r"\s"@,
        CharSet::NonWhite => r"\S"@,
        CharSet::Prefix => r"[^\r\n\p{L}\p{N}]"@,
        CharSet::Symbol => r"[^\s\p{L}\p{N}]"@,
        CharSet::Han => r"[\p{Han}]"@,
        CharSet::Upperish => if han {
            r"[\p{Lu}\p{Lt}\p{Lm}\p{Lo}\p{M}&&[^\p{Han}]]"@
        } else {
            r"[\p{Lu}\p{Lt}\p{Lm}\p{Lo}\p{M}]"@
        },
        CharSet::Lowerish => if han {
            r"[\p{Ll}\p{Lm}\p{Lo}\p{M}&&[^\p{Han}]]"@
        } else {
            r"[\p{Ll}\p{Lm}\p{Lo}\p{M}]"@
        },
    }
}

/// How a piece is written, followed by `rest`.
pub open spec fn piece_text(piece: Piece, han: bool, rest: Seq<char>) -> Seq<char> {
    match piece {
        Piece::Maybe(set) => set_text(set, han) + ("?"@ + rest),
        Piece::Many(set) => set_text(set, han) + ("+"@ + rest),
        Piece::Any(set) => set_text(set, han) + ("*"@ + rest),
        Piece::UpToThree(set) => set_text(set, han) + ("{1,3}"@ + rest),
        Piece::One(set) => set_text(set, han) + rest,
        Piece::NotAhead(set) => "(?!"@ + (set_text(set, han) + (")"@ + rest)),
        Piece::Contraction => "(?i:'s|'t|'re|'ve|'m|'ll|'d)"@ + rest,
        Piece::MaybeContraction => "(?i:'s|'t|'re|'ve|'m|'ll|'d)"@ + ("?"@ + rest),
    }
}

/// How the pieces from the `i`th on are written, followed by `rest`.
pub open spec fn branch_text(branch: Seq<Piece>, i: int, han: bool, rest: Seq<char>) -> Seq<char>
    decreases branch.len() - i,
{
    if i >= branch.len() {
        rest
    } else {
        piece_text(branch[i], han, branch_text(branch, i + 1, han, rest))
    }
}

/// How the alternatives from the `i`th on are written.
pub open spec fn pattern_text(branches: Seq<Seq<Piece>>, i: int, han: bool) -> Seq<char>
    decreases branches.len() - i,
{
    if i >= branches.len() {
        seq![]
    } else {
        branch_text(
            branches[i],
            0,
            han,
            if i + 1 < branches.len() {
                "|"@ + pattern_text(branches, i + 1, han)
            } else {
                seq![]
            },
        )
    }
}

/// The term of a piece.
pub open spec fn piece_term(piece: Piece) -> Rx {
    match piece {
        Piece::Maybe(set) => opt(Rx::Chars(set)),
        Piece::Many(set) => plus(set),
        Piece::Any(set) => Rx::Star(set),
        Piece::UpToThree(set) => cat(Rx::Chars(set), upto(set, 2)),
        Piece::One(set) => cat(Rx::Chars(set), upto(set, 0)),
        Piece::NotAhead(set) => Rx::NotAhead(set),
        Piece::Contraction => contraction(),
        Piece::MaybeContraction => opt(contraction()),
    }
}

/// The term of the pieces from the `i`th on, one after the other.
pub open spec fn branch_term(branch: Seq<Piece>, i: int) -> Rx
    decreases branch.len() - i,
{
    if i + 1 >= branch.len() {
        piece_term(branch[i])
    } else {
        cat(piece_term(branch[i]), branch_term(branch, i + 1))
    }
}

/// The term of the alternatives from the `i`th on.
pub open spec fn pattern_term(branches: Seq<Seq<Piece>>, i: int) -> Rx
    decreases branches.len() - i,
{
    if i + 1 >= branches.len() {
        branch_term(branches[i], 0)
    } else {
        alt(branch_term(branches[i], 0), pattern_term(branches, i + 1))
    }
}

/// The endings of contractions, in order.
pub open spec fn contraction_words() -> Seq<Seq<u8>> {
    seq![
        seq![0x73u8],
        seq![0x74u8],
        seq![0x72u8, 0x65u8],
        seq![0x76u8, 0x65u8],
        seq![0x6Du8],
        seq![0x6Cu8, 0x6Cu8],
        seq![0x64u8],
    ]
}

/// How the letters from the `i`th on are written, followed by `rest`.
pub open spec fn letters_text(word: Seq<u8>, i: int, rest: Seq<char>) -> Seq<char>
    decreases word.len() - i,
{
    if i >= word.len() {
        rest
    } else {
        set_text(CharSet::Folded(word[i]), false) + letters_text(word, i + 1, rest)
    }
}

/// How the contractions from the `i`th on are written, up to the bracket.
pub open spec fn words_text(words: Seq<Seq<u8>>, i: int) -> Seq<char>
    decreases words.len() - i,
{
    if i >= words.len() {
        seq![]
    } else {
        set_text(CharSet::Apostrophe, false) + letters_text(
            words[i],
            0,
            (if i + 1 < words.len() {
                "|"@
            } else {
                ")"@
            }) + words_text(words, i + 1),
        )
    }
}

/// The term of the letters from the `i`th on, in either case.
pub open spec fn letters_term(word: Seq<u8>, i: int) -> Rx
    decreases word.len() - i,
{
    if i + 1 >= word.len() {
        Rx::Chars(CharSet::Folded(word[i]))
    } else {
        cat(Rx::Chars(CharSet::Folded(word[i])), letters_term(word, i + 1))
    }
}

/// The term of the contractions from the `i`th on.
pub open spec fn words_term(words: Seq<Seq<u8>>, i: int) -> Rx
    decreases words.len() - i,
{
    let word = cat(Rx::Chars(CharSet::Apostrophe), letters_term(words[i], 0));
    if i + 1 >= words.len() {
        word
    } else {
        alt(word, words_term(words, i + 1))
    }
}

/// The alternatives of [`QWEN2_PATTERN`].
pub open spec fn qwen2_syntax() -> Seq<Seq<Piece>> {
    seq![
        seq![Piece::Contraction],
        seq![Piece::Maybe(CharSet::Prefix), Piece::Many(CharSet::Letter)],
        seq![Piece::One(CharSet::Number)],
        seq![
            Piece::Maybe(CharSet::Space),
            Piece::Many(CharSet::Symbol),
            Piece::Any(CharSet::Newline),
        ],
        seq![Piece::Any(CharSet::White), Piece::Many(CharSet::Newline)],
        seq![Piece::Many(CharSet::White), Piece::NotAhead(CharSet::NonWhite)],
        seq![Piece::Many(CharSet::White)],
    ]
}

/// The alternatives of [`QWEN2_N3_PATTERN`].
pub open spec fn qwen2_n3_syntax() -> Seq<Seq<Piece>> {
    seq![
        seq![Piece::Contraction],
        seq![Piece::Maybe(CharSet::Prefix), Piece::Many(CharSet::Letter)],
        seq![Piece::UpToThree(CharSet::Number)],
        seq![
            Piece::Maybe(CharSet::Space),
            Piece::Many(CharSet::Symbol),
            Piece::Any(CharSet::Newline),
        ],
        seq![Piece::Any(CharSet::White), Piece::Many(CharSet::Newline)],
        seq![Piece::Many(CharSet::White), Piece::NotAhead(CharSet::NonWhite)],
        seq![Piece::Many(CharSet::White)],
    ]
}

/// The alternatives of [`KIMI_PATTERN`].
pub open spec fn kimi_syntax() -> Seq<Seq<Piece>> {
    seq![
        seq![Piece::Many(CharSet::Han)],
        seq![
            Piece::Maybe(CharSet::Prefix),
            Piece::Any(CharSet::Upperish),
            Piece::Many(CharSet::Lowerish),
            Piece::MaybeContraction,
        ],
        seq![
            Piece::Maybe(CharSet::Prefix),
            Piece::Many(CharSet::Upperish),
            Piece::Any(CharSet::Lowerish),
            Piece::MaybeContraction,
        ],
        seq![Piece::UpToThree(CharSet::Number)],
        seq![
            Piece::Maybe(CharSet::Space),
            Piece::Many(CharSet::Symbol),
            Piece::Any(CharSet::Newline),
        ],
        seq![Piece::Any(CharSet::White), Piece::Many(CharSet::Newline)],
        seq![Piece::Many(CharSet::White), Piece::NotAhead(CharSet::NonWhite)],
        seq![Piece::Many(CharSet::White)],
    ]
}

/// The alternatives of [`O200K_PATTERN`].
pub open spec fn o200k_syntax() -> Seq<Seq<Piece>> {
    seq![
        seq![
            Piece::Maybe(CharSet::Prefix),
            Piece::Any(CharSet::Upperish),
            Piece::Many(CharSet::Lowerish),
            Piece::MaybeContraction,
        ],
        seq![
            Piece::Maybe(CharSet::Prefix),
            Piece::Many(CharSet::Upperish),
            Piece::Any(CharSet::Lowerish),
            Piece::MaybeContraction,
        ],
        seq![Piece::UpToThree(CharSet::Number)],
        seq![
            Piece::Maybe(CharSet::Space),
            Piece::Many(CharSet::Symbol),
            Piece::Any(CharSet::NewlineOrSlash),
        ],
        seq![Piece::Any(CharSet::White), Piece::Many(CharSet::Newline)],
        seq![Piece::Many(CharSet::White), Piece::NotAhead(CharSet::NonWhite)],
        seq![Piece::Many(CharSet::White)],
    ]
}

impl FastSplitScheme {
    /// The alternatives of the scheme's split pattern.
    pub open spec fn syntax(self) -> Seq<Seq<Piece>> {
        match self {
            FastSplitScheme::Qwen2 => qwen2_syntax(),
            FastSplitScheme::Qwen2N3 => qwen2_n3_syntax(),
            FastSplitScheme::Kimi => kimi_syntax(),
            FastSplitScheme::O200k => o200k_syntax(),
        }
    }
}

/// The first `n` characters of the part stand in the text from `at` on.
spec fn agrees(text: Seq<char>, part: Seq<char>, at: int, n: nat) -> bool
    decreases n,
{
    n == 0 || (text[at + n - 1] == part[n - 1] && agrees(text, part, at, (n - 1) as nat))
}

/// The parts from the `i`th on stand in the text from `at` on, up to its end.
spec fn spelled(text: Seq<char>, parts: Seq<Seq<char>>, i: int, at: int) -> bool
    decreases parts.len() - i,
{
    if i >= parts.len() {
        at == text.len()
    } else {
        &&& at + parts[i].len() <= text.len()
        &&& agrees(text, parts[i], at, parts[i].len())
        &&& spelled(text, parts, i + 1, at + parts[i].len())
    }
}

/// The parts from the `i`th on.
spec fn joined(parts: Seq<Seq<char>>, i: int) -> Seq<char>
    decreases parts.len() - i,
{
    if i >= parts.len() {
        seq![]
    } else {
        parts[i] + joined(parts, i + 1)
    }
}

proof fn lemma_agrees(text: Seq<char>, part: Seq<char>, at: int, n: nat, k: int)
    requires
        agrees(text, part, at, n),
        0 <= k < n,
    ensures
        text[at + k] == part[k],
    decreases n,
{
    if k < n - 1 {
        lemma_agrees(text, part, at, (n - 1) as nat, k);
    }
}

proof fn lemma_spelled(text: Seq<char>, parts: Seq<Seq<char>>, i: int, at: int)
    requires
        0 <= i,
        0 <= at <= text.len(),
        spelled(text, parts, i, at),
    ensures
        text.skip(at) == joined(parts, i),
    decreases parts.len() - i,
{
    if i < parts.len() {
        let part = parts[i];
        lemma_spelled(text, parts, i + 1, at + part.len());
        assert forall|k: int| 0 <= k < part.len() implies text[at + k] == part[k] by {
            lemma_agrees(text, part, at, part.len(), k);
        }
        assert(text.skip(at) =~= part + text.skip(at + part.len()));
    } else {
        assert(text.skip(at) =~= seq![]);
    }
}

#[verifier::rlimit(60)]
proof fn lemma_qwen2_text()
    ensures
        pattern_text(qwen2_syntax(), 0, false) == QWEN2_PATTERN@,
{
    let text = QWEN2_PATTERN@;
    reveal_strlit(r"(?i:'s|'t|'re|'ve|'m|'ll|'d)|[^\r\n\p{L}\p{N}]?\p{L}+|\p{N}| ?[^\s\p{L}\p{N}]+[\r\n]*|\s*[\r\n]+|\s+(?!\S)|\s+");
    reveal_strlit(" ");
    reveal_strlit(")");
    reveal_strlit("*");
    reveal_strlit("+");
    reveal_strlit("?");
    reveal_strlit("|");
    reveal_strlit(r"\S");
    reveal_strlit(r"\s");
    reveal_strlit("(?!");
    reveal_strlit(r"\p{L}");
    reveal_strlit(r"\p{N}");
    reveal_strlit(r"[\r\n]");
    reveal_strlit(r"[^\s\p{L}\p{N}]");
    reveal_strlit(r"[^\r\n\p{L}\p{N}]");
    reveal_strlit("(?i:'s|'t|'re|'ve|'m|'ll|'d)");
    let parts = seq![
        "(?i:'s|'t|'re|'ve|'m|'ll|'d)"@,
        "|"@,
        r"[^\r\n\p{L}\p{N}]"@,
        "?"@,
        r"\p{L}"@,
        "+"@,
        "|"@,
        r"\p{N}"@,
        "|"@,
        " "@,
        "?"@,
        r"[^\s\p{L}\p{N}]"@,
        "+"@,
        r"[\r\n]"@,
        "*"@,
        "|"@,
        r"\s"@,
        "*"@,
        r"[\r\n]"@,
        "+"@,
        "|"@,
        r"\s"@,
        "+"@,
        "(?!"@,
        r"\S"@,
        ")"@,
        "|"@,
        r"\s"@,
        "+"@,
    ];
    assert(spelled(text, parts, 0, 0)) by {
        reveal_with_fuel(spelled, 30);
        reveal_with_fuel(agrees, 29);
    }
    lemma_spelled(text, parts, 0, 0);
    assert(text.skip(0) =~= text);
    assert(pattern_text(qwen2_syntax(), 0, false) == joined(parts, 0)) by {
        reveal_with_fuel(joined, 30);
        reveal_with_fuel(branch_text, 6);
        reveal_with_fuel(pattern_text, 8);
    }
}

#[verifier::rlimit(60)]
proof fn lemma_qwen2_n3_text()
    ensures
        pattern_text(qwen2_n3_syntax(), 0, false) == QWEN2_N3_PATTERN@,
{
    let text = QWEN2_N3_PATTERN@;
    reveal_strlit(r"(?i:'s|'t|'re|'ve|'m|'ll|'d)|[^\r\n\p{L}\p{N}]?\p{L}+|\p{N}{1,3}| ?[^\s\p{L}\p{N}]+[\r\n]*|\s*[\r\n]+|\s+(?!\S)|\s+");
    reveal_strlit(" ");
    reveal_strlit(")");
    reveal_strlit("*");
    reveal_strlit("+");
    reveal_strlit("?");
    reveal_strlit("|");
    reveal_strlit(r"\S");
    reveal_strlit(r"\s");
    reveal_strlit("(?!");
    reveal_strlit(r"\p{L}");
    reveal_strlit(r"\p{N}");
    reveal_strlit("{1,3}");
    reveal_strlit(r"[\r\n]");
    reveal_strlit(r"[^\s\p{L}\p{N}]");
    reveal_strlit(r"[^\r\n\p{L}\p{N}]");
    reveal_strlit("(?i:'s|'t|'re|'ve|'m|'ll|'d)");
    let parts = seq![
        "(?i:'s|'t|'re|'ve|'m|'ll|'d)"@,
        "|"@,
        r"[^\r\n\p{L}\p{N}]"@,
        "?"@,
        r"\p{L}"@,
        "+"@,
        "|"@,
        r"\p{N}"@,
        "{1,3}"@,
        "|"@,
        " "@,
        "?"@,
        r"[^\s\p{L}\p{N}]"@,
        "+"@,
        r"[\r\n]"@,
        "*"@,
        "|"@,
        r"\s"@,
        "*"@,
        r"[\r\n]"@,
        "+"@,
        "|"@,
        r"\s"@,
        "+"@,
        "(?!"@,
        r"\S"@,
        ")"@,
        "|"@,
        r"\s"@,
        "+"@,
    ];
    assert(spelled(text, parts, 0, 0)) by {
        reveal_with_fuel(spelled, 31);
        reveal_with_fuel(agrees, 29);
    }
    lemma_spelled(text, parts, 0, 0);
    assert(text.skip(0) =~= text);
    assert(pattern_text(qwen2_n3_syntax(), 0, false) == joined(parts, 0)) by {
        reveal_with_fuel(joined, 31);
        reveal_with_fuel(branch_text, 6);
        reveal_with_fuel(pattern_text, 8);
    }
}

#[verifier::rlimit(60)]
proof fn lemma_kimi_text()
    ensures
        pattern_text(kimi_syntax(), 0, true) == KIMI_PATTERN@,
{
    let text = KIMI_PATTERN@;
    reveal_strlit(r"[\p{Han}]+|[^\r\n\p{L}\p{N}]?[\p{Lu}\p{Lt}\p{Lm}\p{Lo}\p{M}&&[^\p{Han}]]*[\p{Ll}\p{Lm}\p{Lo}\p{M}&&[^\p{Han}]]+(?i:'s|'t|'re|'ve|'m|'ll|'d)?|[^\r\n\p{L}\p{N}]?[\p{Lu}\p{Lt}\p{Lm}\p{Lo}\p{M}&&[^\p{Han}]]+[\p{Ll}\p{Lm}\p{Lo}\p{M}&&[^\p{Han}]]*(?i:'s|'t|'re|'ve|'m|'ll|'d)?|\p{N}{1,3}| ?[^\s\p{L}\p{N}]+[\r\n]*|\s*[\r\n]+|\s+(?!\S)|\s+");
    reveal_strlit(" ");
    reveal_strlit(")");
    reveal_strlit("*");
    reveal_strlit("+");
    reveal_strlit("?");
    reveal_strlit("|");
    reveal_strlit(r"\S");
    reveal_strlit(r"\s");
    reveal_strlit("(?!");
    reveal_strlit(r"\p{N}");
    reveal_strlit("{1,3}");
    reveal_strlit(r"[\r\n]");
    reveal_strlit(r"[\p{Han}]");
    reveal_strlit(r"[^\s\p{L}\p{N}]");
    reveal_strlit(r"[^\r\n\p{L}\p{N}]");
    reveal_strlit("(?i:'s|'t|'re|'ve|'m|'ll|'d)");
    reveal_strlit(r"[\p{Ll}\p{Lm}\p{Lo}\p{M}&&[^\p{Han}]]");
    reveal_strlit(r"[\p{Lu}\p{Lt}\p{Lm}\p{Lo}\p{M}&&[^\p{Han}]]");
    let parts = seq![
        r"[\p{Han}]"@,
        "+"@,
        "|"@,
        r"[^\r\n\p{L}\p{N}]"@,
        "?"@,
        r"[\p{Lu}\p{Lt}\p{Lm}\p{Lo}\p{M}&&[^\p{Han}]]"@,
        "*"@,
        r"[\p{Ll}\p{Lm}\p{Lo}\p{M}&&[^\p{Han}]]"@,
        "+"@,
        "(?i:'s|'t|'re|'ve|'m|'ll|'d)"@,
        "?"@,
        "|"@,
        r"[^\r\n\p{L}\p{N}]"@,
        "?"@,
        r"[\p{Lu}\p{Lt}\p{Lm}\p{Lo}\p{M}&&[^\p{Han}]]"@,
        "+"@,
        r"[\p{Ll}\p{Lm}\p{Lo}\p{M}&&[^\p{Han}]]"@,
        "*"@,
        "(?i:'s|'t|'re|'ve|'m|'ll|'d)"@,
        "?"@,
        "|"@,
        r"\p{N}"@,
        "{1,3}"@,
        "|"@,
        " "@,
        "?"@,
        r"[^\s\p{L}\p{N}]"@,
        "+"@,
        r"[\r\n]"@,
        "*"@,
        "|"@,
        r"\s"@,
        "*"@,
        r"[\r\n]"@,
        "+"@,
        "|"@,
        r"\s"@,
        "+"@,
        "(?!"@,
        r"\S"@,
        ")"@,
        "|"@,
        r"\s"@,
        "+"@,
    ];
    assert(spelled(text, parts, 0, 0)) by {
        reveal_with_fuel(spelled, 45);
        reveal_with_fuel(agrees, 44);
    }
    lemma_spelled(text, parts, 0, 0);
    assert(text.skip(0) =~= text);
    assert(pattern_text(kimi_syntax(), 0, true) == joined(parts, 0)) by {
        reveal_with_fuel(joined, 45);
        reveal_with_fuel(branch_text, 6);
        reveal_with_fuel(pattern_text, 9);
    }
}

#[verifier::rlimit(60)]
proof fn lemma_o200k_text()
    ensures
        pattern_text(o200k_syntax(), 0, false) == O200K_PATTERN@,
{
    let text = O200K_PATTERN@;
    reveal_strlit(r"[^\r\n\p{L}\p{N}]?[\p{Lu}\p{Lt}\p{Lm}\p{Lo}\p{M}]*[\p{Ll}\p{Lm}\p{Lo}\p{M}]+(?i:'s|'t|'re|'ve|'m|'ll|'d)?|[^\r\n\p{L}\p{N}]?[\p{Lu}\p{Lt}\p{Lm}\p{Lo}\p{M}]+[\p{Ll}\p{Lm}\p{Lo}\p{M}]*(?i:'s|'t|'re|'ve|'m|'ll|'d)?|\p{N}{1,3}| ?[^\s\p{L}\p{N}]+[\r\n/]*|\s*[\r\n]+|\s+(?!\S)|\s+");
    reveal_strlit(" ");
    reveal_strlit(")");
    reveal_strlit("*");
    reveal_strlit("+");
    reveal_strlit("?");
    reveal_strlit("|");
    reveal_strlit(r"\S");
    reveal_strlit(r"\s");
    reveal_strlit("(?!");
    reveal_strlit(r"\p{N}");
    reveal_strlit("{1,3}");
    reveal_strlit(r"[\r\n]");
    reveal_strlit(r"[\r\n/]");
    reveal_strlit(r"[^\s\p{L}\p{N}]");
    reveal_strlit(r"[^\r\n\p{L}\p{N}]");
    reveal_strlit(r"[\p{Ll}\p{Lm}\p{Lo}\p{M}]");
    reveal_strlit("(?i:'s|'t|'re|'ve|'m|'ll|'d)");
    reveal_strlit(r"[\p{Lu}\p{Lt}\p{Lm}\p{Lo}\p{M}]");
    let parts = seq![
        r"[^\r\n\p{L}\p{N}]"@,
        "?"@,
        r"[\p{Lu}\p{Lt}\p{Lm}\p{Lo}\p{M}]"@,
        "*"@,
        r"[\p{Ll}\p{Lm}\p{Lo}\p{M}]"@,
        "+"@,
        "(?i:'s|'t|'re|'ve|'m|'ll|'d)"@,
        "?"@,
        "|"@,
        r"[^\r\n\p{L}\p{N}]"@,
        "?"@,
        r"[\p{Lu}\p{Lt}\p{Lm}\p{Lo}\p{M}]"@,
        "+"@,
        r"[\p{Ll}\p{Lm}\p{Lo}\p{M}]"@,
        "*"@,
        "(?i:'s|'t|'re|'ve|'m|'ll|'d)"@,
        "?"@,
        "|"@,
        r"\p{N}"@,
        "{1,3}"@,
        "|"@,
        " "@,
        "?"@,
        r"[^\s\p{L}\p{N}]"@,
        "+"@,
        r"[\r\n/]"@,
        "*"@,
        "|"@,
        r"\s"@,
        "*"@,
        r"[\r\n]"@,
        "+"@,
        "|"@,
        r"\s"@,
        "+"@,
        "(?!"@,
        r"\S"@,
        ")"@,
        "|"@,
        r"\s"@,
        "+"@,
    ];
    assert(spelled(text, parts, 0, 0)) by {
        reveal_with_fuel(spelled, 42);
        reveal_with_fuel(agrees, 32);
    }
    lemma_spelled(text, parts, 0, 0);
    assert(text.skip(0) =~= text);
    assert(pattern_text(o200k_syntax(), 0, false) == joined(parts, 0)) by {
        reveal_with_fuel(joined, 42);
        reveal_with_fuel(branch_text, 6);
        reveal_with_fuel(pattern_text, 8);
    }
}

/// The text of the contractions and their term have the same words.
pub proof fn law_contraction_text_and_term_agree()
    ensures
        "(?i:"@ + words_text(contraction_words(), 0) == "(?i:'s|'t|'re|'ve|'m|'ll|'d)"@,
        words_term(contraction_words(), 0) == contraction(),
{
    let text = "(?i:'s|'t|'re|'ve|'m|'ll|'d)"@;
    reveal_strlit("(?i:'s|'t|'re|'ve|'m|'ll|'d)");
    reveal_strlit("(?i:");
    reveal_strlit("'");
    reveal_strlit("|");
    reveal_strlit(")");
    let parts = seq![
        "(?i:"@,
        "'"@,
        seq!['s'],
        "|"@,
        "'"@,
        seq!['t'],
        "|"@,
        "'"@,
        seq!['r'],
        seq!['e'],
        "|"@,
        "'"@,
        seq!['v'],
        seq!['e'],
        "|"@,
        "'"@,
        seq!['m'],
        "|"@,
        "'"@,
        seq!['l'],
        seq!['l'],
        "|"@,
        "'"@,
        seq!['d'],
        ")"@,
    ];
    assert(spelled(text, parts, 0, 0)) by {
        reveal_with_fuel(spelled, 26);
        reveal_with_fuel(agrees, 5);
    }
    lemma_spelled(text, parts, 0, 0);
    assert(text.skip(0) =~= text);
    assert("(?i:"@ + words_text(contraction_words(), 0) == joined(parts, 0)) by {
        reveal_with_fuel(joined, 26);
        reveal_with_fuel(letters_text, 3);
        reveal_with_fuel(words_text, 8);
    }
    assert(words_term(contraction_words(), 0) == contraction()) by {
        reveal_with_fuel(letters_term, 2);
        reveal_with_fuel(words_term, 7);
    }
}

/// The text of a scheme's pattern and its term have the same alternatives: what
/// the text says is what the term means.
pub proof fn law_text_and_term_agree(scheme: FastSplitScheme)
    ensures
        pattern_text(scheme.syntax(), 0, scheme.tells_han()) == scheme.pattern(),
        pattern_term(scheme.syntax(), 0) == scheme.regex(),
{
    reveal_with_fuel(pattern_term, 9);
    reveal_with_fuel(branch_term, 5);
    reveal_with_fuel(upto, 3);
    match scheme {
        FastSplitScheme::Qwen2 => lemma_qwen2_text(),
        FastSplitScheme::Qwen2N3 => lemma_qwen2_n3_text(),
        FastSplitScheme::Kimi => lemma_kimi_text(),
        FastSplitScheme::O200k => lemma_o200k_text(),
    }
}

} // verus!
