//! The scanners against a regex engine on the same patterns.

use basetenkenizer::pre_tokenizers::decode::decode_cp;
use basetenkenizer::pre_tokenizers::fast_split_o200k::{advance_pos, kimi_advance, o200k_advance};
use basetenkenizer::pre_tokenizers::scheme::{
    FastSplitScheme, KIMI_PATTERN, O200K_PATTERN, QWEN2_N3_PATTERN, QWEN2_PATTERN,
};
use basetenkenizer::pre_tokenizers::swar::{swar64_letter_nonmask, swar_scan_letters};
use basetenkenizer::pre_tokenizers::tables::ClassTables;
use basetenkenizer::pre_tokenizers::unicode::{CharClass, KimiCharClass, O200kCharClass};
use icu_properties::props::{GeneralCategory, GeneralCategoryGroup, Script, WhiteSpace};
use icu_properties::{CodePointMapData, CodePointSetData};

fn regex_spans(pattern: &str, s: &str) -> Vec<(usize, usize)> {
    let re = fancy_regex::Regex::new(pattern).unwrap();
    spans_of(&re, s)
}

fn spans_of(re: &fancy_regex::Regex, s: &str) -> Vec<(usize, usize)> {
    re.find_iter(s)
        .map(|m| {
            let m = m.unwrap();
            (m.start(), m.end())
        })
        .collect()
}

fn fast_spans(advance: impl Fn(&[u8], usize) -> usize, s: &str) -> Vec<(usize, usize)> {
    let bytes = s.as_bytes();
    let mut spans = Vec::new();
    let mut pos = 0;
    while pos < bytes.len() {
        let end = advance(bytes, pos);
        assert!(end > pos && end <= bytes.len(), "no progress at {pos} in {s:?}");
        spans.push((pos, end));
        pos = end;
    }
    spans
}

fn assert_parity(tables: &ClassTables, scheme: FastSplitScheme, pattern: &str, s: &str) {
    assert_eq!(
        fast_spans(|b, p| scheme.advance(tables, b, p), s),
        regex_spans(pattern, s),
        "split mismatch on {s:?}"
    );
}

#[test]
fn qwen2_edge_cases() {
    let tables = ClassTables::new();
    let cases = [
        "",
        "hello",
        " hello",
        "hello world",
        "  hello",
        "   hello",
        "\thello",
        "\t hello",
        " \thello",
        "hello\n",
        "hello \n",
        "hello\r\n\r\n",
        "hello  \r\n  world",
        "don't",
        "DON'T",
        "it's it'S IT'Ll we'VE they're I'd I'm",
        "c'mon 'quoted' rock'n'roll",
        "'s't'll've're'd'm",
        "a1b2c3",
        "123",
        "1 2 34",
        " 5",
        "3.14159",
        "hello, world! (parens) [brackets]",
        "  ,,,  ",
        "!!!\n\n",
        "?!\r",
        "trailing spaces   ",
        "trailing tab\t",
        "\n\nleading",
        "\r\n",
        " ",
        "\t",
        "múltiple ñiño café über",
        "日本語のテキスト",
        "русский текст",
        "한국어 텍스트",
        "e\u{301}xpose\u{301}", // combining acute: Mark is not \p{L}
        "\u{00A0}nbsp\u{00A0}\u{00A0}", // NBSP is White_Space
        "\u{2028}line\u{2029}sep",
        "\u{1F600} emoji \u{1F680}\u{1F680}",
        "١٢٣ arabic digits", // \p{N} single-char matches
        "๑๒๓ thai digits",
        "Ⅷ roman numeral", // Nl is \p{N}
        "'\u{017F} long s contraction",
        "mixed 'ſ fold",
        "tab\tbetween\twords",
        "\x0b\x0c vertical form",
        "space before ünïcode",
        "@user #tag $5 100%",
        "a'll b'LL c'Ll",
        "'''",
        "''s",
        "x''y",
        "-prefix word",
        ".hidden",
        "\u{3000}ideographic space",
        "za\u{017F}ka", // long s inside a letter run
    ];
    let extra_digit_cases = [
        "123456",
        "12 345 6789",
        " 12",
        "a123b",
        "١٢٣٤ arabic digits",
        "๑๒๓๔๕ thai digits",
        "1٢3٤5",
        "x99999y",
        "2024-07-25 12:34:56",
    ];
    for scheme in [
        (FastSplitScheme::Qwen2, QWEN2_PATTERN),
        (FastSplitScheme::Qwen2N3, QWEN2_N3_PATTERN),
    ] {
        for case in cases.iter().chain(extra_digit_cases.iter()) {
            assert_parity(&tables, scheme.0, scheme.1, case);
        }
    }
}

#[test]
fn qwen2_fuzz_parity() {
    // Deterministic LCG fuzz over a pool that exercises every branch:
    // ASCII letters/digits/punct, all ASCII whitespace, CRLF runs,
    // contraction heads, non-ASCII letters/digits/whitespace/symbols,
    // combining marks, and multi-byte boundary cases.
    let pool: Vec<char> = "abcXYZ z09'\"-.,!? \t\r\n\
         \u{00A0}\u{2028}\u{3000}\u{017F}\
         éñÜ日本語һЖ¡½٣๒Ⅷ😀🚀\u{301}\u{10FFFD}"
        .chars()
        .collect();
    let tables = ClassTables::new();
    let regexes = [
        (FastSplitScheme::Qwen2, fancy_regex::Regex::new(QWEN2_PATTERN).unwrap()),
        (FastSplitScheme::Qwen2N3, fancy_regex::Regex::new(QWEN2_N3_PATTERN).unwrap()),
    ];
    let mut rng: u64 = 0x1234_5678_9ABC_DEF0;
    for round in 0..4000 {
        rng = rng
            .wrapping_mul(6364136223846793005)
            .wrapping_add(1442695040888963407);
        let len = (rng >> 48) as usize % 64;
        let mut s = String::new();
        for _ in 0..len {
            rng = rng
                .wrapping_mul(6364136223846793005)
                .wrapping_add(1442695040888963407);
            s.push(pool[(rng >> 33) as usize % pool.len()]);
        }
        for (scheme, re) in &regexes {
            let fast = fast_spans(|b, p| scheme.advance(&tables, b, p), &s);
            let reference = spans_of(re, &s);
            assert_eq!(fast, reference, "fuzz mismatch round {round} on {s:?}");
        }
    }
}

#[test]
fn o200k_safe_boundary_excludes_slash_after_newline() {
    // `.\n/foo\nbar`: byte 2 is right after `\n` and is `/`. O200k's
    // punct tail `[\r\n/]*` lets `.` absorb `\n/`, so byte 2 is an unsafe
    // boundary and O200k must skip to the next `\n`-led non-slash point
    // (byte 7, after the second `\n`, before `b`). Schemes with a `[\r\n]`
    // tail may use the slash boundary.
    let bytes = b".\n/foo\nbar";
    assert_eq!(
        FastSplitScheme::O200k.find_safe_boundary(bytes, 0, bytes.len()),
        Some(7)
    );
    for scheme in [
        FastSplitScheme::Qwen2,
        FastSplitScheme::Qwen2N3,
        FastSplitScheme::Kimi,
    ] {
        assert_eq!(
            scheme.find_safe_boundary(bytes, 0, bytes.len()),
            Some(2),
            "{scheme:?} has a [\\r\\n] tail; slash boundary is safe"
        );
    }
}

#[test]
fn recognizes_only_known_patterns() {
    assert_eq!(
        FastSplitScheme::from_pattern(QWEN2_PATTERN),
        Some(FastSplitScheme::Qwen2)
    );
    assert_eq!(
        FastSplitScheme::from_pattern(QWEN2_N3_PATTERN),
        Some(FastSplitScheme::Qwen2N3)
    );
    assert_eq!(
        FastSplitScheme::from_pattern(KIMI_PATTERN),
        Some(FastSplitScheme::Kimi)
    );
    assert_eq!(
        FastSplitScheme::from_pattern(O200K_PATTERN),
        Some(FastSplitScheme::O200k)
    );

    // Guard: the Kimi K2/K3 (knext) tiktoken `pat_str`, assembled here
    // exactly as `tokenization_kimi.py` builds it, must equal
    // `KIMI_PATTERN` and route to the Kimi scanner. knext ships as a
    // tiktoken model (no tokenizer.json); its `pat_str` reaches
    // `from_pattern` verbatim through the tiktoken -> tokenizer.json
    // conversion, so an upstream regex change would otherwise silently
    // drop it to the slow PCRE2 path. This literal is the failing
    // tripwire for that.
    let knext_pat_str = [
        r"[\p{Han}]+",
        r"[^\r\n\p{L}\p{N}]?[\p{Lu}\p{Lt}\p{Lm}\p{Lo}\p{M}&&[^\p{Han}]]*[\p{Ll}\p{Lm}\p{Lo}\p{M}&&[^\p{Han}]]+(?i:'s|'t|'re|'ve|'m|'ll|'d)?",
        r"[^\r\n\p{L}\p{N}]?[\p{Lu}\p{Lt}\p{Lm}\p{Lo}\p{M}&&[^\p{Han}]]+[\p{Ll}\p{Lm}\p{Lo}\p{M}&&[^\p{Han}]]*(?i:'s|'t|'re|'ve|'m|'ll|'d)?",
        r"\p{N}{1,3}",
        r" ?[^\s\p{L}\p{N}]+[\r\n]*",
        r"\s*[\r\n]+",
        r"\s+(?!\S)",
        r"\s+",
    ]
    .join("|");
    assert_eq!(knext_pat_str, KIMI_PATTERN, "Kimi K2/K3 pat_str drifted");
    assert_eq!(
        FastSplitScheme::from_pattern(&knext_pat_str),
        Some(FastSplitScheme::Kimi)
    );

    // One char off -> no specialization.
    assert_eq!(
        FastSplitScheme::from_pattern(&QWEN2_PATTERN.replace("'t", "'x")),
        None
    );
    assert_eq!(FastSplitScheme::from_pattern(""), None);
}

#[test]
fn kimi_edge_cases() {
    let tables = ClassTables::new();
    let cases = [
        "",
        "hello world",
        "camelCase HTTPResponse AxxB",
        "don't can'ts it's we'Ve THEY'RE",
        "'sound 3'ts x''y",
        "123 4567 89",
        "2024-07-25 1.5e-7 0x7f",
        "  leading   spaces\ttab\r\n\r\n",
        "trailing spaces   ",
        "punct!!! ...\n// slash/tail",
        "café ñiño über MÜNCHEN",
        "日本語のテキスト",
        "中文abc123混合",
        "你好，世界！ Hello",
        "漢字とかな カタカナ",
        "한국어 텍스트",
        "русский ТЕКСТ",
        "emoji \u{1F600}\u{1F680}\u{1F680} test",
        "\u{00A0}nbsp\u{2028}line\u{3000}ideo",
        "combining e\u{301}\u{301} mark",
        "Han中numeral\u{3007}mix",
        "々repeat 〆ideo",
        "½ ⅷ roman ٣ arabic",
        "a\u{017F}b 'ſ longs",
        "MixedÑCase café'll",
        "tab\tHTTPServer\tcamelX",
        "  中文 mixed 日本",
        "\u{16FF0}reading mark",
        "ABC123中DEF",
        "'''",
        ".\n//comment",
    ];
    for case in cases {
        assert_parity(&tables, FastSplitScheme::Kimi, KIMI_PATTERN, case);
    }
}

#[test]
fn o200k_edge_cases() {
    let tables = ClassTables::new();
    // o200k = Kimi without Han runs and with a `[\r\n/]*` punct tail
    // (Han chars are ordinary letters/symbols here; `/` joins a tail).
    let cases = [
        "",
        "hello world",
        "camelCase HTTPResponse AxxB",
        "don't can'ts it's we'Ve THEY'RE",
        "'sound 3'ts x''y",
        "123 4567 89 2024-07-25 1.5e-7",
        "  leading   spaces\ttab\r\n\r\n",
        "punct!!! ...\n// slash/tail path/to/file",
        "café ñiño über MÜNCHEN",
        "日本語 中文 漢字", // Han is NOT special in o200k
        "中文abc123混合",
        "½ ⅷ ٣ roman",
        "a\u{017F}b 'ſ longs",
        "combining e\u{301}\u{301} mark",
        "emoji \u{1F600}\u{1F680} test",
        "path/./x .\n//c",
        "'''",
    ];
    for case in cases {
        assert_parity(&tables, FastSplitScheme::O200k, O200K_PATTERN, case);
    }
}

#[test]
fn family_fuzz_parity() {
    let pool: Vec<char> = "abcXYZ z09'\"-.,!?/ \t\r\n\
         \u{00A0}\u{2028}\u{3000}\u{017F}\
         éñÜАЖ日本中语字々〆〇\u{3007}\u{16FF0}\
         한¡½٣๒Ⅷ😀🚀\u{301}\u{5BF}\u{10FFFD}"
        .chars()
        .collect();
    let tables = ClassTables::new();
    let kimi = fancy_regex::Regex::new(KIMI_PATTERN).unwrap();
    let o200k = fancy_regex::Regex::new(O200K_PATTERN).unwrap();
    let mut rng: u64 = 0xC0FFEE_1234_5678;
    for round in 0..6000 {
        rng = rng
            .wrapping_mul(6364136223846793005)
            .wrapping_add(1442695040888963407);
        let len = (rng >> 48) as usize % 48;
        let mut s = String::new();
        for _ in 0..len {
            rng = rng
                .wrapping_mul(6364136223846793005)
                .wrapping_add(1442695040888963407);
            s.push(pool[(rng >> 33) as usize % pool.len()]);
        }
        assert_eq!(
            fast_spans(|b, p| kimi_advance(&tables, b, p), &s),
            spans_of(&kimi, &s),
            "kimi fuzz mismatch round {round} on {s:?}"
        );
        assert_eq!(
            fast_spans(|b, p| o200k_advance(&tables, b, p), &s),
            spans_of(&o200k, &s),
            "o200k fuzz mismatch round {round} on {s:?}"
        );
    }
}

fn schemes() -> [(FastSplitScheme, &'static str); 4] {
    [
        (FastSplitScheme::Qwen2, QWEN2_PATTERN),
        (FastSplitScheme::Qwen2N3, QWEN2_N3_PATTERN),
        (FastSplitScheme::Kimi, KIMI_PATTERN),
        (FastSplitScheme::O200k, O200K_PATTERN),
    ]
}

const PROSE: &str = "The quick brown Fox's 1,234 jumps — it'd cost $56.78!\n\
     Ελληνικά κείμενο, ΑΒΓ αβγ.\n\
     Русский текст и ЗАГЛАВНЫЕ буквы 2024 года.\r\n\
     中文句子，夹杂English单词和数字３４５。\n\
     日本語の文章、カタカナとひらがな。\n\
     한국어 문장입니다.\n\
     हिन्दी में एक वाक्य।\n\
     ภาษาไทยไม่มีช่องว่าง\n\
     نص عربي مع أرقام ١٢٣.\n\
     טקסט בעברית.\n\
     \tfn main() { println!(\"{}\", x/2); } // path/to\n\n\n\
     https://example.test/a?b=c&d  trailing   \n";

#[test]
fn multilingual_prose_parity() {
    let tables = ClassTables::new();
    for (scheme, pattern) in schemes() {
        let re = fancy_regex::Regex::new(pattern).unwrap();
        for start in PROSE.char_indices().map(|(at, _)| at) {
            let text = &PROSE[start..];
            assert_eq!(
                fast_spans(|b, p| scheme.advance(&tables, b, p), text),
                spans_of(&re, text),
                "split mismatch on {text:?}"
            );
        }
    }
}

/// The family member without contractions and with single digits, which no
/// scheme is for.
#[test]
fn plain_case_structured_parity() {
    let tables = ClassTables::new();
    let pattern = [
        r"[^\r\n\p{L}\p{N}]?[\p{Lu}\p{Lt}\p{Lm}\p{Lo}\p{M}]*[\p{Ll}\p{Lm}\p{Lo}\p{M}]+",
        r"[^\r\n\p{L}\p{N}]?[\p{Lu}\p{Lt}\p{Lm}\p{Lo}\p{M}]+[\p{Ll}\p{Lm}\p{Lo}\p{M}]*",
        r"\p{N}",
        r" ?[^\s\p{L}\p{N}]+[\r\n/]*",
        r"\s*[\r\n]+",
        r"\s+(?!\S)",
        r"\s+",
    ]
    .join("|");
    let re = fancy_regex::Regex::new(&pattern).unwrap();
    for start in PROSE.char_indices().map(|(at, _)| at) {
        let text = &PROSE[start..];
        assert_eq!(
            fast_spans(
                |b, p| advance_pos::<false, false, true, false>(&tables, b, p),
                text
            ),
            spans_of(&re, text),
            "split mismatch on {text:?}"
        );
    }
}

#[test]
fn tokens_tile_any_bytes() {
    let tables = ClassTables::new();
    let mut rng: u64 = 0x9E37_79B9_7F4A_7C15;
    for _ in 0..2000 {
        let mut bytes: Vec<u8> = Vec::new();
        for _ in 0..24 {
            rng = rng.wrapping_mul(6364136223846793005).wrapping_add(1442695040888963407);
            bytes.push((rng >> 40) as u8);
        }
        for (scheme, _) in schemes() {
            let mut pos = 0;
            while pos < bytes.len() {
                let end = scheme.advance(&tables, &bytes, pos);
                assert!(end > pos && end <= bytes.len());
                pos = end;
            }
        }
    }
}

#[test]
fn chunks_join_at_safe_boundaries() {
    let tables = ClassTables::new();
    let text = PROSE.repeat(3);
    let bytes = text.as_bytes();
    for (scheme, _) in schemes() {
        let whole = fast_spans(|b, p| scheme.advance(&tables, b, p), &text);
        let mut target = 1;
        let mut found = 0;
        while let Some(cut) = scheme.find_safe_boundary(bytes, target, bytes.len()) {
            let mut spans = fast_spans(|b, p| scheme.advance(&tables, b, p), &text[..cut]);
            spans.extend(
                fast_spans(|b, p| scheme.advance(&tables, b, p), &text[cut..])
                    .into_iter()
                    .map(|(start, end)| (start + cut, end + cut)),
            );
            assert_eq!(spans, whole, "{scheme:?} at {cut}");
            target = cut + 1;
            found += 1;
        }
        assert!(found >= 3, "{scheme:?} has {found} boundaries");
    }
}

#[test]
fn classes_of_ascii() {
    let tables = ClassTables::new();
    for cp in 0..0x80u32 {
        let c = char::from_u32(cp).unwrap();
        let expected = if c.is_ascii_uppercase() {
            O200kCharClass::Upper
        } else if c.is_ascii_lowercase() {
            O200kCharClass::Lower
        } else if c.is_ascii_digit() {
            O200kCharClass::Number
        } else if c == ' ' || ('\t'..='\r').contains(&c) {
            O200kCharClass::Whitespace
        } else {
            O200kCharClass::Other
        };
        assert_eq!(tables.o200k_class_of(cp), expected, "{c:?}");
        assert_eq!(tables.kimi_class_of(cp).base(), expected, "{c:?}");
        assert!(!tables.kimi_class_of(cp).is_han());
        let plain = match expected {
            O200kCharClass::Upper | O200kCharClass::Lower => CharClass::Letter,
            O200kCharClass::Number => CharClass::Number,
            O200kCharClass::Whitespace => CharClass::Whitespace,
            _ => CharClass::Other,
        };
        assert_eq!(tables.class_of(cp), plain, "{c:?}");
    }
}

#[test]
fn classes_beyond_ascii() {
    let tables = ClassTables::new();
    for (c, plain, cased, han) in [
        ('É', CharClass::Letter, O200kCharClass::Upper, false),
        ('é', CharClass::Letter, O200kCharClass::Lower, false),
        ('ǅ', CharClass::Letter, O200kCharClass::Upper, false),
        ('ʰ', CharClass::Letter, O200kCharClass::Caseless, false),
        ('א', CharClass::Letter, O200kCharClass::Caseless, false),
        ('中', CharClass::Letter, O200kCharClass::Caseless, true),
        ('々', CharClass::Letter, O200kCharClass::Caseless, true),
        ('\u{3007}', CharClass::Number, O200kCharClass::Number, true),
        ('⺀', CharClass::Other, O200kCharClass::Other, true),
        ('\u{16FF0}', CharClass::Other, O200kCharClass::Mark, true),
        ('\u{301}', CharClass::Other, O200kCharClass::Mark, false),
        ('٣', CharClass::Number, O200kCharClass::Number, false),
        ('½', CharClass::Number, O200kCharClass::Number, false),
        ('\u{3000}', CharClass::Whitespace, O200kCharClass::Whitespace, false),
        ('\u{85}', CharClass::Whitespace, O200kCharClass::Whitespace, false),
        ('€', CharClass::Other, O200kCharClass::Other, false),
        ('\u{10FFFD}', CharClass::Other, O200kCharClass::Other, false),
        ('\u{10FFFF}', CharClass::Other, O200kCharClass::Other, false),
    ] {
        let cp = c as u32;
        assert_eq!(tables.class_of(cp), plain, "{c:?}");
        assert_eq!(tables.o200k_class_of(cp), cased, "{c:?}");
        let kimi: KimiCharClass = tables.kimi_class_of(cp);
        // Han marks are told apart from other marks, not from other Han symbols.
        let base = match cased {
            O200kCharClass::Mark if han => O200kCharClass::Other,
            class => class,
        };
        assert_eq!(kimi.base(), base, "{c:?}");
        assert_eq!(kimi.is_han(), han, "{c:?}");
        assert_eq!(tables.family_class_of::<true>(cp), (base, han), "{c:?}");
        assert_eq!(tables.family_class_of::<false>(cp), (cased, false), "{c:?}");
    }
}

#[test]
fn characters_are_decoded() {
    for c in ['é', '\u{7ff}', '\u{800}', '中', '\u{ffff}', '\u{10000}', '\u{10ffff}'] {
        for tail in ["", "x", "xyz!"] {
            let text = format!("{c}{tail}");
            assert_eq!(decode_cp(text.as_bytes(), 0), (c as u32, c.len_utf8()));
        }
    }
    assert_eq!(decode_cp(&[0xE4, 0xB8], 0), (0x10_FFFF, 2));
    assert_eq!(decode_cp(&[0xF0, 0x9F, 0x98], 0), (0x10_FFFF, 3));
    assert_eq!(decode_cp(&[0xC3], 0), (0x10_FFFF, 1));
    assert_eq!(decode_cp(&[0xFF, 0xBF, 0xBF, 0xBF], 0), (0x10_FFFF, 4));
}

#[test]
fn words_of_letters_are_scanned() {
    for n in 0..40usize {
        for stop in ["", "1", "é", "@", "[", "`", "{", " "] {
            let text = format!("{}{stop}abc", "aZzAmQ".repeat(7)[..n].to_string());
            let expected = if stop.is_empty() { n + 3 } else { n };
            assert_eq!(swar_scan_letters(text.as_bytes(), 0), expected);
        }
    }
    assert_eq!(swar64_letter_nonmask(u64::from_le_bytes(*b"abcdEFGH")), 0);
    assert_eq!(
        swar64_letter_nonmask(u64::from_le_bytes(*b"ab1dEFG ")),
        0x8000_0000_0080_0000
    );
}

#[test]
fn lanes_beyond_ascii_are_no_letters() {
    assert_eq!(swar64_letter_nonmask(0xFF), 0x8080_8080_8080_8080);
    assert_eq!(
        swar64_letter_nonmask(u64::from_le_bytes(*b"\xFFz\xE1a\x80Z\xC1A")),
        0x0080_0080_0080_0080
    );
}

#[test]
fn han_has_no_case_and_is_no_white_space() {
    let tables = ClassTables::new();
    let scripts = CodePointMapData::<Script>::new();
    let mut marks = 0;
    for cp in 0..=0x10_FFFFu32 {
        let class = tables.o200k_class_of(cp);
        let han = scripts.get32(cp) == Script::Han;
        if han {
            assert!(!matches!(
                class,
                O200kCharClass::Upper | O200kCharClass::Lower | O200kCharClass::Whitespace
            ));
        }
        let effective = if han && class == O200kCharClass::Mark {
            marks += 1;
            O200kCharClass::Other
        } else {
            class
        };
        assert_eq!(tables.family_class_of::<true>(cp), (effective, han), "{cp:x}");
        assert_eq!(tables.family_class_of::<false>(cp), (class, false), "{cp:x}");
    }
    assert!(marks > 0);
}

#[test]
fn o200k_is_kimi_without_han_and_slash() {
    let tables = ClassTables::new();
    let mut cut = 0;
    for line in PROSE.split_inclusive('\n') {
        let kimi = fast_spans(|b, p| kimi_advance(&tables, b, p), line);
        let o200k = fast_spans(|b, p| o200k_advance(&tables, b, p), line);
        let han = line.chars().any(|c| tables.kimi_class_of(c as u32).is_han());
        if !han && !line.contains('/') {
            assert_eq!(kimi, o200k, "{line:?}");
            cut += 1;
        }
    }
    assert!(cut >= 6);
    assert_eq!(fast_spans(|b, p| o200k_advance(&tables, b, p), ".\n/"), [(0, 3)]);
    assert_eq!(fast_spans(|b, p| kimi_advance(&tables, b, p), ".\n/"), [(0, 2), (2, 3)]);
}

#[test]
fn white_space_is_no_letter_mark_number_or_han() {
    let categories = CodePointMapData::<GeneralCategory>::new();
    let scripts = CodePointMapData::<Script>::new();
    let mut seen = 0;
    for range in CodePointSetData::new::<WhiteSpace>().iter_ranges() {
        for cp in range {
            let category = categories.get32(cp);
            assert!(!GeneralCategoryGroup::Letter.contains(category));
            assert!(!GeneralCategoryGroup::Mark.contains(category));
            assert!(!GeneralCategoryGroup::Number.contains(category));
            assert!(scripts.get32(cp) != Script::Han);
            seen += 1;
        }
    }
    assert_eq!(seen, 25);
}
