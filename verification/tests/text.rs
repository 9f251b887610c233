//! Characters and texts.

use basetenkenizer::text::{chars_of, contains, find, is_before, matches_at, rfind, text_of, trim};

#[test]
fn searching_like_std() {
    for text in ["", "abcabc", "aaaa", "中文中文", "a"] {
        for pattern in ["", "a", "abc", "aa", "中", "文中", "z"] {
            let chars = chars_of(text);
            let wanted = chars_of(pattern);
            let offset = |at: Option<usize>| at.map(|byte| text[..byte].chars().count());
            assert_eq!(find(&chars, &wanted, 0), offset(text.find(pattern)));
            assert_eq!(rfind(&chars, &wanted), offset(text.rfind(pattern)));
            assert_eq!(contains(&chars, &wanted), text.contains(pattern));
            assert_eq!(matches_at(&chars, &wanted, 0), text.starts_with(pattern));
        }
    }
}

#[test]
fn trimming_like_std() {
    for text in ["", "  ", " a b ", "\u{3000}x\u{85}", "x", "\t\n x"] {
        let chars = chars_of(text);
        let (start, end) = trim(&chars, 0, chars.len());
        assert_eq!(text_of(&chars, start, end), text.trim());
    }
}

#[test]
fn ordering_like_std() {
    let texts = ["", "a", "ab", "b", "Z", "é", "中", "\u{ffff}", "\u{10000}"];
    for left in texts {
        for right in texts {
            assert_eq!(is_before(left, right), left < right);
        }
    }
}

#[test]
fn white_space_by_code_point() {
    let mut seen = 0;
    for c in '\0'..=char::MAX {
        let chars = vec![c];
        let (start, end) = trim(&chars, 0, 1);
        let space = matches!(
            c as u32,
            0x09..=0x0D | 0x20 | 0x85 | 0xA0 | 0x1680 | 0x2000..=0x200A | 0x2028 | 0x2029 | 0x202F
                | 0x205F | 0x3000
        );
        assert_eq!(start == end, space, "{c:?}");
        seen += u32::from(space);
    }
    assert_eq!(seen, 25);
}
