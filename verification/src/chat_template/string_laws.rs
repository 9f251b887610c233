//! How numbers and strings are written in JSON text, and how they read back.

use vstd::prelude::*;
use vstd::utf8::char_is_scalar;

use super::escape::{ascii_form, ascii_text, hex_digit, unit_escape, utf16_units};
use super::json_text::{decimal, digits, number_text, string_char, string_chars, string_text};
use super::outside::{float_text, number_i64, number_u64};

verus! {

/// The character is one of the ten digits.
pub open spec fn is_digit(c: char) -> bool {
    '0' <= c <= '9'
}

/// The number that a row of digits stands for.
pub open spec fn read_digits(text: Seq<char>) -> int
    decreases text.len(),
{
    if text.len() == 0 {
        0
    } else {
        10 * read_digits(text.drop_last()) + (text.last() as int - '0' as int)
    }
}

/// The digits of a number read back as it. There is at least one, all are digits,
/// and the first is 0 only if it is the only one.
pub proof fn law_digits_read_back(n: nat)
    ensures
        digits(n).len() > 0,
        read_digits(digits(n)) == n,
        forall|i: int| 0 <= i < digits(n).len() ==> is_digit(#[trigger] digits(n)[i]),
        digits(n)[0] == '0' ==> digits(n).len() == 1,
    decreases n,
{
    let last = (n % 10 + 0x30) as u8 as char;
    assert(last as int == n % 10 + 0x30);
    if n < 10 {
        assert(digits(n) =~= seq![last]);
        reveal_with_fuel(read_digits, 2);
        assert(digits(n).drop_last() =~= seq![]);
    } else {
        law_digits_read_back(n / 10);
        assert(digits(n).drop_last() =~= digits(n / 10));
        if digits(n)[0] == '0' {
            assert(digits(n / 10)[0] == '0');
            let rest = digits(n / 10);
            reveal_with_fuel(read_digits, 2);
            assert(rest.drop_last() =~= seq![]);
        }
    }
}

/// An integer is written in decimal: a minus sign before the digits if it is
/// negative, and the digits alone otherwise. What is no integer is written as the
/// JSON library writes it.
pub proof fn law_numbers_read_back(n: serde_json::Number, v: int)
    ensures
        v < 0 ==> decimal(v).len() > 1 && decimal(v)[0] == '-' && read_digits(
            decimal(v).drop_first(),
        ) == -v,
        v >= 0 ==> decimal(v)[0] != '-' && read_digits(decimal(v)) == v,
        number_i64(n) matches Some(i) ==> number_text(n) == decimal(i as int),
        number_i64(n) is None ==> (number_u64(n) matches Some(u) ==> number_text(n) == decimal(
            u as int,
        )),
        number_i64(n) is None && number_u64(n) is None ==> number_text(n) == float_text(n),
{
    if v < 0 {
        law_digits_read_back((-v) as nat);
        assert(decimal(v).drop_first() =~= digits((-v) as nat));
    } else {
        law_digits_read_back(v as nat);
        assert(is_digit(digits(v as nat)[0]));
    }
}

/// The value of a hexadecimal digit in lower case.
pub open spec fn read_hex(c: char) -> int {
    if is_digit(c) {
        c as int - '0' as int
    } else {
        c as int - 'a' as int + 10
    }
}

/// The character is a hexadecimal digit in lower case.
pub open spec fn is_hex(c: char) -> bool {
    is_digit(c) || 'a' <= c <= 'f'
}

/// The code unit that four hexadecimal digits stand for.
pub open spec fn read_unit(text: Seq<char>) -> int {
    read_hex(text[2]) * 0x1000 + read_hex(text[3]) * 0x100 + read_hex(text[4]) * 0x10 + read_hex(
        text[5],
    )
}

/// The escape of a code unit is `\u` and four hexadecimal digits in lower case
/// that stand for it.
pub proof fn law_escapes_read_back(unit: int)
    requires
        0 <= unit < 0x1_0000,
    ensures
        unit_escape(unit).len() == 6,
        unit_escape(unit)[0] == '\\',
        unit_escape(unit)[1] == 'u',
        forall|i: int| 2 <= i < 6 ==> is_hex(#[trigger] unit_escape(unit)[i]),
        read_unit(unit_escape(unit)) == unit,
{
    lemma_hex(unit / 0x1000);
    lemma_hex(unit / 0x100 % 0x10);
    lemma_hex(unit / 0x10 % 0x10);
    lemma_hex(unit % 0x10);
    let text = unit_escape(unit);
    assert(text[2] == hex_digit(unit / 0x1000));
    assert(text[3] == hex_digit(unit / 0x100 % 0x10));
    assert(text[4] == hex_digit(unit / 0x10 % 0x10));
    assert(text[5] == hex_digit(unit % 0x10));
}

proof fn lemma_hex(n: int)
    requires
        0 <= n < 16,
    ensures
        is_hex(hex_digit(n)),
        read_hex(hex_digit(n)) == n,
{
}

/// A character of ASCII stays. Any other becomes the escape of its code point, if
/// that fits one code unit; otherwise those of a high and a low surrogate that
/// stand for it together.
pub proof fn law_ascii_form_reads_back(c: char)
    ensures
        (c as u32) < 0x80 ==> ascii_form(c) == seq![c],
        0x80 <= c as u32 && (c as u32) < 0x1_0000 ==> ascii_form(c).len() == 6 && read_unit(
            ascii_form(c),
        ) == c as u32,
        c as u32 >= 0x1_0000 ==> {
            let form = ascii_form(c);
            let high = read_unit(form);
            let low = read_unit(form.skip(6));
            &&& form.len() == 12
            &&& form[6] == '\\' && form[7] == 'u'
            &&& 0xD800 <= high < 0xDC00
            &&& 0xDC00 <= low < 0xE000
            &&& 0x1_0000 + (high - 0xD800) * 0x400 + (low - 0xDC00) == c as u32
        },
        c as u32 >= 0x80 ==> ascii_form(c)[0] == '\\' && ascii_form(c)[1] == 'u',
{
    char_is_scalar(c);
    let cp = c as u32 as int;
    if cp >= 0x1_0000 {
        let high = 0xD800 + (cp - 0x1_0000) / 0x400;
        let low = 0xDC00 + (cp - 0x1_0000) % 0x400;
        law_escapes_read_back(high);
        law_escapes_read_back(low);
        let form = ascii_form(c);
        assert(utf16_units(c) =~= seq![high, low]);
        assert(form =~= unit_escape(high) + unit_escape(low));
        assert(form.skip(6) =~= unit_escape(low));
        assert(form[2] == unit_escape(high)[2] && form[3] == unit_escape(high)[3]);
        assert(form[4] == unit_escape(high)[4] && form[5] == unit_escape(high)[5]);
    } else if cp >= 0x80 {
        law_escapes_read_back(cp);
    }
}

/// Escaping goes character by character: the escaped form of two texts in a row is
/// that of the first and then that of the second.
pub proof fn law_escaping_in_parts(first: Seq<char>, second: Seq<char>, c: char)
    ensures
        ascii_text(first + second) == ascii_text(first) + ascii_text(second),
        ascii_text(seq![c]) == ascii_form(c),
        ascii_text(Seq::empty()).len() == 0,
    decreases second.len(),
{
    reveal_with_fuel(ascii_text, 2);
    assert(seq![c].drop_last() =~= seq![]);
    assert(ascii_text(seq![c]) =~= ascii_form(c));
    if second.len() == 0 {
        assert(first + second =~= first);
        assert(ascii_text(first) + ascii_text(second) =~= ascii_text(first));
    } else {
        law_escaping_in_parts(first, second.drop_last(), c);
        assert((first + second).drop_last() =~= first + second.drop_last());
        assert(ascii_text(first + second) =~= ascii_text(first) + ascii_text(second));
    }
}

/// The character that a backslash and this letter stand for in a JSON string.
pub open spec fn short_escape(letter: char) -> Option<int> {
    if letter == '"' || letter == '\\' {
        Some(letter as int)
    } else if letter == 'b' {
        Some(8)
    } else if letter == 't' {
        Some(9)
    } else if letter == 'n' {
        Some(10)
    } else if letter == 'f' {
        Some(12)
    } else if letter == 'r' {
        Some(13)
    } else {
        None
    }
}

/// In a JSON string a character stands for itself unless it is a quote, a
/// backslash or a control character. Those are written with a backslash: as the
/// letter that stands for them if there is one, otherwise as an escape of their
/// code point.
pub proof fn law_string_characters_read_back(c: char)
    ensures
        ({
            let form = string_char(c);
            ||| form == seq![c] && c != '"' && c != '\\' && c as u32 >= 0x20
            ||| form.len() == 2 && form[0] == '\\' && short_escape(form[1]) == Some(c as int)
            ||| form.len() == 6 && form[0] == '\\' && form[1] == 'u' && read_unit(form) == c as int
                && (c as u32) < 0x20 && forall|letter: char|
                short_escape(letter) != Some(c as int)
        }),
{
    char_is_scalar(c);
    let cp = c as u32 as int;
    if cp < 0x20 {
        law_escapes_read_back(cp);
    }
}

/// A JSON string is a quote, the forms of its characters one after the other, and
/// a quote.
pub proof fn law_strings_in_parts(first: Seq<char>, second: Seq<char>, c: char)
    ensures
        string_text(first) == seq!['"'] + string_chars(first) + seq!['"'],
        string_chars(first + second) == string_chars(first) + string_chars(second),
        string_chars(seq![c]) == string_char(c),
        string_chars(Seq::empty()).len() == 0,
    decreases second.len(),
{
    reveal_with_fuel(string_chars, 2);
    assert(seq![c].drop_last() =~= seq![]);
    assert(string_chars(seq![c]) =~= string_char(c));
    if second.len() == 0 {
        assert(first + second =~= first);
        assert(string_chars(first) + string_chars(second) =~= string_chars(first));
    } else {
        law_strings_in_parts(first, second.drop_last(), c);
        assert((first + second).drop_last() =~= first + second.drop_last());
        assert(string_chars(first + second) =~= string_chars(first) + string_chars(second));
    }
}

} // verus!
