//! ASCII escapes for JSON text.

use vstd::prelude::*;
use vstd::utf8::char_is_scalar;

verus! {

/// The hexadecimal digit, in lower case.
pub open spec fn hex_digit(n: int) -> char {
    if n < 10 {
        (n + 0x30) as u8 as char
    } else {
        (n + 0x57) as u8 as char
    }
}

/// `\u` and the four hexadecimal digits of a UTF-16 code unit.
pub open spec fn unit_escape(unit: int) -> Seq<char> {
    seq![
        '\\',
        'u',
        hex_digit(unit / 0x1000),
        hex_digit(unit / 0x100 % 0x10),
        hex_digit(unit / 0x10 % 0x10),
        hex_digit(unit % 0x10),
    ]
}

/// The UTF-16 code units of a character.
pub open spec fn utf16_units(c: char) -> Seq<int> {
    let cp = c as u32 as int;
    if cp < 0x1_0000 {
        seq![cp]
    } else {
        seq![0xD800 + (cp - 0x1_0000) / 0x400, 0xDC00 + (cp - 0x1_0000) % 0x400]
    }
}

/// A character as ASCII: itself, or the escapes of its UTF-16 code units.
pub open spec fn ascii_form(c: char) -> Seq<char> {
    let units = utf16_units(c);
    if (c as u32) < 0x80 {
        seq![c]
    } else if units.len() == 1 {
        unit_escape(units[0])
    } else {
        unit_escape(units[0]) + unit_escape(units[1])
    }
}

/// A text as ASCII.
pub open spec fn ascii_text(text: Seq<char>) -> Seq<char>
    decreases text.len(),
{
    if text.len() == 0 {
        seq![]
    } else {
        ascii_text(text.drop_last()) + ascii_form(text.last())
    }
}

fn hex_char(n: u32) -> (c: char)
    requires
        n < 16,
    ensures
        c == hex_digit(n as int),
{
    if n < 10 {
        (n + 0x30) as u8 as char
    } else {
        (n + 0x57) as u8 as char
    }
}

fn push_unit(text: &mut String, unit: u32)
    requires
        unit < 0x1_0000,
    ensures
        final(text)@ == old(text)@ + unit_escape(unit as int),
{
    text.push('\\');
    text.push('u');
    text.push(hex_char(unit / 0x1000));
    text.push(hex_char(unit / 0x100 % 0x10));
    text.push(hex_char(unit / 0x10 % 0x10));
    text.push(hex_char(unit % 0x10));
}

/// Replaces every character that is not ASCII by the escapes of its UTF-16 code
/// units.
pub fn escape_non_ascii(serialized: &str) -> (escaped: String)
    ensures
        escaped@ == ascii_text(serialized@),
{
    let mut escaped = String::new();
    for c in it: serialized.chars()
        invariant
            it.seq() == serialized@,
            escaped@ == ascii_text(serialized@.take(it.index() as int)),
    {
        let ghost k = it.index() as int;
        proof {
            assert(serialized@.take(k + 1).drop_last() =~= serialized@.take(k));
            char_is_scalar(c);
        }
        let cp: u32 = c as u32;
        if cp < 0x80 {
            escaped.push(c);
        } else if cp < 0x1_0000 {
            push_unit(&mut escaped, cp);
        } else {
            push_unit(&mut escaped, 0xD800 + (cp - 0x1_0000) / 0x400);
            push_unit(&mut escaped, 0xDC00 + (cp - 0x1_0000) % 0x400);
        }
    }
    assert(serialized@.take(serialized@.len() as int) =~= serialized@);
    escaped
}

/// The escaped text is ASCII.
pub proof fn law_escaped_is_ascii(text: Seq<char>, i: int)
    requires
        0 <= i < ascii_text(text).len(),
    ensures
        (ascii_text(text)[i] as u32) < 0x80,
    decreases text.len(),
{
    if text.len() > 0 {
        let c = text.last();
        char_is_scalar(c);
        let rest = ascii_text(text.drop_last());
        if i < rest.len() {
            law_escaped_is_ascii(text.drop_last(), i);
        }
    }
}

/// An ASCII text stays as it is.
pub proof fn law_ascii_is_not_escaped(text: Seq<char>)
    requires
        forall|i: int| 0 <= i < text.len() ==> (#[trigger] text[i] as u32) < 0x80,
    ensures
        ascii_text(text) == text,
    decreases text.len(),
{
    if text.len() > 0 {
        law_ascii_is_not_escaped(text.drop_last());
    }
}

} // verus!
