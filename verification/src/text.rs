//! Text as sequences of characters: searching, trimming, comparing.

use vstd::prelude::*;

verus! {

/// Whether two texts are the same: their bytes are.
pub fn str_eq(a: &str, b: &str) -> (r: bool)
    ensures
        r == (a@ == b@),
{
    let x = a.as_bytes();
    let y = b.as_bytes();
    proof {
        vstd::utf8::encode_utf8_decode_utf8(a@);
        vstd::utf8::encode_utf8_decode_utf8(b@);
    }
    if x.len() != y.len() {
        return false;
    }
    let mut i: usize = 0;
    while i < x.len()
        invariant
            i <= x.len(),
            x.len() == y.len(),
            x@ == vstd::utf8::encode_utf8(a@),
            y@ == vstd::utf8::encode_utf8(b@),
            forall|j: int| 0 <= j < i ==> #[trigger] x[j] == y[j],
        decreases x.len() - i,
    {
        if x[i] != y[i] {
            return false;
        }
        i += 1;
    }
    assert(x@ =~= y@);
    true
}

/// `String::push` appends the character.
pub assume_specification[ std::string::String::push ](s: &mut std::string::String, c: char)
    ensures
        final(s)@ == old(s)@.push(c),
;

/// The characters that have Unicode's `White_Space` property.
pub open spec fn is_space(c: char) -> bool {
    let cp = c as u32;
    ||| 0x09 <= cp <= 0x0D
    ||| cp == 0x20
    ||| cp == 0x85
    ||| cp == 0xA0
    ||| cp == 0x1680
    ||| 0x2000 <= cp <= 0x200A
    ||| cp == 0x2028
    ||| cp == 0x2029
    ||| cp == 0x202F
    ||| cp == 0x205F
    ||| cp == 0x3000
}

/// Whether the character has the `White_Space` property.
fn char_is_space(c: char) -> (r: bool)
    ensures
        r == is_space(c),
{
    matches!(
        c as u32,
        0x09..=0x0D | 0x20 | 0x85 | 0xA0 | 0x1680 | 0x2000..=0x200A | 0x2028 | 0x2029 | 0x202F
            | 0x205F | 0x3000
    )
}

/// The characters of a text.
pub fn chars_of(text: &str) -> (chars: Vec<char>)
    ensures
        chars@ == text@,
{
    let mut chars: Vec<char> = Vec::new();
    for c in it: text.chars()
        invariant
            it.seq() == text@,
            chars@ == text@.take(it.index() as int),
    {
        chars.push(c);
    }
    chars
}

/// The text of the characters from `start` up to `end`.
pub fn text_of(chars: &Vec<char>, start: usize, end: usize) -> (text: String)
    requires
        start <= end <= chars.len(),
    ensures
        text@ == chars@.subrange(start as int, end as int),
{
    let mut text = String::new();
    push_range(&mut text, chars, start, end);
    text
}

/// Appends the characters from `start` up to `end`.
pub fn push_range(text: &mut String, chars: &Vec<char>, start: usize, end: usize)
    requires
        start <= end <= chars.len(),
    ensures
        final(text)@ == old(text)@ + chars@.subrange(start as int, end as int),
{
    let ghost before = text@;
    let mut i: usize = start;
    while i < end
        invariant
            start <= i <= end <= chars.len(),
            text@ == before + chars@.subrange(start as int, i as int),
        decreases end - i,
    {
        text.push(chars[i]);
        i += 1;
    }
}

/// `pattern` stands at offset `i` of the text.
pub open spec fn occurs_at(text: Seq<char>, pattern: Seq<char>, i: int) -> bool {
    0 <= i && i + pattern.len() <= text.len() && text.subrange(i, i + pattern.len() as int)
        == pattern
}

/// `pattern` stands somewhere in the text.
pub open spec fn occurs(text: Seq<char>, pattern: Seq<char>) -> bool {
    exists|i: int| occurs_at(text, pattern, i)
}

/// The first offset from `from` on at which `pattern` stands.
pub open spec fn first_at(text: Seq<char>, pattern: Seq<char>, from: int) -> Option<int>
    decreases text.len() + 1 - from,
{
    if from > text.len() {
        None
    } else if occurs_at(text, pattern, from) {
        Some(from)
    } else {
        first_at(text, pattern, from + 1)
    }
}

pub proof fn lemma_first_at(text: Seq<char>, pattern: Seq<char>, from: int, i: int)
    requires
        from <= i,
        forall|j: int| from <= j < i ==> !#[trigger] occurs_at(text, pattern, j),
    ensures
        occurs_at(text, pattern, i) ==> first_at(text, pattern, from) == Some(i),
        i > text.len() ==> first_at(text, pattern, from) is None,
    decreases i - from,
{
    if from < i {
        lemma_first_at(text, pattern, from + 1, i);
    }
}

/// A search in the text after `p` is one in the whole text from there on.
pub proof fn lemma_first_at_skip(text: Seq<char>, pattern: Seq<char>, p: int, from: int)
    requires
        0 <= p <= text.len(),
        0 <= from,
    ensures
        first_at(text.skip(p), pattern, from) == match first_at(text, pattern, p + from) {
            Some(i) => Some(i - p),
            None => None,
        },
        first_at(text, pattern, p + from) matches Some(i) ==> p + from <= i && occurs_at(
            text,
            pattern,
            i,
        ),
    decreases text.len() + 1 - p - from,
{
    let rest = text.skip(p);
    if p + from <= text.len() {
        if from + pattern.len() <= rest.len() {
            assert(rest.subrange(from, from + pattern.len() as int) =~= text.subrange(
                p + from,
                p + from + pattern.len() as int,
            ));
        }
        lemma_first_at_skip(text, pattern, p, from + 1);
    }
}

/// Whether `pattern` stands at offset `i` of the text.
pub fn matches_at(text: &Vec<char>, pattern: &Vec<char>, i: usize) -> (r: bool)
    ensures
        r == occurs_at(text@, pattern@, i as int),
{
    if i > text.len() || pattern.len() > text.len() - i {
        return false;
    }
    let mut k: usize = 0;
    while k < pattern.len()
        invariant
            k <= pattern.len(),
            i + pattern.len() <= text.len(),
            forall|j: int| 0 <= j < k ==> text[i + j] == #[trigger] pattern[j],
        decreases pattern.len() - k,
    {
        if text[i + k] != pattern[k] {
            return false;
        }
        k += 1;
    }
    assert(text@.subrange(i as int, i + pattern.len()) =~= pattern@);
    true
}

/// The first offset from `from` on at which `pattern` stands.
pub fn find(text: &Vec<char>, pattern: &Vec<char>, from: usize) -> (at: Option<usize>)
    requires
        from <= text.len(),
    ensures
        match at {
            Some(i) => first_at(text@, pattern@, from as int) == Some(i as int) && from <= i
                && occurs_at(text@, pattern@, i as int),
            None => first_at(text@, pattern@, from as int) is None && forall|j: int|
                from <= j ==> !#[trigger] occurs_at(text@, pattern@, j),
        },
{
    let mut i: usize = from;
    loop
        invariant
            from <= i <= text.len(),
            forall|j: int| from <= j < i ==> !#[trigger] occurs_at(text@, pattern@, j),
        decreases text.len() - i,
    {
        if matches_at(text, pattern, i) {
            proof {
                lemma_first_at(text@, pattern@, from as int, i as int);
            }
            return Some(i);
        }
        if i == text.len() {
            proof {
                lemma_first_at(text@, pattern@, from as int, text.len() + 1);
            }
            return None;
        }
        i += 1;
    }
}

/// The last offset at which `pattern` stands.
pub fn rfind(text: &Vec<char>, pattern: &Vec<char>) -> (at: Option<usize>)
    ensures
        match at {
            Some(i) => {
                &&& occurs_at(text@, pattern@, i as int)
                &&& forall|j: int| i < j ==> !#[trigger] occurs_at(text@, pattern@, j)
            },
            None => !occurs(text@, pattern@),
        },
{
    if pattern.len() > text.len() {
        return None;
    }
    let mut i: usize = text.len() - pattern.len();
    loop
        invariant
            i + pattern.len() <= text.len(),
            forall|j: int| i < j ==> !#[trigger] occurs_at(text@, pattern@, j),
        decreases i,
    {
        if matches_at(text, pattern, i) {
            return Some(i);
        }
        if i == 0 {
            return None;
        }
        i -= 1;
    }
}

/// Whether `pattern` stands somewhere in the text.
pub fn contains(text: &Vec<char>, pattern: &Vec<char>) -> (r: bool)
    ensures
        r == occurs(text@, pattern@),
{
    match find(text, pattern, 0) {
        Some(i) => true,
        None => {
            false
        },
    }
}

/// The text without the whitespace at its end.
pub open spec fn trimmed_end(text: Seq<char>) -> Seq<char>
    decreases text.len(),
{
    if text.len() > 0 && is_space(text.last()) {
        trimmed_end(text.drop_last())
    } else {
        text
    }
}

/// The text without the whitespace at its start.
pub open spec fn trimmed_start(text: Seq<char>) -> Seq<char>
    decreases text.len(),
{
    if text.len() > 0 && is_space(text[0]) {
        trimmed_start(text.drop_first())
    } else {
        text
    }
}

/// The text without the whitespace at its start and end.
pub open spec fn trimmed(text: Seq<char>) -> Seq<char> {
    trimmed_end(trimmed_start(text))
}

/// The bounds of `start..end` without the whitespace at its end.
pub fn trim_end(chars: &Vec<char>, start: usize, end: usize) -> (e: usize)
    requires
        start <= end <= chars.len(),
    ensures
        start <= e <= end,
        chars@.subrange(start as int, e as int) == trimmed_end(
            chars@.subrange(start as int, end as int),
        ),
{
    let mut e: usize = end;
    while e > start && char_is_space(chars[e - 1])
        invariant
            start <= e <= end <= chars.len(),
            trimmed_end(chars@.subrange(start as int, e as int)) == trimmed_end(
                chars@.subrange(start as int, end as int),
            ),
        decreases e - start,
    {
        proof {
            let part = chars@.subrange(start as int, e as int);
            assert(part.drop_last() =~= chars@.subrange(start as int, e - 1));
        }
        e -= 1;
    }
    e
}

/// The bounds of `start..end` without the whitespace at its start and end.
pub fn trim(chars: &Vec<char>, start: usize, end: usize) -> (bounds: (usize, usize))
    requires
        start <= end <= chars.len(),
    ensures
        start <= bounds.0 <= bounds.1 <= end,
        chars@.subrange(bounds.0 as int, bounds.1 as int) == trimmed(
            chars@.subrange(start as int, end as int),
        ),
{
    let mut s: usize = start;
    while s < end && char_is_space(chars[s])
        invariant
            start <= s <= end <= chars.len(),
            trimmed_start(chars@.subrange(s as int, end as int)) == trimmed_start(
                chars@.subrange(start as int, end as int),
            ),
        decreases end - s,
    {
        proof {
            let part = chars@.subrange(s as int, end as int);
            assert(part.drop_first() =~= chars@.subrange(s + 1, end as int));
        }
        s += 1;
    }
    (s, trim_end(chars, s, end))
}

/// `a` comes before `b` in the order of their characters, which is that of
/// their UTF-8 bytes too.
pub open spec fn text_before(a: Seq<char>, b: Seq<char>) -> bool
    decreases a.len(),
{
    if b.len() == 0 {
        false
    } else if a.len() == 0 {
        true
    } else if a[0] != b[0] {
        (a[0] as int) < (b[0] as int)
    } else {
        text_before(a.drop_first(), b.drop_first())
    }
}

/// Whether `a` comes before `b`.
pub fn is_before(a: &str, b: &str) -> (r: bool)
    ensures
        r == text_before(a@, b@),
{
    let left = chars_of(a);
    let right = chars_of(b);
    let mut i: usize = 0;
    assert(a@.skip(0) =~= a@);
    assert(b@.skip(0) =~= b@);
    while i < left.len() && i < right.len() && left[i] == right[i]
        invariant
            left@ == a@,
            right@ == b@,
            i <= left.len(),
            i <= right.len(),
            text_before(a@, b@) == text_before(a@.skip(i as int), b@.skip(i as int)),
        decreases left.len() - i,
    {
        assert(a@.skip(i as int).drop_first() =~= a@.skip(i + 1));
        assert(b@.skip(i as int).drop_first() =~= b@.skip(i + 1));
        i += 1;
    }
    if i >= right.len() {
        false
    } else if i >= left.len() {
        true
    } else {
        left[i] < right[i]
    }
}

/// The order of texts is total and strict.
pub proof fn law_text_order(a: Seq<char>, b: Seq<char>)
    ensures
        !(text_before(a, b) && text_before(b, a)),
        text_before(a, b) || text_before(b, a) || a == b,
        !text_before(a, a),
    decreases a.len(),
{
    if a.len() > 0 && b.len() > 0 && a[0] == b[0] {
        law_text_order(a.drop_first(), b.drop_first());
        if a.drop_first() == b.drop_first() {
            assert(a =~= seq![a[0]] + a.drop_first());
        }
    }
    if a.len() > 0 {
        law_text_order_irreflexive(a);
    }
}

proof fn law_text_order_irreflexive(a: Seq<char>)
    ensures
        !text_before(a, a),
    decreases a.len(),
{
    if a.len() > 0 {
        law_text_order_irreflexive(a.drop_first());
    }
}

/// The order of texts is transitive.
pub proof fn law_text_order_is_transitive(a: Seq<char>, b: Seq<char>, c: Seq<char>)
    requires
        text_before(a, b),
        text_before(b, c),
    ensures
        text_before(a, c),
    decreases a.len(),
{
    if a.len() > 0 && b.len() > 0 && c.len() > 0 && a[0] == b[0] && b[0] == c[0] {
        law_text_order_is_transitive(a.drop_first(), b.drop_first(), c.drop_first());
    }
}

/// Trimming leaves a part of the text.
pub proof fn lemma_trimmed_part(text: Seq<char>) -> (at: int)
    ensures
        0 <= at,
        at + trimmed(text).len() <= text.len(),
        text.subrange(at, at + trimmed(text).len() as int) == trimmed(text),
    decreases text.len(),
{
    if text.len() > 0 && is_space(text[0]) {
        let at = lemma_trimmed_part(text.drop_first());
        at + 1
    } else {
        lemma_trimmed_end_part(text);
        0
    }
}

proof fn lemma_trimmed_end_part(text: Seq<char>)
    ensures
        trimmed_end(text).len() <= text.len(),
        text.subrange(0, trimmed_end(text).len() as int) == trimmed_end(text),
    decreases text.len(),
{
    if text.len() > 0 && is_space(text.last()) {
        lemma_trimmed_end_part(text.drop_last());
    }
}

/// A pattern stands at an offset if it fits there and the text has its
/// characters, one by one, from there on.
pub proof fn law_occurs_character_by_character(text: Seq<char>, pattern: Seq<char>, i: int)
    ensures
        occurs_at(text, pattern, i) <==> 0 <= i && i + pattern.len() <= text.len() && forall|k: int|
            0 <= k < pattern.len() ==> text[i + k] == #[trigger] pattern[k],
        occurs_at(text, pattern, i) ==> occurs(text, pattern),
        occurs(text, pattern) ==> exists|before: Seq<char>, after: Seq<char>|
            text == #[trigger] (before + pattern + after),
{
    if 0 <= i && i + pattern.len() <= text.len() {
        let part = text.subrange(i, i + pattern.len() as int);
        assert(forall|k: int| 0 <= k < pattern.len() ==> part[k] == text[i + k]);
        if forall|k: int| 0 <= k < pattern.len() ==> text[i + k] == #[trigger] pattern[k] {
            assert(part =~= pattern);
        }
    }
    if occurs(text, pattern) {
        let j = choose|j: int| occurs_at(text, pattern, j);
        let before = text.take(j);
        let after = text.skip(j + pattern.len());
        assert(text =~= before + pattern + after);
    }
}

/// What is found first is the pattern, and it does not stand between the start
/// of the search and there; if nothing is found, it stands nowhere.
pub proof fn law_first_is_first(text: Seq<char>, pattern: Seq<char>, from: int, j: int)
    requires
        0 <= from,
    ensures
        first_at(text, pattern, from) matches Some(i) ==> {
            &&& from <= i
            &&& occurs_at(text, pattern, i)
            &&& from <= j < i ==> !occurs_at(text, pattern, j)
        },
        first_at(text, pattern, from) is None && from <= j ==> !occurs_at(text, pattern, j),
    decreases text.len() + 1 - from,
{
    if from <= text.len() && !occurs_at(text, pattern, from) {
        law_first_is_first(text, pattern, from + 1, j);
    }
}

/// Trimming the end takes off whitespace, and all of it: what stays is the start
/// of the text and does not end in whitespace, and all behind it is whitespace.
pub proof fn law_trimmed_end(text: Seq<char>, i: int)
    ensures
        trimmed_end(text).len() <= text.len(),
        trimmed_end(text) == text.take(trimmed_end(text).len() as int),
        trimmed_end(text).len() > 0 ==> !is_space(trimmed_end(text).last()),
        trimmed_end(text).len() <= i < text.len() ==> is_space(text[i]),
    decreases text.len(),
{
    if text.len() > 0 && is_space(text.last()) {
        law_trimmed_end(text.drop_last(), i);
        assert(text.drop_last().take(trimmed_end(text).len() as int) =~= text.take(
            trimmed_end(text).len() as int,
        ));
    } else {
        assert(text.take(text.len() as int) =~= text);
    }
}

/// Trimming the start takes off whitespace, and all of it: what stays is the end
/// of the text and does not begin with whitespace, and all before it is
/// whitespace.
pub proof fn law_trimmed_start(text: Seq<char>, i: int)
    ensures
        trimmed_start(text).len() <= text.len(),
        trimmed_start(text) == text.skip(text.len() - trimmed_start(text).len()),
        trimmed_start(text).len() > 0 ==> !is_space(trimmed_start(text)[0]),
        0 <= i < text.len() - trimmed_start(text).len() ==> is_space(text[i]),
    decreases text.len(),
{
    if text.len() > 0 && is_space(text[0]) {
        law_trimmed_start(text.drop_first(), i - 1);
        let n = text.len() - trimmed_start(text).len();
        assert(text.drop_first().skip(n - 1) =~= text.skip(n));
    } else {
        assert(text.skip(0) =~= text);
    }
}

/// A trimmed text neither begins nor ends with whitespace, and the text is
/// whitespace, the trimmed text and whitespace.
pub proof fn law_trimmed(text: Seq<char>) -> (at: int)
    ensures
        0 <= at,
        at + trimmed(text).len() <= text.len(),
        trimmed(text) == text.subrange(at, at + trimmed(text).len() as int),
        forall|i: int| 0 <= i < at ==> is_space(#[trigger] text[i]),
        forall|i: int| at + trimmed(text).len() <= i < text.len() ==> is_space(#[trigger] text[i]),
        trimmed(text).len() > 0 ==> !is_space(trimmed(text)[0]) && !is_space(trimmed(text).last()),
{
    let right = trimmed_start(text);
    let at = text.len() - right.len();
    law_trimmed_start(text, 0);
    law_trimmed_end(right, 0);
    assert(trimmed(text) =~= text.subrange(at, at + trimmed(text).len() as int));
    assert forall|i: int| 0 <= i < at implies is_space(#[trigger] text[i]) by {
        law_trimmed_start(text, i);
    }
    assert forall|i: int| at + trimmed(text).len() <= i < text.len() implies is_space(
        #[trigger] text[i],
    ) by {
        law_trimmed_end(right, i - at);
    }
    at
}

/// Among the characters of ASCII, the blank, the tab, the line feed, the vertical
/// tab, the form feed and the carriage return are whitespace, and no others.
pub proof fn law_spaces_of_ascii(c: char)
    requires
        (c as u32) < 0x80,
    ensures
        is_space(c) <==> c == ' ' || c == '\t' || c == '\n' || c == '\x0B' || c == '\x0C' || c
            == '\r',
{
}

/// The order of two texts is decided by the first characters in which they
/// differ. Where there are none, the shorter comes before the longer.
pub proof fn law_text_order_by_first_difference(a: Seq<char>, b: Seq<char>, i: int)
    requires
        0 <= i <= a.len(),
        i <= b.len(),
        a.take(i) == b.take(i),
    ensures
        i < a.len() && i < b.len() && (a[i] as int) < (b[i] as int) ==> text_before(a, b),
        i < a.len() && i < b.len() && (a[i] as int) > (b[i] as int) ==> !text_before(a, b),
        i == a.len() && i < b.len() ==> text_before(a, b),
        i == b.len() ==> !text_before(a, b),
    decreases i,
{
    if i > 0 {
        assert(a[0] == a.take(i)[0]);
        assert(b[0] == b.take(i)[0]);
        assert(a.drop_first().take(i - 1) =~= a.take(i).drop_first());
        assert(b.drop_first().take(i - 1) =~= b.take(i).drop_first());
        law_text_order_by_first_difference(a.drop_first(), b.drop_first(), i - 1);
    }
}

} // verus!
