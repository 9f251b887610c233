//! JSON text: what is written of a value, and which texts differ from it in
//! whitespace only.

use vstd::prelude::*;
use vstd::utf8::{decode_utf8, encode_utf8, valid_utf8};

use super::escape::unit_escape;
use super::formatter::{times, JsonEvent, Layout};
use super::json::JsonTree;
use super::outside::{float_text, number_i64, number_u64};

verus! {

/// The number is no integer.
pub open spec fn is_float(n: serde_json::Number) -> bool {
    number_i64(n) is None && number_u64(n) is None
}

/// The decimal digits of a natural number.
pub open spec fn digits(n: nat) -> Seq<char>
    decreases n,
{
    let last = (n % 10 + 0x30) as u8 as char;
    if n < 10 {
        seq![last]
    } else {
        digits(n / 10).push(last)
    }
}

/// An integer in decimal.
pub open spec fn decimal(n: int) -> Seq<char> {
    if n < 0 {
        seq!['-'] + digits((-n) as nat)
    } else {
        digits(n as nat)
    }
}

/// The JSON text of a number.
pub open spec fn number_text(n: serde_json::Number) -> Seq<char> {
    match (number_i64(n), number_u64(n)) {
        (Some(v), _) => decimal(v as int),
        (None, Some(v)) => decimal(v as int),
        (None, None) => float_text(n),
    }
}

/// A character in a JSON string: escaped where JSON wants it, as it is
/// otherwise.
pub open spec fn string_char(c: char) -> Seq<char> {
    let cp = c as u32;
    if c == '"' || c == '\\' {
        seq!['\\', c]
    } else if cp == 0x08 {
        seq!['\\', 'b']
    } else if cp == 0x09 {
        seq!['\\', 't']
    } else if cp == 0x0A {
        seq!['\\', 'n']
    } else if cp == 0x0C {
        seq!['\\', 'f']
    } else if cp == 0x0D {
        seq!['\\', 'r']
    } else if cp < 0x20 {
        unit_escape(cp as int)
    } else {
        seq![c]
    }
}

/// The characters of a JSON string.
pub open spec fn string_chars(s: Seq<char>) -> Seq<char>
    decreases s.len(),
{
    if s.len() == 0 {
        seq![]
    } else {
        string_chars(s.drop_last()) + string_char(s.last())
    }
}

/// The JSON text of a string.
pub open spec fn string_text(s: Seq<char>) -> Seq<char> {
    seq!['"'] + string_chars(s) + seq!['"']
}

/// What a serializer tells its formatter of a JSON value. The text of a string
/// is one piece here, in however many it is written.
pub open spec fn tree_events(tree: JsonTree) -> Seq<JsonEvent>
    decreases tree, 0nat,
{
    match tree {
        JsonTree::Null => seq![JsonEvent::Text(seq![0x6Eu8, 0x75, 0x6C, 0x6C])],
        JsonTree::Bool(true) => seq![JsonEvent::Text(seq![0x74u8, 0x72, 0x75, 0x65])],
        JsonTree::Bool(false) => seq![JsonEvent::Text(seq![0x66u8, 0x61, 0x6C, 0x73, 0x65])],
        JsonTree::Number(n) => seq![JsonEvent::Text(encode_utf8(number_text(n)))],
        JsonTree::String(s) => seq![JsonEvent::Text(encode_utf8(string_text(s)))],
        JsonTree::Array(items) => seq![JsonEvent::BeginArray] + item_events(items, items.len())
            + seq![JsonEvent::EndArray],
        JsonTree::Object(entries) => seq![JsonEvent::BeginObject] + entry_events(
            entries,
            entries.len(),
        ) + seq![JsonEvent::EndObject],
    }
}

/// What is told of the first `n` items of an array.
pub open spec fn item_events(items: Seq<JsonTree>, n: nat) -> Seq<JsonEvent>
    decreases items, n,
{
    if n == 0 || n > items.len() {
        seq![]
    } else {
        item_events(items, (n - 1) as nat) + seq![JsonEvent::BeginArrayValue(n == 1)]
            + tree_events(items[n - 1]) + seq![JsonEvent::EndArrayValue]
    }
}

/// What is told of the first `n` entries of an object.
pub open spec fn entry_events(entries: Seq<(Seq<char>, JsonTree)>, n: nat) -> Seq<JsonEvent>
    decreases entries, n,
{
    if n == 0 || n > entries.len() {
        seq![]
    } else {
        entry_events(entries, (n - 1) as nat) + seq![
            JsonEvent::BeginObjectKey(n == 1),
            JsonEvent::Text(encode_utf8(string_text(entries[n - 1].0))),
            JsonEvent::BeginObjectValue,
        ] + tree_events(entries[n - 1].1) + seq![JsonEvent::EndObjectValue]
    }
}

/// The layout without any whitespace.
pub open spec fn compact_layout() -> Layout {
    Layout {
        item_separator: seq![0x2Cu8],
        key_separator: seq![0x3Au8],
        indent: None,
        current_indent: 0,
        has_value: false,
    }
}

/// The JSON text of a value without any whitespace between its tokens.
pub open spec fn compact_text(tree: JsonTree) -> Seq<char> {
    decode_utf8(compact_layout().render(tree_events(tree)))
}

// Tokens and the whitespace between them.

/// JSON's whitespace.
pub open spec fn json_white(b: u8) -> bool {
    b == 0x20 || b == 0x09 || b == 0x0A || b == 0x0D
}

/// The bytes are whitespace.
pub open spec fn all_white(bytes: Seq<u8>) -> bool {
    forall|i: int| 0 <= i < bytes.len() ==> json_white(#[trigger] bytes[i])
}

/// The JSON tokens that an event stands for.
pub open spec fn event_token(event: JsonEvent) -> Seq<Seq<u8>> {
    match event {
        JsonEvent::Text(bytes) => seq![bytes],
        JsonEvent::BeginArray => seq![seq![0x5Bu8]],
        JsonEvent::EndArray => seq![seq![0x5Du8]],
        JsonEvent::BeginObject => seq![seq![0x7Bu8]],
        JsonEvent::EndObject => seq![seq![0x7Du8]],
        JsonEvent::BeginArrayValue(first) | JsonEvent::BeginObjectKey(first) => if first {
            seq![]
        } else {
            seq![seq![0x2Cu8]]
        },
        JsonEvent::BeginObjectValue => seq![seq![0x3Au8]],
        JsonEvent::EndArrayValue | JsonEvent::EndObjectValue => seq![],
    }
}

/// The JSON tokens that the events stand for.
pub open spec fn event_tokens(events: Seq<JsonEvent>) -> Seq<Seq<u8>>
    decreases events.len(),
{
    if events.len() == 0 {
        seq![]
    } else {
        event_token(events[0]) + event_tokens(events.drop_first())
    }
}

/// The tokens with a gap before each and one after the last.
pub open spec fn with_gaps(gaps: Seq<Seq<u8>>, tokens: Seq<Seq<u8>>) -> Seq<u8>
    decreases tokens.len(),
{
    if tokens.len() == 0 {
        gaps[0]
    } else {
        gaps[0] + tokens[0] + with_gaps(gaps.drop_first(), tokens.drop_first())
    }
}

/// The text is the tokens with these gaps, which are whitespace.
pub open spec fn is_spaced_by(text: Seq<u8>, tokens: Seq<Seq<u8>>, gaps: Seq<Seq<u8>>) -> bool {
    &&& gaps.len() == tokens.len() + 1
    &&& forall|i: int| 0 <= i < gaps.len() ==> all_white(#[trigger] gaps[i])
    &&& text == with_gaps(gaps, tokens)
}

/// The text is the tokens, with whitespace between, before and after them or
/// without.
pub open spec fn is_spaced(text: Seq<u8>, tokens: Seq<Seq<u8>>) -> bool {
    exists|gaps: Seq<Seq<u8>>| #[trigger] is_spaced_by(text, tokens, gaps)
}

/// The text is a JSON text of the value: its tokens, spaced.
pub open spec fn says(text: Seq<u8>, tree: JsonTree) -> bool {
    is_spaced(text, event_tokens(tree_events(tree)))
}

/// The separator is the mark with whitespace around it or without.
pub open spec fn is_mark(separator: Seq<u8>, mark: u8) -> bool {
    exists|i: int|
        #![trigger separator[i]]
        0 <= i < separator.len() && separator[i] == mark && all_white(separator.take(i))
            && all_white(separator.skip(i + 1))
}

/// The separators are a comma and a colon, and all else that the layout adds is
/// whitespace.
pub open spec fn adds_white_only(layout: Layout) -> bool {
    &&& is_mark(layout.item_separator, 0x2C)
    &&& is_mark(layout.key_separator, 0x3A)
    &&& layout.indent matches Some(indent) ==> all_white(indent)
}

proof fn lemma_gaps_join(
    g: Seq<Seq<u8>>,
    s: Seq<Seq<u8>>,
    h: Seq<Seq<u8>>,
    t: Seq<Seq<u8>>,
)
    requires
        g.len() == s.len() + 1,
        h.len() == t.len() + 1,
    ensures
        with_gaps(g.drop_last() + seq![g.last() + h[0]] + h.drop_first(), s + t) == with_gaps(g, s)
            + with_gaps(h, t),
    decreases s.len(),
{
    let joined = g.drop_last() + seq![g.last() + h[0]] + h.drop_first();
    if s.len() == 0 {
        assert(s + t =~= t);
        assert(joined.drop_first() =~= h.drop_first());
        assert(joined[0] == g[0] + h[0]);
        if t.len() > 0 {
            assert(with_gaps(joined, t) =~= g[0] + with_gaps(h, t));
        }
    } else {
        lemma_gaps_join(g.drop_first(), s.drop_first(), h, t);
        assert((s + t).drop_first() =~= s.drop_first() + t);
        assert(joined.drop_first() =~= g.drop_first().drop_last() + seq![
            g.drop_first().last() + h[0],
        ] + h.drop_first());
        assert(with_gaps(joined, s + t) =~= with_gaps(g, s) + with_gaps(h, t));
    }
}

/// Two spaced texts, one after the other, are a spaced text.
proof fn lemma_spaced_join(a: Seq<u8>, s: Seq<Seq<u8>>, b: Seq<u8>, t: Seq<Seq<u8>>)
    requires
        is_spaced(a, s),
        is_spaced(b, t),
    ensures
        is_spaced(a + b, s + t),
{
    let g = choose|g: Seq<Seq<u8>>| #[trigger] is_spaced_by(a, s, g);
    let h = choose|h: Seq<Seq<u8>>| #[trigger] is_spaced_by(b, t, h);
    lemma_gaps_join(g, s, h, t);
    let joined = g.drop_last() + seq![g.last() + h[0]] + h.drop_first();
    assert forall|i: int| 0 <= i < joined.len() implies all_white(#[trigger] joined[i]) by {
        if i < g.len() - 1 {
            assert(joined[i] == g[i]);
        } else if i == g.len() - 1 {
            assert(all_white(g[i]));
            assert(all_white(h[0]));
        } else {
            assert(joined[i] == h[i - g.len() + 1]);
        }
    }
    assert(is_spaced_by(a + b, s + t, joined));
}

proof fn lemma_white_is_spaced(white: Seq<u8>)
    requires
        all_white(white),
    ensures
        is_spaced(white, seq![]),
{
    assert(is_spaced_by(white, seq![], seq![white]));
}

proof fn lemma_token_is_spaced(before: Seq<u8>, token: Seq<u8>, behind: Seq<u8>)
    requires
        all_white(before),
        all_white(behind),
    ensures
        is_spaced(before + token + behind, seq![token]),
{
    let gaps = seq![before, behind];
    let tokens = seq![token];
    assert(gaps.drop_first() =~= seq![behind]);
    assert(tokens.drop_first() =~= seq![]);
    assert(with_gaps(gaps, tokens) == before + token + with_gaps(gaps.drop_first(), seq![]));
    assert(is_spaced_by(before + token + behind, tokens, gaps));
}

proof fn lemma_mark_is_spaced(separator: Seq<u8>, mark: u8)
    requires
        is_mark(separator, mark),
    ensures
        is_spaced(separator, seq![seq![mark]]),
{
    let i = choose|i: int|
        #![trigger separator[i]]
        0 <= i < separator.len() && separator[i] == mark && all_white(separator.take(i))
            && all_white(separator.skip(i + 1));
    lemma_token_is_spaced(separator.take(i), seq![mark], separator.skip(i + 1));
    assert(separator =~= separator.take(i) + seq![mark] + separator.skip(i + 1));
}

proof fn lemma_times_white(text: Seq<u8>, n: int)
    requires
        all_white(text),
    ensures
        all_white(times(text, n)),
    decreases n,
{
    if n > 0 {
        lemma_times_white(text, n - 1);
    }
}

proof fn lemma_line_white(layout: Layout)
    requires
        adds_white_only(layout),
    ensures
        all_white(layout.line()),
{
    if let Some(indent) = layout.indent {
        lemma_times_white(indent, layout.current_indent);
    }
}

/// The text of an event is its token, spaced.
proof fn lemma_event_is_spaced(layout: Layout, event: JsonEvent)
    requires
        adds_white_only(layout),
    ensures
        is_spaced(layout.text(event), event_token(event)),
        adds_white_only(layout.after(event)),
{
    let none = Seq::<u8>::empty();
    lemma_line_white(layout);
    lemma_line_white(layout.after(event));
    lemma_white_is_spaced(none);
    match event {
        JsonEvent::Text(bytes) => {
            lemma_token_is_spaced(none, bytes, none);
            assert(none + bytes + none =~= bytes);
        },
        JsonEvent::BeginArray => {
            lemma_token_is_spaced(none, seq![0x5Bu8], none);
            assert(none + seq![0x5Bu8] + none =~= seq![0x5Bu8]);
        },
        JsonEvent::BeginObject => {
            lemma_token_is_spaced(none, seq![0x7Bu8], none);
            assert(none + seq![0x7Bu8] + none =~= seq![0x7Bu8]);
        },
        JsonEvent::EndArray => {
            let before = layout.closing(event);
            lemma_token_is_spaced(before, seq![0x5Du8], none);
            assert(before + seq![0x5Du8] + none =~= before + seq![0x5Du8]);
        },
        JsonEvent::EndObject => {
            let before = layout.closing(event);
            lemma_token_is_spaced(before, seq![0x7Du8], none);
            assert(before + seq![0x7Du8] + none =~= before + seq![0x7Du8]);
        },
        JsonEvent::BeginArrayValue(first) | JsonEvent::BeginObjectKey(first) => {
            lemma_white_is_spaced(layout.line());
            if !first {
                lemma_mark_is_spaced(layout.item_separator, 0x2C);
                let comma = seq![seq![0x2Cu8]];
                lemma_spaced_join(layout.item_separator, comma, layout.line(), seq![]);
                assert(comma + Seq::<Seq<u8>>::empty() =~= comma);
            }
        },
        JsonEvent::BeginObjectValue => {
            lemma_mark_is_spaced(layout.key_separator, 0x3A);
        },
        JsonEvent::EndArrayValue | JsonEvent::EndObjectValue => {},
    }
}

/// Indentation and separators of a comma and a colon change whitespace only: the
/// text of the events is their tokens, spaced.
pub proof fn law_layout_changes_whitespace_only(layout: Layout, events: Seq<JsonEvent>)
    requires
        adds_white_only(layout),
    ensures
        is_spaced(layout.render(events), event_tokens(events)),
    decreases events.len(),
{
    if events.len() == 0 {
        lemma_white_is_spaced(seq![]);
    } else {
        let rest = events.drop_first();
        let layout2 = layout.after(events[0]);
        lemma_event_is_spaced(layout, events[0]);
        law_layout_changes_whitespace_only(layout2, rest);
        lemma_spaced_join(
            layout.text(events[0]),
            event_token(events[0]),
            layout2.render(rest),
            event_tokens(rest),
        );
    }
}

// Text is UTF-8.

/// The bytes of the event's own text are UTF-8.
pub open spec fn event_is_text(event: JsonEvent) -> bool {
    event matches JsonEvent::Text(bytes) ==> valid_utf8(bytes)
}

/// The bytes of the events' own texts are UTF-8.
pub open spec fn events_are_text(events: Seq<JsonEvent>) -> bool {
    forall|i: int| 0 <= i < events.len() ==> event_is_text(#[trigger] events[i])
}

/// What the layout adds is UTF-8.
pub open spec fn adds_text(layout: Layout) -> bool {
    &&& valid_utf8(layout.item_separator)
    &&& valid_utf8(layout.key_separator)
    &&& layout.indent matches Some(indent) ==> valid_utf8(indent)
}

/// ASCII is UTF-8.
pub proof fn lemma_ascii_is_utf8(bytes: Seq<u8>)
    requires
        forall|i: int| 0 <= i < bytes.len() ==> #[trigger] bytes[i] < 0x80,
    ensures
        valid_utf8(bytes),
    decreases bytes.len(),
{
    if bytes.len() > 0 {
        let b = bytes[0];
        assert(b < 0x80 ==> b & 0x80 == 0 && b & 0x7F == b) by (bit_vector);
        lemma_ascii_is_utf8(bytes.drop_first());
        assert(vstd::utf8::pop_first_scalar(bytes) =~= bytes.drop_first());
    }
}

proof fn lemma_times_text(text: Seq<u8>, n: int)
    requires
        valid_utf8(text),
    ensures
        valid_utf8(times(text, n)),
    decreases n,
{
    if n > 0 {
        lemma_times_text(text, n - 1);
        vstd::utf8::valid_utf8_concat(times(text, n - 1), text);
    }
}

proof fn lemma_line_text(layout: Layout)
    requires
        adds_text(layout),
    ensures
        valid_utf8(layout.line()),
{
    if let Some(indent) = layout.indent {
        lemma_times_text(indent, layout.current_indent);
        lemma_ascii_is_utf8(seq![0x0Au8]);
        vstd::utf8::valid_utf8_concat(seq![0x0Au8], times(indent, layout.current_indent));
    }
}

/// Where all that is written is UTF-8, the text is.
pub proof fn lemma_render_text(layout: Layout, events: Seq<JsonEvent>)
    requires
        adds_text(layout),
        events_are_text(events),
    ensures
        valid_utf8(layout.render(events)),
    decreases events.len(),
{
    if events.len() > 0 {
        let event = events[0];
        let rest = events.drop_first();
        lemma_line_text(layout);
        lemma_line_text(layout.after(event));
        lemma_ascii_is_utf8(seq![0x5Bu8]);
        lemma_ascii_is_utf8(seq![0x5Du8]);
        lemma_ascii_is_utf8(seq![0x7Bu8]);
        lemma_ascii_is_utf8(seq![0x7Du8]);
        lemma_ascii_is_utf8(seq![]);
        vstd::utf8::valid_utf8_concat(layout.closing(event), seq![0x5Du8]);
        vstd::utf8::valid_utf8_concat(layout.closing(event), seq![0x7Du8]);
        vstd::utf8::valid_utf8_concat(layout.item_separator, layout.line());
        assert(event_is_text(event));
        assert(events_are_text(rest));
        lemma_render_text(layout.after(event), rest);
        vstd::utf8::valid_utf8_concat(layout.text(event), layout.after(event).render(rest));
    } else {
        lemma_ascii_is_utf8(seq![]);
    }
}

/// What is told of a JSON value is text.
pub proof fn lemma_tree_events_text(tree: JsonTree)
    ensures
        events_are_text(tree_events(tree)),
    decreases tree, 0nat,
{
    match tree {
        JsonTree::Null => lemma_ascii_is_utf8(seq![0x6Eu8, 0x75, 0x6C, 0x6C]),
        JsonTree::Bool(true) => lemma_ascii_is_utf8(seq![0x74u8, 0x72, 0x75, 0x65]),
        JsonTree::Bool(false) => lemma_ascii_is_utf8(seq![0x66u8, 0x61, 0x6C, 0x73, 0x65]),
        JsonTree::Number(n) => vstd::utf8::encode_utf8_valid_utf8(number_text(n)),
        JsonTree::String(s) => vstd::utf8::encode_utf8_valid_utf8(string_text(s)),
        JsonTree::Array(items) => lemma_item_events_text(items, items.len()),
        JsonTree::Object(entries) => lemma_entry_events_text(entries, entries.len()),
    }
}

proof fn lemma_item_events_text(items: Seq<JsonTree>, n: nat)
    ensures
        events_are_text(item_events(items, n)),
    decreases items, n,
{
    if n != 0 && n <= items.len() {
        lemma_item_events_text(items, (n - 1) as nat);
        lemma_tree_events_text(items[n - 1]);
    }
}

proof fn lemma_entry_events_text(entries: Seq<(Seq<char>, JsonTree)>, n: nat)
    ensures
        events_are_text(entry_events(entries, n)),
    decreases entries, n,
{
    if n != 0 && n <= entries.len() {
        lemma_entry_events_text(entries, (n - 1) as nat);
        lemma_tree_events_text(entries[n - 1].1);
        vstd::utf8::encode_utf8_valid_utf8(string_text(entries[n - 1].0));
    }
}

/// The compact text of a value is a JSON text of it.
pub proof fn law_compact_text_says_value(tree: JsonTree)
    ensures
        says(encode_utf8(compact_text(tree)), tree),
{
    let layout = compact_layout();
    let text = layout.render(tree_events(tree));
    let comma = layout.item_separator;
    let colon = layout.key_separator;
    assert(comma[0] == 0x2C && all_white(comma.take(0)) && all_white(comma.skip(1)));
    assert(colon[0] == 0x3A && all_white(colon.take(0)) && all_white(colon.skip(1)));
    law_layout_changes_whitespace_only(layout, tree_events(tree));
    lemma_ascii_is_utf8(comma);
    lemma_ascii_is_utf8(colon);
    lemma_tree_events_text(tree);
    lemma_render_text(layout, tree_events(tree));
    vstd::utf8::decode_utf8_encode_utf8(text);
}

// Reading back.

/// The value has no float and nests at most `levels` arrays and objects.
pub open spec fn reads_back(tree: JsonTree, levels: nat) -> bool
    decreases tree,
{
    match tree {
        JsonTree::Number(n) => !is_float(n),
        JsonTree::Array(items) => levels > 0 && forall|i: int|
            0 <= i < items.len() ==> reads_back(#[trigger] items[i], (levels - 1) as nat),
        JsonTree::Object(entries) => levels > 0 && forall|i: int|
            0 <= i < entries.len() ==> reads_back((#[trigger] entries[i]).1, (levels - 1) as nat),
        _ => true,
    }
}

/// The number of arrays and objects inside one another that a JSON reader goes
/// into.
pub const READ_LEVELS: usize = 127;

} // verus!
