//! How JSON text is laid out, value by value.

use vstd::prelude::*;
use vstd::utf8::encode_utf8;

use super::formatter::{law_render_in_parts, times, JsonEvent, Layout};
use super::json::JsonTree;
use super::json_text::{
    compact_layout, compact_text, entry_events, item_events, lemma_ascii_is_utf8,
    lemma_render_text, lemma_tree_events_text, number_text, string_text, tree_events,
};
use super::runtime::{layout_for, separators_for};

verus! {

/// What a layout adds to the text of values: what stands between items, what
/// stands between a key and its value, and one level of indentation if lines are
/// broken.
pub struct Style {
    /// Stands between items and between entries.
    pub item_separator: Seq<u8>,
    /// Stands between a key and its value.
    pub key_separator: Seq<u8>,
    /// One level of indentation, if the text is spread over lines.
    pub indent: Option<Seq<u8>>,
}

/// The style of a layout.
pub open spec fn style_of(layout: Layout) -> Style {
    Style {
        item_separator: layout.item_separator,
        key_separator: layout.key_separator,
        indent: layout.indent,
    }
}

/// A line feed, and behind it the level of indentation again and again, once for
/// each open container; nothing if lines are not broken.
pub open spec fn line_break(indent: Option<Seq<u8>>, depth: int) -> Seq<u8> {
    match indent {
        Some(level) => Seq::new(
            (1 + level.len() * depth) as nat,
            |i: int|
                if i == 0 {
                    0x0Au8
                } else {
                    level[(i - 1) % (level.len() as int)]
                },
        ),
        None => seq![],
    }
}

/// The text of a value inside `depth` open containers. A container without items
/// is its two brackets. Otherwise every item is on a line of its own, one level
/// deeper than the brackets, if lines are broken.
pub open spec fn laid_out(style: Style, depth: int, tree: JsonTree) -> Seq<u8>
    decreases tree, 0nat,
{
    match tree {
        JsonTree::Null => seq![0x6Eu8, 0x75, 0x6C, 0x6C],
        JsonTree::Bool(b) => if b {
            seq![0x74u8, 0x72, 0x75, 0x65]
        } else {
            seq![0x66u8, 0x61, 0x6C, 0x73, 0x65]
        },
        JsonTree::Number(n) => encode_utf8(number_text(n)),
        JsonTree::String(s) => encode_utf8(string_text(s)),
        JsonTree::Array(items) => if items.len() == 0 {
            seq![0x5Bu8, 0x5D]
        } else {
            seq![0x5Bu8] + laid_out_items(style, depth + 1, items, items.len()) + line_break(
                style.indent,
                depth,
            ) + seq![0x5Du8]
        },
        JsonTree::Object(entries) => if entries.len() == 0 {
            seq![0x7Bu8, 0x7D]
        } else {
            seq![0x7Bu8] + laid_out_entries(style, depth + 1, entries, entries.len()) + line_break(
                style.indent,
                depth,
            ) + seq![0x7Du8]
        },
    }
}

/// The text of the first `n` items.
pub open spec fn laid_out_items(style: Style, depth: int, items: Seq<JsonTree>, n: nat) -> Seq<u8>
    decreases items, n,
{
    if n == 0 || n > items.len() {
        seq![]
    } else if n == 1 {
        line_break(style.indent, depth) + laid_out(style, depth, items[0])
    } else {
        laid_out_items(style, depth, items, (n - 1) as nat) + style.item_separator + line_break(
            style.indent,
            depth,
        ) + laid_out(style, depth, items[n - 1])
    }
}

/// The text of the first `n` entries.
pub open spec fn laid_out_entries(
    style: Style,
    depth: int,
    entries: Seq<(Seq<char>, JsonTree)>,
    n: nat,
) -> Seq<u8>
    decreases entries, n,
{
    if n == 0 || n > entries.len() {
        seq![]
    } else {
        let (key, value) = entries[n - 1];
        let entry = line_break(style.indent, depth) + encode_utf8(string_text(key))
            + style.key_separator + laid_out(style, depth, value);
        if n == 1 {
            entry
        } else {
            laid_out_entries(style, depth, entries, (n - 1) as nat) + style.item_separator + entry
        }
    }
}

proof fn lemma_times(level: Seq<u8>, n: int)
    requires
        0 <= n,
    ensures
        times(level, n).len() == level.len() * n,
        forall|k: int|
            0 <= k < level.len() * n ==> #[trigger] times(level, n)[k] == level[k % (
            level.len() as int)],
    decreases n,
{
    let w = level.len() as int;
    if n > 0 {
        lemma_times(level, n - 1);
        assert(w * n == w * (n - 1) + w) by (nonlinear_arith);
        assert forall|k: int| 0 <= k < w * n implies #[trigger] times(level, n)[k] == level[k
            % w] by {
            if k >= w * (n - 1) {
                vstd::arithmetic::div_mod::lemma_fundamental_div_mod_converse_mod(
                    k,
                    w,
                    n - 1,
                    k - w * (n - 1),
                );
            }
        }
    } else {
        assert(w * n == 0) by (nonlinear_arith)
            requires
                n == 0,
        ;
    }
}

/// A line break is a line feed and the level of indentation once for each open
/// container.
pub proof fn law_line_breaks(layout: Layout)
    requires
        0 <= layout.current_indent,
    ensures
        layout.line() == line_break(layout.indent, layout.current_indent),
{
    if let Some(level) = layout.indent {
        let depth = layout.current_indent;
        lemma_times(level, depth);
        assert(level.len() * depth >= 0) by (nonlinear_arith)
            requires
                depth >= 0,
        ;
        assert(layout.line() =~= line_break(layout.indent, depth));
    }
}

/// With a width to indent by, one level of indentation is exactly so many blanks,
/// and a line break inside `depth` open containers is a line feed and `depth`
/// times as many; without one, lines are not broken. The text starts outside of
/// any container, with the separators that are given.
pub proof fn law_indentation_has_the_width(
    width: usize,
    separators: (Seq<u8>, Seq<u8>),
    depth: nat,
    i: int,
)
    ensures
        layout_for(Some(width), separators).indent matches Some(level) && level.len() == width && (0
            <= i < width ==> level[i] == 0x20),
        ({
            let line = line_break(layout_for(Some(width), separators).indent, depth as int);
            &&& line.len() == 1 + width * depth
            &&& line[0] == 0x0A
            &&& 1 <= i < line.len() ==> line[i] == 0x20
        }),
        layout_for(None, separators).indent is None,
        line_break(layout_for(None, separators).indent, depth as int).len() == 0,
        layout_for(Some(width), separators).current_indent == 0,
        layout_for(None, separators).current_indent == 0,
        !layout_for(Some(width), separators).has_value,
        !layout_for(None, separators).has_value,
        layout_for(Some(width), separators).item_separator == separators.0,
        layout_for(Some(width), separators).key_separator == separators.1,
        layout_for(None, separators).item_separator == separators.0,
        layout_for(None, separators).key_separator == separators.1,
{
    assert(width * depth >= 0) by (nonlinear_arith);
    if 1 <= i < 1 + width * depth {
        assert(width > 0) by (nonlinear_arith)
            requires
                0 < width * depth,
        ;
        vstd::arithmetic::div_mod::lemma_mod_bound(i - 1, width as int);
    }
}

/// Without separators, items are separated by a comma and a blank, or a comma
/// alone where lines are broken, and keys from values by a colon and a blank.
/// Two that are given are taken as they are; any other number of them is refused.
pub proof fn law_separators(given: Seq<Seq<char>>, indented: bool)
    ensures
        separators_for(None, false) == Some((seq![0x2Cu8, 0x20], seq![0x3Au8, 0x20])),
        separators_for(None, true) == Some((seq![0x2Cu8], seq![0x3Au8, 0x20])),
        given.len() == 2 ==> separators_for(Some(given), indented) == Some(
            (encode_utf8(given[0]), encode_utf8(given[1])),
        ),
        separators_for(Some(given), indented) is Some <==> given.len() == 2,
{
}

/// The layout differs at most in whether it has seen a value.
spec fn stays(before: Layout, after: Layout) -> bool {
    style_of(before) == style_of(after) && before.current_indent == after.current_indent
}

spec fn is_at(layout: Layout, depth: int, more: nat) -> bool {
    &&& 0 <= layout.current_indent
    &&& layout.indent is Some ==> layout.current_indent == depth && depth + more <= usize::MAX
}

proof fn lemma_one_event(layout: Layout, event: JsonEvent)
    ensures
        layout.render(seq![event]) == layout.text(event),
        layout.after_all(seq![event]) == layout.after(event),
{
    reveal_with_fuel(Layout::render, 2);
    reveal_with_fuel(Layout::after_all, 2);
    assert(seq![event].drop_first() =~= seq![]);
    assert(layout.render(seq![event]) =~= layout.text(event));
}

proof fn lemma_laid_out(layout: Layout, depth: int, tree: JsonTree)
    requires
        is_at(layout, depth, tree_events(tree).len()),
    ensures
        layout.render(tree_events(tree)) == laid_out(style_of(layout), depth, tree),
        stays(layout, layout.after_all(tree_events(tree))),
    decreases tree, 0nat,
{
    let style = style_of(layout);
    match tree {
        JsonTree::Array(items) => {
            let begin = seq![JsonEvent::BeginArray];
            let middle = item_events(items, items.len());
            let end = seq![JsonEvent::EndArray];
            lemma_one_event(layout, JsonEvent::BeginArray);
            let inner = layout.after(JsonEvent::BeginArray);
            lemma_laid_out_items(inner, depth + 1, items, items.len());
            let last = inner.after_all(middle);
            lemma_one_event(last, JsonEvent::EndArray);
            law_render_in_parts(layout, begin, middle);
            law_render_in_parts(layout, begin + middle, end);
            law_line_breaks(last.after(JsonEvent::EndArray));
            assert(layout.render(tree_events(tree)) =~= laid_out(style, depth, tree));
        },
        JsonTree::Object(entries) => {
            let begin = seq![JsonEvent::BeginObject];
            let middle = entry_events(entries, entries.len());
            let end = seq![JsonEvent::EndObject];
            lemma_one_event(layout, JsonEvent::BeginObject);
            let inner = layout.after(JsonEvent::BeginObject);
            lemma_laid_out_entries(inner, depth + 1, entries, entries.len());
            let last = inner.after_all(middle);
            lemma_one_event(last, JsonEvent::EndObject);
            law_render_in_parts(layout, begin, middle);
            law_render_in_parts(layout, begin + middle, end);
            law_line_breaks(last.after(JsonEvent::EndObject));
            assert(layout.render(tree_events(tree)) =~= laid_out(style, depth, tree));
        },
        _ => {
            lemma_one_event(layout, tree_events(tree)[0]);
            assert(tree_events(tree) =~= seq![tree_events(tree)[0]]);
        },
    }
}

proof fn lemma_laid_out_items(layout: Layout, depth: int, items: Seq<JsonTree>, n: nat)
    requires
        n <= items.len(),
        is_at(layout, depth, item_events(items, n).len()),
    ensures
        layout.render(item_events(items, n)) == laid_out_items(
            style_of(layout),
            depth,
            items,
            n,
        ),
        stays(layout, layout.after_all(item_events(items, n))),
        layout.after_all(item_events(items, n)).has_value == (layout.has_value || n > 0),
    decreases items, n,
{
    if n > 0 {
        let before = item_events(items, (n - 1) as nat);
        let begin = JsonEvent::BeginArrayValue(n == 1);
        let item = tree_events(items[n - 1]);
        lemma_laid_out_items(layout, depth, items, (n - 1) as nat);
        let first = layout.after_all(before);
        lemma_one_event(first, begin);
        let second = first.after(begin);
        lemma_laid_out(second, depth, items[n - 1]);
        let third = second.after_all(item);
        lemma_one_event(third, JsonEvent::EndArrayValue);
        law_render_in_parts(layout, before, seq![begin]);
        law_render_in_parts(layout, before + seq![begin], item);
        law_render_in_parts(
            layout,
            before + seq![begin] + item,
            seq![JsonEvent::EndArrayValue],
        );
        law_line_breaks(first);
        assert(layout.render(item_events(items, n)) =~= laid_out_items(
            style_of(layout),
            depth,
            items,
            n,
        ));
    }
}

proof fn lemma_laid_out_entries(
    layout: Layout,
    depth: int,
    entries: Seq<(Seq<char>, JsonTree)>,
    n: nat,
)
    requires
        n <= entries.len(),
        is_at(layout, depth, entry_events(entries, n).len()),
    ensures
        layout.render(entry_events(entries, n)) == laid_out_entries(
            style_of(layout),
            depth,
            entries,
            n,
        ),
        stays(layout, layout.after_all(entry_events(entries, n))),
        layout.after_all(entry_events(entries, n)).has_value == (layout.has_value || n > 0),
    decreases entries, n,
{
    if n > 0 {
        let before = entry_events(entries, (n - 1) as nat);
        let begin = JsonEvent::BeginObjectKey(n == 1);
        let key = JsonEvent::Text(encode_utf8(string_text(entries[n - 1].0)));
        let start = seq![begin, key, JsonEvent::BeginObjectValue];
        let item = tree_events(entries[n - 1].1);
        lemma_laid_out_entries(layout, depth, entries, (n - 1) as nat);
        let first = layout.after_all(before);
        lemma_one_event(first, begin);
        lemma_one_event(first, key);
        lemma_one_event(first, JsonEvent::BeginObjectValue);
        law_render_in_parts(first, seq![begin], seq![key]);
        law_render_in_parts(first, seq![begin] + seq![key], seq![JsonEvent::BeginObjectValue]);
        assert(start =~= seq![begin] + seq![key] + seq![JsonEvent::BeginObjectValue]);
        lemma_laid_out(first, depth, entries[n - 1].1);
        let third = first.after_all(item);
        lemma_one_event(third, JsonEvent::EndObjectValue);
        law_render_in_parts(layout, before, start);
        law_render_in_parts(layout, before + start, item);
        law_render_in_parts(layout, before + start + item, seq![JsonEvent::EndObjectValue]);
        law_line_breaks(first);
        assert(layout.render(entry_events(entries, n)) =~= laid_out_entries(
            style_of(layout),
            depth,
            entries,
            n,
        ));
    }
}

/// The JSON text of a value is laid out by its structure: the text of each part
/// stands in its place, with brackets, separators and line breaks around it.
pub proof fn law_text_is_laid_out(
    indent: Option<usize>,
    separators: (Seq<u8>, Seq<u8>),
    tree: JsonTree,
)
    requires
        indent is Some ==> tree_events(tree).len() <= usize::MAX,
    ensures
        layout_for(indent, separators).render(tree_events(tree)) == laid_out(
            Style {
                item_separator: separators.0,
                key_separator: separators.1,
                indent: match indent {
                    Some(width) => Some(Seq::new(width as nat, |i: int| 0x20u8)),
                    None => None,
                },
            },
            0,
            tree,
        ),
{
    let layout = layout_for(indent, separators);
    lemma_laid_out(layout, 0, tree);
    if let Some(width) = indent {
        law_indentation_has_the_width(width, separators, 0, 0);
        assert forall|i: int| 0 <= i < width implies #[trigger] layout.indent->0[i] == 0x20 by {
            law_indentation_has_the_width(width, separators, 0, i);
        }
        assert(layout.indent->0 =~= Seq::new(width as nat, |i: int| 0x20u8));
    }
}

/// The compact text of a value is the value laid out on one line, with a comma
/// alone and a colon alone.
pub proof fn law_compact_text_is_laid_out(tree: JsonTree)
    ensures
        encode_utf8(compact_text(tree)) == laid_out(
            Style { item_separator: seq![0x2Cu8], key_separator: seq![0x3Au8], indent: None },
            0,
            tree,
        ),
{
    let layout = compact_layout();
    let text = layout.render(tree_events(tree));
    lemma_laid_out(layout, 0, tree);
    lemma_ascii_is_utf8(seq![0x2Cu8]);
    lemma_ascii_is_utf8(seq![0x3Au8]);
    lemma_tree_events_text(tree);
    lemma_render_text(layout, tree_events(tree));
    vstd::utf8::decode_utf8_encode_utf8(text);
}

} // verus!
