//! What holds of every template whose tags were rewritten.

use vstd::prelude::*;

use super::tags::{
    block_tag, jinja_tag, jinja_template, tag_name, without_leading_dash, without_trailing_dash,
};
use crate::text::{
    first_at, is_space, law_trimmed, lemma_first_at, lemma_trimmed_part, occurs, occurs_at, trimmed,
};

verus! {

/// The tag is a generation marker.
pub open spec fn is_marker(tag: Seq<char>) -> bool {
    tag_name(tag) == "generation"@ || tag_name(tag) == "endgeneration"@
}

/// One of the tags is a generation marker.
pub open spec fn has_marker(template: Seq<char>) -> bool
    decreases template.len(),
{
    match first_at(template, "{%"@, 0) {
        None => false,
        Some(start) => match first_at(template, "%}"@, start) {
            None => false,
            Some(end) => 0 <= start <= end && end + 2 <= template.len() && (is_marker(
                template.subrange(start, end + 2),
            ) || has_marker(template.skip(end + 2))),
        },
    }
}

/// It begins and ends as tags do, and ends nowhere before.
pub open spec fn is_tag(tag: Seq<char>) -> bool {
    &&& tag.len() >= 3
    &&& tag[0] == '{'
    &&& tag[1] == '%'
    &&& occurs_at(tag, "%}"@, tag.len() - 2)
    &&& forall|j: int| j < tag.len() - 2 ==> !#[trigger] occurs_at(tag, "%}"@, j)
}

/// The block tags that markers become are tags and no markers.
proof fn lemma_block_tag(tag: Seq<char>, replacement: Seq<char>)
    requires
        replacement == "if true"@ || replacement == "endif"@,
    ensures
        is_tag(block_tag(tag, replacement)),
        !is_marker(block_tag(tag, replacement)),
{
    reveal_strlit("if true");
    reveal_strlit("endif");
    reveal_strlit("{%- ");
    reveal_strlit("{% ");
    reveal_strlit(" -%}");
    reveal_strlit(" %}");
    reveal_strlit("%}");
    reveal_strlit("generation");
    reveal_strlit("endgeneration");
    let block = block_tag(tag, replacement);
    let n = block.len() as int;
    assert(block.subrange(n - 2, n) =~= "%}"@);
    assert forall|j: int| j < n - 2 implies !#[trigger] occurs_at(block, "%}"@, j) by {
        if occurs_at(block, "%}"@, j) {
            assert(block.subrange(j, j + 2)[1] == block[j + 1]);
        }
    }
    let inner = block.subrange(2, n - 2);
    let both = without_trailing_dash(without_leading_dash(inner));
    lemma_trimmed_part(both);
}

/// A text that begins with a tag, after something without one.
proof fn lemma_tag_found(before: Seq<char>, tag: Seq<char>, rest: Seq<char>)
    requires
        is_tag(tag),
        forall|j: int| j < before.len() ==> !#[trigger] occurs_at(before + seq!['{'], "{%"@, j),
    ensures
        ({
            let text = before + tag + rest;
            let start = before.len() as int;
            let end = start + tag.len() - 2;
            &&& first_at(text, "{%"@, 0) == Some(start)
            &&& first_at(text, "%}"@, start) == Some(end)
            &&& text.take(start) == before
            &&& text.subrange(start, end + 2) == tag
            &&& text.skip(end + 2) == rest
            &&& end + 2 <= text.len()
        }),
{
    reveal_strlit("{%");
    reveal_strlit("%}");
    let text = before + tag + rest;
    let start = before.len() as int;
    let n = tag.len() as int;
    assert forall|j: int| 0 <= j < start implies !#[trigger] occurs_at(text, "{%"@, j) by {
        assert(text.subrange(j, j + 2) =~= (before + seq!['{']).subrange(j, j + 2));
        assert(!occurs_at(before + seq!['{'], "{%"@, j));
    }
    assert(text.subrange(start, start + 2) =~= "{%"@);
    lemma_first_at(text, "{%"@, 0, start);
    assert forall|j: int| start <= j < start + n - 2 implies !#[trigger] occurs_at(
        text,
        "%}"@,
        j,
    ) by {
        assert(text.subrange(j, j + 2) =~= tag.subrange(j - start, j - start + 2));
        assert(!occurs_at(tag, "%}"@, j - start));
    }
    assert(text.subrange(start + n - 2, start + n) =~= tag.subrange(n - 2, n));
    lemma_first_at(text, "%}"@, start, start + n - 2);
}

/// Before the first place of a pattern it stands nowhere.
proof fn lemma_none_before(text: Seq<char>, pattern: Seq<char>, from: int, i: int)
    requires
        first_at(text, pattern, from) == Some(i),
    ensures
        from <= i,
        occurs_at(text, pattern, i),
        forall|j: int| from <= j < i ==> !#[trigger] occurs_at(text, pattern, j),
    decreases text.len() + 1 - from,
{
    if from <= text.len() && !occurs_at(text, pattern, from) {
        lemma_none_before(text, pattern, from + 1, i);
    }
}

/// The first tag of a template is one, and nothing before it begins another.
proof fn lemma_first_tag(template: Seq<char>, start: int, end: int)
    requires
        first_at(template, "{%"@, 0) == Some(start),
        first_at(template, "%}"@, start) == Some(end),
    ensures
        0 <= start < end,
        end + 2 <= template.len(),
        is_tag(template.subrange(start, end + 2)),
        forall|j: int|
            j < start ==> !#[trigger] occurs_at(template.take(start) + seq!['{'], "{%"@, j),
{
    reveal_strlit("{%");
    reveal_strlit("%}");
    lemma_none_before(template, "{%"@, 0, start);
    lemma_none_before(template, "%}"@, start, end);
    let tag = template.subrange(start, end + 2);
    assert(template.subrange(start, start + 2)[0] == template[start]);
    assert(tag.subrange(end - start, end - start + 2) =~= template.subrange(end, end + 2));
    assert forall|j: int| j < tag.len() - 2 implies !#[trigger] occurs_at(tag, "%}"@, j) by {
        if occurs_at(tag, "%}"@, j) {
            assert(tag.subrange(j, j + 2) =~= template.subrange(start + j, start + j + 2));
            assert(occurs_at(template, "%}"@, start + j));
        }
    }
    assert forall|j: int| j < start implies !#[trigger] occurs_at(
        template.take(start) + seq!['{'],
        "{%"@,
        j,
    ) by {
        if occurs_at(template.take(start) + seq!['{'], "{%"@, j) {
            assert((template.take(start) + seq!['{']).subrange(j, j + 2) =~= template.subrange(
                j,
                j + 2,
            ));
            assert(occurs_at(template, "{%"@, j));
        }
    }
}

/// No generation marker is left in a template.
pub proof fn law_markers_are_gone(template: Seq<char>)
    ensures
        !has_marker(jinja_template(template)),
    decreases template.len(),
{
    if let Some(start) = first_at(template, "{%"@, 0) {
        if let Some(end) = first_at(template, "%}"@, start) {
            lemma_first_tag(template, start, end);
            let tag = template.subrange(start, end + 2);
            let rest = template.skip(end + 2);
            law_markers_are_gone(rest);
            lemma_block_tag(tag, "if true"@);
            lemma_block_tag(tag, "endif"@);
            lemma_tag_found(template.take(start), jinja_tag(tag), jinja_template(rest));
        }
    }
}

/// A template without generation markers is left alone.
pub proof fn law_other_templates_stay(template: Seq<char>)
    requires
        !has_marker(template),
    ensures
        jinja_template(template) == template,
    decreases template.len(),
{
    if let Some(start) = first_at(template, "{%"@, 0) {
        if let Some(end) = first_at(template, "%}"@, start) {
            lemma_first_tag(template, start, end);
            let rest = template.skip(end + 2);
            law_other_templates_stay(rest);
        }
    }
}

/// A template is rewritten tag by tag: what stands before a tag stays, the tag
/// becomes what Jinja knows it as, and what stands behind it is rewritten on its
/// own.
pub proof fn law_tag_by_tag(before: Seq<char>, tag: Seq<char>, rest: Seq<char>)
    requires
        is_tag(tag),
        forall|j: int| j < before.len() ==> !#[trigger] occurs_at(before + seq!['{'], "{%"@, j),
    ensures
        jinja_template(before + tag + rest) == before + jinja_tag(tag) + jinja_template(rest),
{
    lemma_tag_found(before, tag, rest);
}

/// What has no tag, or only one that does not end, stays as it is.
pub proof fn law_text_without_tags_stays(template: Seq<char>)
    ensures
        !occurs(template, "{%"@) ==> jinja_template(template) == template,
        !occurs(template, "%}"@) ==> jinja_template(template) == template,
{
    if let Some(start) = first_at(template, "{%"@, 0) {
        lemma_none_before(template, "{%"@, 0, start);
        if let Some(end) = first_at(template, "%}"@, start) {
            lemma_none_before(template, "%}"@, start, end);
        }
    }
}

/// The characters are whitespace.
pub open spec fn is_blank(text: Seq<char>) -> bool {
    forall|i: int| 0 <= i < text.len() ==> is_space(#[trigger] text[i])
}

/// The dash of whitespace control, or none.
pub open spec fn dash(on: bool) -> Seq<char> {
    if on {
        seq!['-']
    } else {
        seq![]
    }
}

proof fn lemma_trimmed_is_inner(left: Seq<char>, name: Seq<char>, right: Seq<char>)
    requires
        is_blank(left),
        is_blank(right),
        name.len() > 0,
        !is_space(name[0]),
        !is_space(name.last()),
    ensures
        trimmed(left + name + right) == name,
{
    let text = left + name + right;
    let at = law_trimmed(text);
    let n = trimmed(text).len() as int;
    let first = left.len() as int;
    let last = first + name.len() - 1;
    assert(text[first] == name[0]);
    assert(text[last] == name.last());
    assert(at <= first);
    assert(last < at + n);
    if at < first {
        assert(text[at] == left[at]);
        assert(trimmed(text)[0] == text[at]);
    }
    if last + 1 < at + n {
        assert(text[at + n - 1] == right[at + n - 1 - last - 1]);
        assert(trimmed(text).last() == text[at + n - 1]);
    }
    assert(trimmed(text) =~= name);
}

/// A tag with a name, whitespace around it, and dashes or none.
pub open spec fn tag_with(
    left_dash: bool,
    left: Seq<char>,
    name: Seq<char>,
    right: Seq<char>,
    right_dash: bool,
) -> Seq<char> {
    seq!['{', '%'] + (dash(left_dash) + (left + name + right) + dash(right_dash)) + seq!['%', '}']
}

proof fn lemma_name_between_dashes(left_dash: bool, body: Seq<char>, right_dash: bool)
    requires
        body.len() > 0,
        body[0] != '-',
        body.last() != '-',
    ensures
        without_trailing_dash(
            without_leading_dash(dash(left_dash) + body + dash(right_dash)),
        ) == body,
{
    let inner = dash(left_dash) + body + dash(right_dash);
    let half = body + dash(right_dash);
    assert(without_leading_dash(inner) =~= half) by {
        if left_dash {
            assert(inner.drop_first() =~= half);
        } else {
            assert(inner =~= half);
            assert(inner[0] == body[0]);
        }
    }
    if right_dash {
        assert(half.drop_last() =~= body);
    } else {
        assert(half =~= body);
    }
}

proof fn lemma_dashes(left_dash: bool, body: Seq<char>, right_dash: bool)
    requires
        body.len() > 0,
        body[0] != '-',
        body.last() != '-',
    ensures
        ({
            let tag = seq!['{', '%'] + (dash(left_dash) + body + dash(right_dash)) + seq!['%', '}'];
            &&& occurs_at(tag, "{%-"@, 0) == left_dash
            &&& occurs_at(tag, "-%}"@, tag.len() - 3) == right_dash
        }),
{
    reveal_strlit("{%-");
    reveal_strlit("-%}");
    let inner = dash(left_dash) + body + dash(right_dash);
    let tag = seq!['{', '%'] + inner + seq!['%', '}'];
    let n = tag.len() as int;
    assert(tag[2] == inner[0]);
    assert(tag[n - 3] == inner.last());
    let start = tag.subrange(0, 3);
    let end = tag.subrange(n - 3, n);
    assert(start[2] == inner[0]);
    assert(end[0] == inner.last());
    if left_dash {
        assert(start =~= "{%-"@);
    } else {
        assert(inner[0] == body[0]);
    }
    if right_dash {
        assert(end =~= "-%}"@);
    } else {
        assert(inner.last() == body.last());
    }
}

proof fn lemma_block(tag: Seq<char>, word: Seq<char>, left_dash: bool, right_dash: bool)
    requires
        occurs_at(tag, "{%-"@, 0) == left_dash,
        occurs_at(tag, "-%}"@, tag.len() - 3) == right_dash,
    ensures
        block_tag(tag, word) == tag_with(left_dash, seq![' '], word, seq![' '], right_dash),
{
    reveal_strlit("{%- ");
    reveal_strlit("{% ");
    reveal_strlit(" -%}");
    reveal_strlit(" %}");
    assert(block_tag(tag, word) =~= tag_with(left_dash, seq![' '], word, seq![' '], right_dash));
}

/// A generation marker, with whatever whitespace inside, becomes the block that is
/// always rendered, and its end the end of that block. The dashes of whitespace
/// control stay on their sides.
pub proof fn law_markers_become_blocks(
    left_dash: bool,
    left: Seq<char>,
    right: Seq<char>,
    right_dash: bool,
)
    requires
        is_blank(left),
        is_blank(right),
    ensures
        jinja_tag(tag_with(left_dash, left, "generation"@, right, right_dash)) == tag_with(
            left_dash,
            seq![' '],
            "if true"@,
            seq![' '],
            right_dash,
        ),
        jinja_tag(tag_with(left_dash, left, "endgeneration"@, right, right_dash)) == tag_with(
            left_dash,
            seq![' '],
            "endif"@,
            seq![' '],
            right_dash,
        ),
{
    reveal_strlit("generation");
    reveal_strlit("endgeneration");
    assert("generation"@.len() != "endgeneration"@.len());
    lemma_marker(left_dash, left, "generation"@, right, right_dash, "if true"@);
    lemma_marker(left_dash, left, "endgeneration"@, right, right_dash, "endif"@);
}

proof fn lemma_marker(
    left_dash: bool,
    left: Seq<char>,
    name: Seq<char>,
    right: Seq<char>,
    right_dash: bool,
    word: Seq<char>,
)
    requires
        is_blank(left),
        is_blank(right),
        name.len() > 0,
        'a' <= name[0] <= 'z',
        'a' <= name.last() <= 'z',
    ensures
        tag_name(tag_with(left_dash, left, name, right, right_dash)) == name,
        block_tag(tag_with(left_dash, left, name, right, right_dash), word) == tag_with(
            left_dash,
            seq![' '],
            word,
            seq![' '],
            right_dash,
        ),
{
    let body = left + name + right;
    let tag = tag_with(left_dash, left, name, right, right_dash);
    assert(body[0] == if left.len() > 0 {
        left[0]
    } else {
        name[0]
    });
    assert(body.last() == if right.len() > 0 {
        right.last()
    } else {
        name.last()
    });
    assert(tag.subrange(2, tag.len() - 2) =~= dash(left_dash) + body + dash(right_dash));
    lemma_name_between_dashes(left_dash, body, right_dash);
    lemma_trimmed_is_inner(left, name, right);
    lemma_dashes(left_dash, body, right_dash);
    lemma_block(tag, word, left_dash, right_dash);
}

/// Only a generation marker or its end is changed: a tag that changes has one of
/// the two words inside, with nothing but whitespace and the dashes of whitespace
/// control around it.
pub proof fn law_only_markers_change(tag: Seq<char>)
    requires
        jinja_tag(tag) != tag,
    ensures
        tag.len() >= 4,
        ({
            let inner = tag.subrange(2, tag.len() - 2);
            exists|left_dash: bool, left: Seq<char>, name: Seq<char>, right: Seq<char>, right_dash: bool|
                {
                    &&& inner == #[trigger] (dash(left_dash) + left + name + right + dash(
                        right_dash,
                    ))
                    &&& name == "generation"@ || name == "endgeneration"@
                    &&& is_blank(left)
                    &&& is_blank(right)
                }
        }),
{
    reveal_strlit("generation");
    reveal_strlit("endgeneration");
    if tag.len() < 4 {
        let none = Seq::<char>::empty();
        let at = law_trimmed(none);
        assert(without_trailing_dash(without_leading_dash(none)) =~= none);
        assert(trimmed(none).len() == 0);
    }
    let inner = tag.subrange(2, tag.len() - 2);
    let half = without_leading_dash(inner);
    let body = without_trailing_dash(half);
    let name = trimmed(body);
    let at = law_trimmed(body);
    let left = body.take(at);
    let right = body.skip(at + name.len());
    let left_dash = inner.len() > 0 && inner[0] == '-';
    let right_dash = half.len() > 0 && half.last() == '-';
    assert(body =~= left + name + right);
    assert(half =~= body + dash(right_dash));
    assert(inner =~= dash(left_dash) + half);
    assert(inner =~= dash(left_dash) + left + name + right + dash(right_dash));
}

} // verus!
