//! Tags that HuggingFace templates have beside those of Jinja.

use vstd::prelude::*;

use crate::text::{
    chars_of, find, first_at, lemma_first_at_skip, matches_at, occurs_at, push_range, str_eq,
    text_of, trim, trimmed,
};

verus! {

/// The text without a `-` at its start.
pub open spec fn without_leading_dash(text: Seq<char>) -> Seq<char> {
    if text.len() > 0 && text[0] == '-' {
        text.drop_first()
    } else {
        text
    }
}

/// The text without a `-` at its end.
pub open spec fn without_trailing_dash(text: Seq<char>) -> Seq<char> {
    if text.len() > 0 && text.last() == '-' {
        text.drop_last()
    } else {
        text
    }
}

/// What stands between `{%` and `%}`, without the dashes of whitespace control
/// and the whitespace around it.
pub open spec fn tag_name(tag: Seq<char>) -> Seq<char> {
    let inner = if tag.len() >= 4 {
        tag.subrange(2, tag.len() - 2)
    } else {
        seq![]
    };
    trimmed(without_trailing_dash(without_leading_dash(inner)))
}

/// A block tag with the whitespace control of another tag.
pub open spec fn block_tag(tag: Seq<char>, replacement: Seq<char>) -> Seq<char> {
    let left = if occurs_at(tag, "{%-"@, 0) {
        "{%- "@
    } else {
        "{% "@
    };
    let right = if occurs_at(tag, "-%}"@, tag.len() - 3) {
        " -%}"@
    } else {
        " %}"@
    };
    left + replacement + right
}

/// A tag as Jinja knows it: generation markers become a block that is always
/// rendered, other tags stay.
pub open spec fn jinja_tag(tag: Seq<char>) -> Seq<char> {
    if tag_name(tag) == "generation"@ {
        block_tag(tag, "if true"@)
    } else if tag_name(tag) == "endgeneration"@ {
        block_tag(tag, "endif"@)
    } else {
        tag
    }
}

/// The template with every tag as Jinja knows it. A tag goes from `{%` to the
/// first `%}` after it; one that does not end is left alone.
pub open spec fn jinja_template(template: Seq<char>) -> Seq<char>
    decreases template.len(),
{
    match first_at(template, "{%"@, 0) {
        None => template,
        Some(start) => match first_at(template, "%}"@, start) {
            None => template,
            Some(end) => if 0 <= start <= end && end + 2 <= template.len() {
                template.take(start) + jinja_tag(template.subrange(start, end + 2))
                    + jinja_template(template.skip(end + 2))
            } else {
                template
            },
        },
    }
}

/// A block tag with the whitespace control of another tag.
pub fn rewrite_block_tag(tag: &str, replacement: &str) -> (block: String)
    ensures
        block@ == block_tag(tag@, replacement@),
{
    let chars = chars_of(tag);
    let n: usize = chars.len();
    let left_trim: bool = matches_at(&chars, &chars_of("{%-"), 0);
    let right_trim: bool = n >= 3 && matches_at(&chars, &chars_of("-%}"), n - 3);
    let mut block = String::new();
    block.append(
        if left_trim {
            "{%- "
        } else {
            "{% "
        },
    );
    block.append(replacement);
    block.append(
        if right_trim {
            " -%}"
        } else {
            " %}"
        },
    );
    block
}

/// The name of the tag at `start..end`: see [`tag_name`].
fn name_of_tag(chars: &Vec<char>, start: usize, end: usize) -> (name: String)
    requires
        start <= end <= chars.len(),
    ensures
        name@ == tag_name(chars@.subrange(start as int, end as int)),
{
    if end - start < 4 {
        return String::new();
    }
    let ghost tag = chars@.subrange(start as int, end as int);
    let mut s: usize = start + 2;
    let mut e: usize = end - 2;
    assert(tag.subrange(2, tag.len() - 2) =~= chars@.subrange(s as int, e as int));
    let ghost inner = chars@.subrange(s as int, e as int);
    if s < e && chars[s] == '-' {
        assert(inner.drop_first() =~= chars@.subrange(s + 1, e as int));
        s += 1;
    }
    let ghost left = chars@.subrange(s as int, e as int);
    if s < e && chars[e - 1] == '-' {
        assert(left.drop_last() =~= chars@.subrange(s as int, e - 1));
        e -= 1;
    }
    let (a, b): (usize, usize) = trim(chars, s, e);
    text_of(chars, a, b)
}

/// Rewrites the generation markers of HuggingFace templates, which Jinja does
/// not know, into blocks that are always rendered.
#[verifier::rlimit(40)]
pub fn strip_known_non_jinja_tags(template: &str) -> (stripped: String)
    ensures
        stripped@ == jinja_template(template@),
{
    let chars = chars_of(template);
    let open = chars_of("{%");
    let close = chars_of("%}");
    proof {
        reveal_strlit("{%");
        reveal_strlit("%}");
    }
    let mut stripped = String::new();
    let mut pos: usize = 0;
    assert(template@.skip(0) =~= template@);
    loop
        invariant
            chars@ == template@,
            open@ == "{%"@,
            close@ == "%}"@,
            close@.len() == 2,
            pos <= chars.len(),
            stripped@ + jinja_template(chars@.skip(pos as int)) == jinja_template(template@),
        decreases chars.len() - pos,
    {
        let ghost rest = chars@.skip(pos as int);
        proof {
            lemma_first_at_skip(chars@, open@, pos as int, 0);
        }
        let start: usize = match find(&chars, &open, pos) {
            Some(start) => start,
            None => {
                push_range(&mut stripped, &chars, pos, chars.len());
                return stripped;
            },
        };
        proof {
            lemma_first_at_skip(chars@, close@, pos as int, start - pos);
        }
        let end: usize = match find(&chars, &close, start) {
            Some(end) => end,
            None => {
                push_range(&mut stripped, &chars, pos, chars.len());
                return stripped;
            },
        };
        let ghost before = stripped@;
        let tag = text_of(&chars, start, end + 2);
        let name = name_of_tag(&chars, start, end + 2);
        push_range(&mut stripped, &chars, pos, start);
        if str_eq(name.as_str(), "generation") {
            stripped.append(rewrite_block_tag(tag.as_str(), "if true").as_str());
        } else if str_eq(name.as_str(), "endgeneration") {
            stripped.append(rewrite_block_tag(tag.as_str(), "endif").as_str());
        } else {
            stripped.append(tag.as_str());
        }
        proof {
            let s = start - pos;
            let e = end - pos;
            assert(rest.subrange(s, e + 2) =~= tag@);
            assert(rest.skip(e + 2) =~= chars@.skip(end + 2));
            assert(stripped@ =~= before + rest.take(s) + jinja_tag(tag@));
        }
        pos = end + 2;
    }
}

} // verus!
