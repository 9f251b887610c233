//! Continuing the final message of a conversation: a tag is put behind it
//! before the template is rendered, and the rendered text is cut at the tag.

use vstd::prelude::*;

use super::arguments::{refused, CallError, Complaint};
use crate::chat_template::json::{inserted, lemma_tree, lookup, trees, Json, JsonTree};
use crate::text::{
    chars_of, contains, lemma_trimmed_part, matches_at, occurs, occurs_at, rfind, text_of, trim,
    trim_end, trimmed, trimmed_end,
};

verus! {

/// Marks the end of the message to continue.
pub const CONTINUE_FINAL_MESSAGE_TAG: &'static str = "CONTINUE_FINAL_MESSAGE_TAG ";

/// The tag without its space, which templates may trim.
pub const CONTINUE_FINAL_MESSAGE_MARK: &'static str = "CONTINUE_FINAL_MESSAGE_TAG";

/// Why a final message cannot be continued.
#[derive(Clone, Copy)]
pub enum ContinueProblem {
    /// There is no final message.
    NoMessage,
    /// The final message does not have the field.
    NoField,
    /// The field is a list without any text.
    NoText,
    /// The field is neither text nor a list.
    NotText,
}

impl ContinueProblem {
    /// What the caller is told.
    pub open spec fn complaint(self, field: Seq<char>) -> Complaint {
        Complaint::Value(
            match self {
                ContinueProblem::NoMessage =>
                    "continue_final_message requires a non-empty message list"@,
                ContinueProblem::NoField =>
                    "continue_final_message is set but the final message has no \""@ + field
                        + "\" to continue"@,
                ContinueProblem::NoText =>
                    "continue_final_message is set but we could not find any text to continue in the final message"@,
                ContinueProblem::NotText =>
                    "continue_final_message is set but final message field \""@ + field
                        + "\" is not a string or text block list"@,
            },
        )
    }

    fn error(self, field: &str) -> (error: CallError)
        ensures
            error@ == self.complaint(field@),
    {
        let message = match self {
            ContinueProblem::NoMessage =>
                "continue_final_message requires a non-empty message list".to_owned(),
            ContinueProblem::NoField => {
                let mut message =
                    "continue_final_message is set but the final message has no \"".to_owned();
                message.append(field);
                message.append("\" to continue");
                message
            },
            ContinueProblem::NoText =>
                "continue_final_message is set but we could not find any text to continue in the final message".to_owned(),
            ContinueProblem::NotText => {
                let mut message =
                    "continue_final_message is set but final message field \"".to_owned();
                message.append(field);
                message.append("\" is not a string or text block list");
                message
            },
        };
        CallError::Value(message)
    }
}

/// The text with the tag behind it.
pub open spec fn tagged(text: Seq<char>) -> Seq<char> {
    text + CONTINUE_FINAL_MESSAGE_TAG@
}

/// The text of a block of a message, if it has one.
pub open spec fn block_text(block: JsonTree) -> Option<Seq<char>> {
    match block {
        JsonTree::Object(entries) => match lookup(entries, "text"@) {
            Some(JsonTree::String(text)) => Some(text),
            _ => None,
        },
        _ => None,
    }
}

/// A block with another text.
pub open spec fn with_text(block: JsonTree, text: Seq<char>) -> JsonTree {
    match block {
        JsonTree::Object(entries) => JsonTree::Object(
            inserted(entries, "text"@, JsonTree::String(text)),
        ),
        _ => block,
    }
}

/// The last block that has a text.
pub open spec fn last_text(blocks: Seq<JsonTree>) -> Option<int>
    decreases blocks.len(),
{
    if blocks.len() == 0 {
        None
    } else if block_text(blocks.last()) is Some {
        Some(blocks.len() - 1)
    } else {
        last_text(blocks.drop_last())
    }
}

/// The field of a message with the tag behind its text, and the text.
pub open spec fn continue_field(value: JsonTree) -> Result<
    (JsonTree, Seq<char>),
    ContinueProblem,
> {
    match value {
        JsonTree::String(text) => Ok((JsonTree::String(tagged(text)), text)),
        JsonTree::Array(blocks) => match last_text(blocks) {
            Some(i) => {
                let text = block_text(blocks[i])->0;
                Ok((JsonTree::Array(blocks.update(i, with_text(blocks[i], tagged(text)))), text))
            },
            None => Err(ContinueProblem::NoText),
        },
        _ => Err(ContinueProblem::NotText),
    }
}

/// The messages with the tag behind the text of the final one, and the text.
pub open spec fn continue_messages(messages: JsonTree, field: Seq<char>) -> Result<
    (JsonTree, Seq<char>),
    ContinueProblem,
> {
    match messages {
        JsonTree::Array(items) => if items.len() > 0 {
            match items.last() {
                JsonTree::Object(entries) => match lookup(entries, field) {
                    Some(value) => match continue_field(value) {
                        Ok((value, text)) => Ok(
                            (
                                JsonTree::Array(
                                    items.update(
                                        items.len() - 1,
                                        JsonTree::Object(inserted(entries, field, value)),
                                    ),
                                ),
                                text,
                            ),
                        ),
                        Err(problem) => Err(problem),
                    },
                    None => Err(ContinueProblem::NoField),
                },
                _ => Err(ContinueProblem::NoMessage),
            }
        } else {
            Err(ContinueProblem::NoMessage)
        },
        _ => Err(ContinueProblem::NoMessage),
    }
}

/// Both are lists of as many messages, at least one, and all but the last are the
/// same.
pub open spec fn only_last_changes(before: JsonTree, after: JsonTree) -> bool {
    &&& before is Array
    &&& after is Array
    &&& 0 < before->Array_0.len() == after->Array_0.len()
    &&& forall|i: int|
        0 <= i < before->Array_0.len() - 1 ==> #[trigger] after->Array_0[i] == before->Array_0[i]
}

fn text_of_block(block: &Json) -> (text: Option<String>)
    ensures
        match text {
            Some(s) => block_text(block@) == Some(s@),
            None => block_text(block@) is None,
        },
{
    broadcast use lemma_tree;

    match block {
        Json::Object(map) => match map.get("text") {
            Some(Json::String(text)) => Some(text.clone()),
            Some(_) => None,
            None => None,
        },
        _ => None,
    }
}

fn add_tag(text: &str) -> (r: String)
    ensures
        r@ == tagged(text@),
{
    let mut r = text.to_owned();
    r.append(CONTINUE_FINAL_MESSAGE_TAG);
    r
}

fn block_with_text(block: &Json, text: String) -> (r: Json)
    ensures
        r@ == with_text(block@, text@),
{
    broadcast use lemma_tree;

    match block {
        Json::Object(map) => {
            let mut map = map.clone();
            map.insert("text".to_owned(), Json::String(text));
            Json::Object(map)
        },
        other => other.clone(),
    }
}

fn last_text_block(blocks: &Vec<Json>) -> (at: Option<usize>)
    ensures
        match at {
            Some(i) => last_text(trees(blocks@)) == Some(i as int) && i < blocks.len()
                && block_text(blocks@[i as int]@) is Some,
            None => last_text(trees(blocks@)) is None,
        },
{
    let ghost all = trees(blocks@);
    let mut n: usize = blocks.len();
    assert(all.take(n as int) =~= all);
    while n > 0
        invariant
            n <= blocks.len(),
            all == trees(blocks@),
            last_text(all.take(n as int)) == last_text(all),
        decreases n,
    {
        proof {
            assert(all.take(n as int).drop_last() =~= all.take(n - 1));
        }
        if text_of_block(&blocks[n - 1]).is_some() {
            return Some(n - 1);
        }
        n -= 1;
    }
    None
}

/// Puts the tag behind the text of a field and gives the text; a field without
/// text stays as it is.
fn tag_field(value: &mut Json) -> (r: Result<String, ContinueProblem>)
    ensures
        match continue_field(old(value)@) {
            Ok((after, text)) => final(value)@ == after && (r matches Ok(s) && s@ == text),
            Err(problem) => final(value)@ == old(value)@ && r == Err::<String, ContinueProblem>(
                problem,
            ),
        },
{
    broadcast use lemma_tree;

    let mut taken = Json::Null;
    std::mem::swap(&mut taken, value);
    match taken {
        Json::String(text) => {
            *value = Json::String(add_tag(text.as_str()));
            Ok(text)
        },
        Json::Array(blocks) => {
            let mut blocks = blocks;
            let ghost all = trees(blocks@);
            if let Some(i) = last_text_block(&blocks) {
                if let Some(text) = text_of_block(&blocks[i]) {
                    let block = block_with_text(&blocks[i], add_tag(text.as_str()));
                    let ghost tree = block@;
                    blocks.set(i, block);
                    assert(trees(blocks@) =~= all.update(i as int, tree));
                    *value = Json::Array(blocks);
                    return Ok(text);
                }
            }
            *value = Json::Array(blocks);
            Err(ContinueProblem::NoText)
        },
        other => {
            *value = other;
            Err(ContinueProblem::NotText)
        },
    }
}

/// Puts the tag behind the text of the final message and gives the text;
/// messages that cannot be continued stay as they are.
fn tag_messages(messages: &mut Json, field: &str) -> (r: Result<String, ContinueProblem>)
    ensures
        match continue_messages(old(messages)@, field@) {
            Ok((after, text)) => final(messages)@ == after && (r matches Ok(s) && s@ == text),
            Err(problem) => final(messages)@ == old(messages)@ && r == Err::<
                String,
                ContinueProblem,
            >(problem),
        },
        r is Err ==> final(messages)@ == old(messages)@,
        r is Ok ==> only_last_changes(old(messages)@, final(messages)@),
{
    broadcast use lemma_tree;

    let mut taken = Json::Null;
    std::mem::swap(&mut taken, messages);
    match taken {
        Json::Array(items) => {
            let mut items = items;
            let ghost all = trees(items@);
            match items.pop() {
                Some(Json::Object(map)) => {
                    let mut map = map;
                    let ghost entries = map@;
                    let outcome = match map.get(field) {
                        Some(value) => {
                            let mut value = value.clone();
                            let outcome = tag_field(&mut value);
                            if outcome.is_ok() {
                                map.insert(field.to_owned(), value);
                            }
                            outcome
                        },
                        None => Err(ContinueProblem::NoField),
                    };
                    let ghost after = map@;
                    items.push(Json::Object(map));
                    assert(trees(items@) =~= all.update(
                        all.len() - 1,
                        JsonTree::Object(after),
                    ));
                    assert(after == entries ==> trees(items@) =~= all);
                    *messages = Json::Array(items);
                    outcome
                },
                Some(other) => {
                    items.push(other);
                    assert(trees(items@) =~= all);
                    *messages = Json::Array(items);
                    Err(ContinueProblem::NoMessage)
                },
                None => {
                    *messages = Json::Array(items);
                    Err(ContinueProblem::NoMessage)
                },
            }
        },
        other => {
            *messages = other;
            Err(ContinueProblem::NoMessage)
        },
    }
}

/// What the caller is told of a field that the template does not mention.
pub open spec fn field_not_accepted(field: Seq<char>) -> Complaint {
    Complaint::Value(
        "continue_final_message is set to \""@ + field
            + "\" but this is not an accepted field in the chat_template"@,
    )
}

/// Puts the tag behind the text of the final message, in the field that is to be
/// continued, and gives the text. The template has to mention the field.
pub fn prepare_continue_final_message(
    messages: &mut Json,
    field: &str,
    chat_template: &str,
) -> (r: Result<String, CallError>)
    ensures
        if !occurs(chat_template@, field@) {
            final(messages)@ == old(messages)@ && refused(r, field_not_accepted(field@))
        } else {
            match continue_messages(old(messages)@, field@) {
                Ok((after, text)) => final(messages)@ == after && (r matches Ok(s) && s@ == text),
                Err(problem) => final(messages)@ == old(messages)@ && refused(
                    r,
                    problem.complaint(field@),
                ),
            }
        },
        r is Err ==> final(messages)@ == old(messages)@,
        r is Ok ==> occurs(chat_template@, field@),
        r is Ok ==> only_last_changes(old(messages)@, final(messages)@),
{
    if !contains(&chars_of(chat_template), &chars_of(field)) {
        let mut message = "continue_final_message is set to \"".to_owned();
        message.append(field);
        message.append("\" but this is not an accepted field in the chat_template");
        return Err(CallError::Value(message));
    }
    match tag_messages(messages, field) {
        Ok(text) => Ok(text),
        Err(problem) => Err(problem.error(field)),
    }
}

/// At most `max` characters of a text; dots stand for the others.
pub open spec fn shortened(text: Seq<char>, max: int) -> Seq<char> {
    if text.len() > max {
        text.take(max) + "..."@
    } else {
        text
    }
}

/// At most `max_chars` characters of a text; dots stand for the others.
pub fn truncate_for_error(value: &str, max_chars: usize) -> (r: String)
    ensures
        r@ == shortened(value@, max_chars as int),
{
    let chars = chars_of(value);
    if chars.len() > max_chars {
        let mut r = text_of(&chars, 0, max_chars);
        r.append("...");
        r
    } else {
        value.to_owned()
    }
}

/// The last offset at which a pattern stands.
pub open spec fn is_last_at(text: Seq<char>, pattern: Seq<char>, i: int) -> bool {
    occurs_at(text, pattern, i) && forall|j: int| i < j ==> !#[trigger] occurs_at(text, pattern, j)
}

/// What the caller is told if the final message is not in the rendered text.
pub open spec fn not_rendered(rendered: Seq<char>, final_message: Seq<char>) -> Seq<char> {
    "continue_final_message is set but the final message does not appear in the chat after applying the chat template. Final message to continue: "@
        + shortened(final_message, 512) + "\nRendered chat:\n"@ + shortened(rendered, 4096)
}

/// The rendered text up to its last tag. Where the template trimmed the space of
/// the tag, the whitespace before the tag is trimmed too.
pub open spec fn is_cut(rendered: Seq<char>, cut: Seq<char>) -> bool {
    exists|at: int| #[trigger]
        is_last_at(rendered, CONTINUE_FINAL_MESSAGE_MARK@, at) && cut == if occurs_at(
            rendered,
            CONTINUE_FINAL_MESSAGE_TAG@,
            at,
        ) {
            rendered.take(at)
        } else {
            trimmed_end(rendered.take(at))
        }
}

/// Cuts the rendered text where the final message is to be continued. Both the
/// message and the tag have to be in it.
pub fn trim_continue_final_message(
    rendered: String,
    final_message: &str,
) -> (r: Result<String, String>)
    ensures
        match r {
            Ok(cut) => {
                &&& occurs(rendered@, trimmed(final_message@))
                &&& is_cut(rendered@, cut@)
            },
            Err(message) => {
                &&& !occurs(rendered@, trimmed(final_message@)) || !occurs(
                    rendered@,
                    CONTINUE_FINAL_MESSAGE_MARK@,
                )
                &&& message@ == not_rendered(rendered@, trimmed(final_message@))
            },
        },
{
    let text = chars_of(rendered.as_str());
    let message = chars_of(final_message);
    let (start, end): (usize, usize) = trim(&message, 0, message.len());
    assert(message@.subrange(0, message.len() as int) =~= final_message@);
    let wanted = text_of(&message, start, end);
    let mark = chars_of(CONTINUE_FINAL_MESSAGE_MARK);
    let has_message: bool = contains(&text, &chars_of(wanted.as_str()));
    let at: Option<usize> = rfind(&text, &mark);
    match at {
        Some(at) if has_message => {
            assert(is_last_at(rendered@, CONTINUE_FINAL_MESSAGE_MARK@, at as int));
            if matches_at(&text, &chars_of(CONTINUE_FINAL_MESSAGE_TAG), at) {
                let cut = text_of(&text, 0, at);
                Ok(cut)
            } else {
                let cut_end: usize = trim_end(&text, 0, at);
                let cut = text_of(&text, 0, cut_end);
                Ok(cut)
            }
        },
        _ => {
            let mut complaint =
                "continue_final_message is set but the final message does not appear in the chat after applying the chat template. Final message to continue: ".to_owned();
            complaint.append(truncate_for_error(wanted.as_str(), 512).as_str());
            complaint.append("\nRendered chat:\n");
            complaint.append(truncate_for_error(rendered.as_str(), 4096).as_str());
            Err(complaint)
        },
    }
}

/// A template that renders the tagged final message, whatever it puts before
/// and after it, is cut right after the message: the result ends with the text
/// to continue. (What it puts after it must not hold the tag again.)
pub proof fn law_cut_ends_with_message(
    before: Seq<char>,
    text: Seq<char>,
    after: Seq<char>,
    cut: Seq<char>,
)
    requires
        is_last_at(
            before + tagged(text) + after,
            CONTINUE_FINAL_MESSAGE_MARK@,
            (before + text).len() as int,
        ),
        is_cut(before + tagged(text) + after, cut),
    ensures
        occurs(before + tagged(text) + after, trimmed(text)),
        cut == before + text,
{
    let rendered = before + tagged(text) + after;
    let n = (before + text).len() as int;
    let tag = CONTINUE_FINAL_MESSAGE_TAG@;
    let p = lemma_trimmed_part(text);
    assert(rendered.subrange(
        before.len() + p,
        before.len() + p + trimmed(text).len() as int,
    ) =~= text.subrange(p, p + trimmed(text).len() as int));
    assert(occurs_at(rendered, trimmed(text), before.len() + p));
    assert(rendered.subrange(n, n + tag.len() as int) =~= tag);
    let at = choose|at: int| #[trigger]
        is_last_at(rendered, CONTINUE_FINAL_MESSAGE_MARK@, at) && cut == if occurs_at(
            rendered,
            tag,
            at,
        ) {
            rendered.take(at)
        } else {
            trimmed_end(rendered.take(at))
        };
}

/// A template that trims the space of the tag has trimmed what stands before it
/// too: the result is cut right after the message without the whitespace at its
/// end.
pub proof fn law_trimmed_cut_ends_with_message(
    before: Seq<char>,
    text: Seq<char>,
    after: Seq<char>,
    cut: Seq<char>,
)
    requires
        is_last_at(
            before + text + CONTINUE_FINAL_MESSAGE_MARK@ + after,
            CONTINUE_FINAL_MESSAGE_MARK@,
            (before + text).len() as int,
        ),
        !(CONTINUE_FINAL_MESSAGE_TAG@).is_prefix_of(CONTINUE_FINAL_MESSAGE_MARK@ + after),
        is_cut(before + text + CONTINUE_FINAL_MESSAGE_MARK@ + after, cut),
    ensures
        cut == trimmed_end(before + text),
{
    let rendered = before + text + CONTINUE_FINAL_MESSAGE_MARK@ + after;
    let n = (before + text).len() as int;
    let tag = CONTINUE_FINAL_MESSAGE_TAG@;
    if occurs_at(rendered, tag, n) {
        assert(tag =~= (CONTINUE_FINAL_MESSAGE_MARK@ + after).subrange(0, tag.len() as int));
    }
    assert(rendered.take(n) =~= before + text);
    let at = choose|at: int| #[trigger]
        is_last_at(rendered, CONTINUE_FINAL_MESSAGE_MARK@, at) && cut == if occurs_at(
            rendered,
            tag,
            at,
        ) {
            rendered.take(at)
        } else {
            trimmed_end(rendered.take(at))
        };
}

} // verus!
