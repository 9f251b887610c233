//! What holds of every call: what becomes of the messages, of the arguments and
//! of the rendered text.

use vstd::prelude::*;

use super::argument_laws::{
    is_for_tokenizing, law_arguments_without_tokenizing, law_order_of_own_parameters,
};
use super::arguments::{
    bool_argument, render_only, CallError, ChatTemplateCallError, Complaint, ContinueArgument,
};
use super::call::{
    checked, dictionary_complaint, dictionary_entries, finished, value_complaint, ChatCallArguments,
    PreparedChatTemplateCall, PreparedMessages,
};
use super::continuation::{
    block_text, continue_field, continue_messages, is_cut, is_last_at, last_text, shortened,
    ContinueProblem, CONTINUE_FINAL_MESSAGE_MARK, CONTINUE_FINAL_MESSAGE_TAG,
};
use super::state::{ascending_texts, refusal, ChatTemplateState};
use crate::chat_template::convert::value_of;
use crate::chat_template::json::{
    has_key, key_at, keys_distinct, last_value, law_lookup_after_extend, law_lookup_after_insert,
    law_lookup_after_remove, lookup, position, Json, JsonTree,
};
use crate::chat_template::outside::{error_text, rendered, undeclared_names};
use crate::chat_template::renderer::{chat_settings, renders, syntax_error, TemplateError};
use crate::chat_template::tags::jinja_template;
use crate::text::{
    is_space, law_text_order, law_trimmed_end, occurs, occurs_at, text_before, trimmed, trimmed_end,
};

verus! {

/// Without a message to continue, a call gives the rendered text as it is,
/// character for character, or the message of the error.
pub proof fn law_rendered_text_is_given(
    rendered: Result<String, TemplateError>,
    r: Result<String, ChatTemplateCallError>,
)
    requires
        finished(rendered, None, r),
    ensures
        rendered matches Ok(text) ==> r matches Ok(s) && s@ == text@,
        rendered matches Err(e) ==> r matches Err(ChatTemplateCallError::Render(message))
            && message@ == e.message@,
{
}

/// A failed rendering gives the message of its error, whether a message was to
/// be continued or not.
pub proof fn law_failed_rendering_is_told(
    error: TemplateError,
    continuation: Option<String>,
    r: Result<String, ChatTemplateCallError>,
)
    requires
        finished(Err(error), continuation, r),
    ensures
        r matches Err(ChatTemplateCallError::Render(message)) && message@ == error.message@,
{
}

/// A call without a message to continue gives exactly what the engine renders of
/// the template with the call's context at some moment.
pub proof fn law_call_gives_what_is_rendered(
    call: PreparedChatTemplateCall,
    source: Seq<char>,
    r: Result<String, ChatTemplateCallError>,
)
    requires
        call.continuation is None,
        call.gives(source, r),
    ensures
        r matches Ok(s) ==> exists|moment: int|
            #[trigger] rendered(chat_settings(source), "chat"@, call.context(), moment) == Ok::<
                Seq<char>,
                minijinja::Error,
            >(s@),
        r matches Err(ChatTemplateCallError::Render(message)) ==> exists|moment: int|
            (#[trigger] rendered(
                chat_settings(source),
                "chat"@,
                call.context(),
                moment,
            ) matches Err(error) && message@ == error_text(error)),
{
    if !(r matches Err(ChatTemplateCallError::UnknownKwarg(_))) {
        let out = choose|out: Result<String, TemplateError>| #[trigger]
            renders(source, call.context(), out) && finished(out, call.continuation, r);
        let moment = choose|moment: int|
            match #[trigger] rendered(chat_settings(source), "chat"@, call.context(), moment) {
                Ok(text) => out matches Ok(s) && s@ == text,
                Err(error) => out matches Err(e) && e.tells(error),
            };
    }
}

/// A strict call refuses an argument that the template does not read, and no
/// call refuses one that it reads.
pub proof fn law_unknown_arguments_are_refused(
    call: PreparedChatTemplateCall,
    source: Seq<char>,
    r: Result<String, ChatTemplateCallError>,
    i: int,
)
    requires
        call.gives(source, r),
        0 <= i < call.options.extra_context@.len(),
    ensures
        call.strict_template && !undeclared_names(source).contains(
            call.options.extra_context@[i].0,
        ) ==> r matches Err(ChatTemplateCallError::UnknownKwarg(_)),
        r matches Err(ChatTemplateCallError::UnknownKwarg(_)) ==> call.strict_template && exists|
            j: int,
        |
            0 <= j < call.options.extra_context@.len() && !undeclared_names(source).contains(
                (#[trigger] call.options.extra_context@[j]).0,
            ),
{
}

/// A message to continue has to be in the rendered text, and so has its mark;
/// only then there is a result.
pub proof fn law_continued_message_has_to_be_rendered(
    rendered: String,
    wanted: String,
    r: Result<String, ChatTemplateCallError>,
)
    requires
        finished(Ok(rendered), Some(wanted), r),
    ensures
        r is Ok <==> occurs(rendered@, trimmed(wanted@)) && occurs(
            rendered@,
            "CONTINUE_FINAL_MESSAGE_TAG"@,
        ),
        r matches Ok(cut) ==> is_cut(rendered@, cut@),
        r matches Err(error) ==> error is Render,
{
}

/// The text of a call that continues a message is the rendered text up to the
/// last mark. Behind a mark with its blank nothing more is taken off; before a
/// mark without it the whitespace is, all of it and nothing else.
pub proof fn law_text_ends_at_the_last_mark(text: Seq<char>, cut: Seq<char>) -> (at: int)
    requires
        is_cut(text, cut),
    ensures
        occurs_at(text, "CONTINUE_FINAL_MESSAGE_TAG"@, at),
        forall|j: int| at < j ==> !#[trigger] occurs_at(text, "CONTINUE_FINAL_MESSAGE_TAG"@, j),
        cut.len() <= at,
        cut == text.take(cut.len() as int),
        occurs_at(text, "CONTINUE_FINAL_MESSAGE_TAG "@, at) ==> cut.len() == at,
        !occurs_at(text, "CONTINUE_FINAL_MESSAGE_TAG "@, at) && cut.len() > 0 ==> !is_space(
            cut.last(),
        ),
        forall|i: int| cut.len() <= i < at ==> is_space(#[trigger] text[i]),
{
    let at = choose|at: int| #[trigger]
        is_last_at(text, CONTINUE_FINAL_MESSAGE_MARK@, at) && cut == if occurs_at(
            text,
            CONTINUE_FINAL_MESSAGE_TAG@,
            at,
        ) {
            text.take(at)
        } else {
            trimmed_end(text.take(at))
        };
    let whole = text.take(at);
    law_trimmed_end(whole, 0);
    assert(cut =~= text.take(cut.len() as int));
    assert forall|i: int| cut.len() <= i < at implies is_space(#[trigger] text[i]) by {
        law_trimmed_end(whole, i);
    }
    at
}

/// The tag is the mark and a blank.
pub proof fn law_tag_is_mark_and_blank()
    ensures
        "CONTINUE_FINAL_MESSAGE_TAG "@ == "CONTINUE_FINAL_MESSAGE_TAG"@ + seq![' '],
        CONTINUE_FINAL_MESSAGE_TAG@ == "CONTINUE_FINAL_MESSAGE_TAG "@,
        CONTINUE_FINAL_MESSAGE_MARK@ == "CONTINUE_FINAL_MESSAGE_TAG"@,
{
    reveal_strlit("CONTINUE_FINAL_MESSAGE_TAG ");
    reveal_strlit("CONTINUE_FINAL_MESSAGE_TAG");
    assert("CONTINUE_FINAL_MESSAGE_TAG "@ =~= "CONTINUE_FINAL_MESSAGE_TAG"@ + seq![' ']);
}

/// Continuing a final message leaves every other message as it is, and every
/// other field of the final one.
pub proof fn law_only_the_final_field_changes(
    items: Seq<JsonTree>,
    field: Seq<char>,
    messages: JsonTree,
    text: Seq<char>,
    other: Seq<char>,
)
    requires
        continue_messages(JsonTree::Array(items), field) == Ok::<
            (JsonTree, Seq<char>),
            ContinueProblem,
        >((messages, text)),
        items.last() matches JsonTree::Object(entries) ==> keys_distinct(entries),
    ensures
        items.len() > 0,
        items.last() is Object,
        messages is Array,
        messages->Array_0.len() == items.len(),
        forall|i: int|
            0 <= i < items.len() - 1 ==> #[trigger] messages->Array_0[i] == items[i],
        messages->Array_0.last() is Object,
        keys_distinct(messages->Array_0.last()->Object_0),
        messages->Array_0.last()->Object_0.len() == items.last()->Object_0.len(),
        forall|i: int|
            0 <= i < items.last()->Object_0.len() ==> (#[trigger] messages->Array_0.last()->Object_0[i]).0
                == items.last()->Object_0[i].0,
        other != field ==> lookup(messages->Array_0.last()->Object_0, other) == lookup(
            items.last()->Object_0,
            other,
        ),
{
    let entries = items.last()->Object_0;
    let value = lookup(entries, field)->0;
    let after = continue_field(value)->Ok_0.0;
    law_lookup_after_insert(entries, field, after, other);
    assert(key_at(entries, field, position(entries, field)));
}

/// Where the field to continue is text, that is the text to continue, and the
/// field holds it with the tag behind it.
pub proof fn law_tag_is_put_behind_text(
    items: Seq<JsonTree>,
    field: Seq<char>,
    messages: JsonTree,
    text: Seq<char>,
)
    requires
        continue_messages(JsonTree::Array(items), field) == Ok::<
            (JsonTree, Seq<char>),
            ContinueProblem,
        >((messages, text)),
        items.last() matches JsonTree::Object(entries) ==> keys_distinct(entries),
        lookup(items.last()->Object_0, field)->0 is String,
    ensures
        lookup(items.last()->Object_0, field) == Some(JsonTree::String(text)),
        lookup(messages->Array_0.last()->Object_0, field) == Some(
            JsonTree::String(text + "CONTINUE_FINAL_MESSAGE_TAG "@),
        ),
{
    let entries = items.last()->Object_0;
    let value = lookup(entries, field)->0;
    law_lookup_after_insert(entries, field, continue_field(value)->Ok_0.0, field);
}

/// Where the field to continue is a list, the text to continue is that of its
/// last block with a text. That block holds it with the tag behind it and keeps
/// all else that it has; every other block stays as it is.
pub proof fn law_tag_is_put_into_the_last_text_block(
    items: Seq<JsonTree>,
    field: Seq<char>,
    messages: JsonTree,
    text: Seq<char>,
    other: Seq<char>,
) -> (at: int)
    requires
        continue_messages(JsonTree::Array(items), field) == Ok::<
            (JsonTree, Seq<char>),
            ContinueProblem,
        >((messages, text)),
        items.last() matches JsonTree::Object(entries) ==> keys_distinct(entries),
        lookup(items.last()->Object_0, field)->0 is Array,
        forall|i: int|
            0 <= i < lookup(items.last()->Object_0, field)->0->Array_0.len() ==> (
            #[trigger] lookup(
                items.last()->Object_0,
                field,
            )->0->Array_0[i] matches JsonTree::Object(entries) ==> keys_distinct(entries)),
    ensures
        ({
            let before = lookup(items.last()->Object_0, field)->0->Array_0;
            let value = lookup(messages->Array_0.last()->Object_0, field);
            let after = value->0->Array_0;
            &&& value is Some && value->0 is Array
            &&& 0 <= at < before.len()
            &&& after.len() == before.len()
            &&& forall|i: int| 0 <= i < before.len() && i != at ==> #[trigger] after[i] == before[i]
            &&& before[at] is Object && after[at] is Object
            &&& lookup(before[at]->Object_0, "text"@) == Some(JsonTree::String(text))
            &&& lookup(after[at]->Object_0, "text"@) == Some(
                JsonTree::String(text + "CONTINUE_FINAL_MESSAGE_TAG "@),
            )
            &&& other != "text"@ ==> lookup(after[at]->Object_0, other) == lookup(
                before[at]->Object_0,
                other,
            )
            &&& forall|i: int|
                at < i < before.len() ==> !(#[trigger] before[i] is Object && lookup(
                    before[i]->Object_0,
                    "text"@,
                ) matches Some(JsonTree::String(_)))
        }),
{
    let entries = items.last()->Object_0;
    let value = lookup(entries, field)->0;
    let blocks = value->Array_0;
    law_lookup_after_insert(entries, field, continue_field(value)->Ok_0.0, field);
    let at = last_text(blocks)->0;
    lemma_last_text(blocks);
    let block = blocks[at]->Object_0;
    let tagged = JsonTree::String(text + "CONTINUE_FINAL_MESSAGE_TAG "@);
    law_lookup_after_insert(block, "text"@, tagged, other);
    law_lookup_after_insert(block, "text"@, tagged, "text"@);
    assert forall|i: int| at < i < blocks.len() implies !(#[trigger] blocks[i] is Object && lookup(
        blocks[i]->Object_0,
        "text"@,
    ) matches Some(JsonTree::String(_))) by {
        assert(block_text(blocks[i]) is None);
    }
    at
}

proof fn lemma_last_text(blocks: Seq<JsonTree>)
    ensures
        match last_text(blocks) {
            Some(at) => {
                &&& 0 <= at < blocks.len()
                &&& block_text(blocks[at]) is Some
                &&& forall|i: int| at < i < blocks.len() ==> block_text(#[trigger] blocks[i]) is None
            },
            None => forall|i: int|
                0 <= i < blocks.len() ==> block_text(#[trigger] blocks[i]) is None,
        },
    decreases blocks.len(),
{
    if blocks.len() > 0 && block_text(blocks.last()) is None {
        let shorter = blocks.drop_last();
        lemma_last_text(shorter);
        assert forall|i: int|
            0 <= i < blocks.len() && (last_text(blocks) matches Some(at) ==> at
                < i) implies block_text(#[trigger] blocks[i]) is None by {
            if i < shorter.len() {
                assert(shorter[i] == blocks[i]);
            }
        }
    }
}

/// The block is an object whose `text` is text.
pub open spec fn has_text(block: JsonTree) -> bool {
    block is Object && (lookup(block->Object_0, "text"@) matches Some(JsonTree::String(_)))
}

/// When a final message can be continued, and what is wrong if it cannot.
pub proof fn law_what_can_be_continued(messages: JsonTree, field: Seq<char>)
    ensures
        !(messages is Array) || messages->Array_0.len() == 0 || !(
        messages->Array_0.last() is Object) <==> continue_messages(messages, field) == Err::<
            (JsonTree, Seq<char>),
            ContinueProblem,
        >(ContinueProblem::NoMessage),
        messages is Array && messages->Array_0.len() > 0 && messages->Array_0.last() is Object ==> {
            let found = continue_messages(messages, field);
            match lookup(messages->Array_0.last()->Object_0, field) {
                None => found == Err::<(JsonTree, Seq<char>), ContinueProblem>(
                    ContinueProblem::NoField,
                ),
                Some(JsonTree::String(_)) => found is Ok,
                Some(JsonTree::Array(blocks)) => if exists|i: int|
                    0 <= i < blocks.len() && has_text(#[trigger] blocks[i]) {
                    found is Ok
                } else {
                    found == Err::<(JsonTree, Seq<char>), ContinueProblem>(ContinueProblem::NoText)
                },
                Some(_) => found == Err::<(JsonTree, Seq<char>), ContinueProblem>(
                    ContinueProblem::NotText,
                ),
            }
        },
{
    if messages is Array && messages->Array_0.len() > 0 && messages->Array_0.last() is Object {
        if let Some(JsonTree::Array(blocks)) = lookup(messages->Array_0.last()->Object_0, field) {
            lemma_last_text(blocks);
            assert forall|i: int| 0 <= i < blocks.len() implies has_text(#[trigger] blocks[i]) == (
            block_text(blocks[i]) is Some) by {
            }
        }
    }
}

/// The argument was left out, or it has a JSON form.
pub open spec fn is_value(argument: Option<Result<Json, CallError>>) -> bool {
    argument matches Some(given) ==> given is Ok
}

/// The argument was left out, or it is a dictionary.
pub open spec fn is_dictionary(argument: Option<Result<Json, CallError>>) -> bool {
    argument matches Some(given) ==> given is Ok && given->Ok_0@ is Object
}

/// A dictionary that was left out is empty; one that is given has its entries; an
/// error is passed on, and anything else is refused.
pub proof fn law_optional_dictionary(argument: Option<Result<Json, CallError>>)
    ensures
        argument is None ==> dictionary_entries(argument).len() == 0,
        is_dictionary(argument) ==> dictionary_complaint(argument) is None,
        argument matches Some(Ok(json)) ==> json@ is Object ==> dictionary_entries(argument)
            == json@->Object_0,
        argument matches Some(Ok(json)) ==> !(json@ is Object) ==> dictionary_complaint(argument)
            == Some(Complaint::Type("expected a dictionary"@)),
        argument matches Some(Err(error)) ==> dictionary_complaint(argument) == Some(error@),
        argument matches Some(Err(error)) ==> value_complaint(argument) == Some(error@),
        is_value(argument) ==> value_complaint(argument) is None,
{
}

/// A call is told the first thing that is wrong with it, in this order: the
/// messages, several conversations, the tools, the documents, the special tokens,
/// the other arguments, a missing template, the message to continue.
pub proof fn law_first_problem_is_told(
    arguments: ChatCallArguments,
    set: Option<Seq<char>>,
    batched: bool,
)
    ensures
        arguments.messages matches Err(error) ==> arguments.complaint(set, batched) == Some(error@),
        arguments.messages is Ok && batched ==> arguments.complaint(set, batched) == Some(
            Complaint::NotImplemented(
                "batched conversations are not supported by basetenkenizer apply_chat_template"@,
            ),
        ),
        arguments.messages is Ok && !batched ==> {
            let told = arguments.complaint(set, batched);
            &&& !is_value(arguments.tools) ==> told == Some(arguments.tools->0->Err_0@)
            &&& is_value(arguments.tools) && !is_value(arguments.documents) ==> told == Some(
                arguments.documents->0->Err_0@,
            )
            &&& is_value(arguments.tools) && is_value(arguments.documents) ==> {
                &&& !is_dictionary(arguments.special_tokens) ==> told == dictionary_complaint(
                    arguments.special_tokens,
                ) && told is Some
                &&& is_dictionary(arguments.special_tokens) && !is_dictionary(arguments.kwargs)
                    ==> told == dictionary_complaint(arguments.kwargs) && told is Some
                &&& is_dictionary(arguments.special_tokens) && is_dictionary(arguments.kwargs)
                    && render_only(dictionary_entries(arguments.kwargs)).1 is Some ==> told
                    == render_only(dictionary_entries(arguments.kwargs)).1
            }
        },
{
}

/// A call is accepted exactly if nothing is wrong: it is one conversation, what
/// was given has a JSON form, the dictionaries are some, the other arguments are
/// accepted, whether it is strict is a `bool`, there is a template, and the
/// message to continue can be continued.
pub proof fn law_accepted_calls(
    arguments: ChatCallArguments,
    set: Option<Seq<char>>,
    batched: bool,
)
    ensures
        arguments.complaint(set, batched) is None <==> {
            &&& arguments.messages is Ok && !batched
            &&& is_value(arguments.tools)
            &&& is_value(arguments.documents)
            &&& is_dictionary(arguments.special_tokens)
            &&& is_dictionary(arguments.kwargs)
            &&& render_only(dictionary_entries(arguments.kwargs)).1 is None
            &&& bool_argument(
                render_only(dictionary_entries(arguments.kwargs)).0,
                "basetenkenizer_strict_template"@,
            ) is Ok
            &&& arguments.chat_template is Some || set is Some
            &&& arguments.continued(arguments.template(set)->0) is Ok
        },
        arguments.complaint(set, false) is None ==> arguments.messages is Ok,
{
}

/// A call without a template is told so, if nothing else is wrong with it.
pub proof fn law_missing_template_is_told(arguments: ChatCallArguments)
    requires
        arguments.messages is Ok,
        is_value(arguments.tools),
        is_value(arguments.documents),
        is_dictionary(arguments.special_tokens),
        arguments.kwargs is None,
        arguments.chat_template is None,
    ensures
        arguments.complaint(None, false) == Some(Complaint::Value("chat_template must be provided"@)),
{
    lemma_no_arguments();
}

proof fn lemma_no_arguments()
    ensures
        render_only(Seq::empty()) == (Seq::<(Seq<char>, JsonTree)>::empty(), None::<Complaint>),
        bool_argument(Seq::empty(), "basetenkenizer_strict_template"@) == Ok::<
            Option<bool>,
            Complaint,
        >(None),
{
    let none = Seq::<(Seq<char>, JsonTree)>::empty();
    assert forall|key: Seq<char>| !#[trigger] has_key(none, key) by {
    }
    law_order_of_own_parameters(none);
}

/// The template of a call is its own, or else the one that is set. Its messages
/// are those that were given, unless one is to be continued: then the template has
/// to mention the field, and the final message is tagged.
pub proof fn law_template_and_messages(
    arguments: ChatCallArguments,
    set: Option<Seq<char>>,
    template: Seq<char>,
)
    ensures
        arguments.chat_template matches Some(own) ==> arguments.template(set) == Some(own@),
        arguments.chat_template is None ==> arguments.template(set) == set,
        arguments.messages is Ok && arguments.continue_field is None ==> arguments.continued(
            template,
        ) == Ok::<(minijinja::Value, Option<Seq<char>>), Complaint>(
            (arguments.messages->Ok_0.value(), None),
        ),
        arguments.continue_field matches Some(field) ==> (arguments.messages matches Ok(
            PreparedMessages::Json(json),
        ) ==> {
            &&& arguments.continued(template) is Ok <==> occurs(template, field@)
                && continue_messages(json@, field@) is Ok
            &&& arguments.continued(template) matches Ok((value, text)) ==> continue_messages(
                json@,
                field@,
            ) matches Ok((messages, wanted)) && value == value_of(messages) && text == Some(wanted)
            &&& !occurs(template, field@) ==> arguments.continued(template) == Err::<
                (minijinja::Value, Option<Seq<char>>),
                Complaint,
            >(
                Complaint::Value(
                    "continue_final_message is set to \""@ + field@
                        + "\" but this is not an accepted field in the chat_template"@,
                ),
            )
        }),
{
}

/// A prepared call has what was asked for: the flags and values as they were
/// given, the template of the call or the one that is set, its special tokens in
/// place of those that are set, and the other arguments without those that do not
/// go to the template. It is strict unless the arguments say that it is not.
pub proof fn law_prepared_call(
    call: PreparedChatTemplateCall,
    arguments: ChatCallArguments,
    set: ChatTemplateState,
    key: Seq<char>,
)
    requires
        call.prepared(arguments, set),
        arguments.complaint(set.template(), false) is None,
        keys_distinct(set.tokens()),
        keys_distinct(dictionary_entries(arguments.kwargs)),
    ensures
        arguments.chat_template matches Some(own) ==> call.template@ == own@
            && call.renderer is None,
        arguments.chat_template is None ==> set.template() == Some(call.template@) && call.renderer
            == set.compiled(),
        call.options.add_generation_prompt == arguments.add_generation_prompt,
        call.options.continue_final_message <==> arguments.continue_field is Some,
        call.options.tools is Some <==> arguments.tools is Some,
        call.options.tools matches Some(tools) ==> tools@ == arguments.tools->0->Ok_0@,
        call.options.documents is Some <==> arguments.documents is Some,
        call.options.documents matches Some(documents) ==> documents@
            == arguments.documents->0->Ok_0@,
        arguments.continue_field is None ==> call.continuation is None && call.messages.value()
            == arguments.messages->Ok_0.value(),
        lookup(call.options.special_tokens@, key) == match last_value(
            dictionary_entries(arguments.special_tokens),
            key,
        ) {
            Some(value) => Some(value),
            None => lookup(set.tokens(), key),
        },
        lookup(call.options.extra_context@, key) == if is_for_tokenizing(key) || key
            == "basetenkenizer_strict_template"@ {
            None
        } else {
            lookup(dictionary_entries(arguments.kwargs), key)
        },
        call.strict_template <==> lookup(
            dictionary_entries(arguments.kwargs),
            "basetenkenizer_strict_template"@,
        ) != Some(JsonTree::Bool(false)),
{
    let entries = dictionary_entries(arguments.kwargs);
    let strict = "basetenkenizer_strict_template"@;
    law_lookup_after_extend(
        set.tokens(),
        dictionary_entries(arguments.special_tokens),
        key,
    );
    law_arguments_without_tokenizing(entries, key);
    law_arguments_without_tokenizing(entries, strict);
    law_lookup_after_remove(render_only(entries).0, strict, key);
    lemma_strict_is_not_for_tokenizing();
}

proof fn lemma_strict_is_not_for_tokenizing()
    ensures
        !is_for_tokenizing("basetenkenizer_strict_template"@),
{
    reveal_strlit("basetenkenizer_strict_template");
    reveal_strlit("return_assistant_tokens_mask");
    reveal_strlit("return_dict");
    reveal_strlit("padding");
    reveal_strlit("truncation");
    reveal_strlit("max_length");
    reveal_strlit("return_tensors");
    reveal_strlit("tokenizer_kwargs");
    assert("basetenkenizer_strict_template"@.len() == 30);
    assert("return_assistant_tokens_mask"@.len() == 28);
    assert("return_dict"@.len() == 11);
    assert("padding"@.len() == 7);
    assert("truncation"@.len() == 10);
    assert("max_length"@.len() == 10);
    assert("return_tensors"@.len() == 14);
    assert("tokenizer_kwargs"@.len() == 16);
}

/// A text that is too long is told by its first characters and three dots, any
/// other as it is.
pub proof fn law_shortened_texts(text: Seq<char>, max: int)
    requires
        0 <= max,
    ensures
        text.len() <= max ==> shortened(text, max) == text,
        text.len() > max ==> shortened(text, max).len() == max + 3 && shortened(text, max).take(max)
            == text.take(max) && shortened(text, max).skip(max) == seq!['.', '.', '.'],
{
    reveal_strlit("...");
    if text.len() > max {
        assert(shortened(text, max).take(max) =~= text.take(max));
        assert(shortened(text, max).skip(max) =~= seq!['.', '.', '.']);
    }
}

/// A final message that is not rendered is told with up to 512 of its characters,
/// and with up to 4096 of the rendered ones.
pub proof fn law_missing_message_is_told(
    rendered: String,
    wanted: String,
    r: Result<String, ChatTemplateCallError>,
)
    requires
        finished(Ok(rendered), Some(wanted), r),
        !occurs(rendered@, trimmed(wanted@)) || !occurs(rendered@, "CONTINUE_FINAL_MESSAGE_TAG"@),
    ensures
        r matches Err(ChatTemplateCallError::Render(message)) && message@
            == "continue_final_message is set but the final message does not appear in the chat after applying the chat template. Final message to continue: "@
            + shortened(trimmed(wanted@), 512) + "\nRendered chat:\n"@ + shortened(rendered@, 4096),
{
}

/// What is told of a final message that cannot be continued.
pub proof fn law_problems_are_told(field: Seq<char>)
    ensures
        ContinueProblem::NoMessage.complaint(field) == Complaint::Value(
            "continue_final_message requires a non-empty message list"@,
        ),
        ContinueProblem::NoField.complaint(field) == Complaint::Value(
            "continue_final_message is set but the final message has no \""@ + field
                + "\" to continue"@,
        ),
        ContinueProblem::NoText.complaint(field) == Complaint::Value(
            "continue_final_message is set but we could not find any text to continue in the final message"@,
        ),
        ContinueProblem::NotText.complaint(field) == Complaint::Value(
            "continue_final_message is set but final message field \""@ + field
                + "\" is not a string or text block list"@,
        ),
{
}

/// A template that is to be set is refused exactly if it does not compile; to set
/// none is never refused. What is set afterwards is the template, with the source
/// that Jinja knows, or none.
pub proof fn law_setting_templates(state: ChatTemplateState, template: String)
    ensures
        refusal(Some(template)) == syntax_error(template@),
        refusal(None) is None,
        state.holds(Some(template)) ==> state.template() == Some(template@)
            && state.compiled() is Some && state.compiled()->0.source() == jinja_template(
            template@,
        ),
        state.holds(None) ==> state.template() is None && state.compiled() is None,
{
}

/// Names in order: each comes before those behind it.
pub proof fn law_names_ascend(names: Seq<Seq<char>>, i: int, j: int)
    requires
        ascending_texts(names),
        0 <= i < j < names.len(),
    ensures
        text_before(names[i], names[j]),
        names[i] != names[j],
{
    law_text_order(names[i], names[j]);
}

/// A call that asks for tokens is refused, and so is one that asks for both the
/// start of an answer and a message to continue. Any other gives the field that it
/// asks to continue, or none.
pub proof fn law_first_look(
    tokenize: bool,
    add_generation_prompt: bool,
    argument: ContinueArgument,
    r: Result<Option<String>, CallError>,
)
    requires
        checked(tokenize, add_generation_prompt, argument, r),
    ensures
        tokenize ==> (r matches Err(CallError::NotImplemented(_))),
        !tokenize && argument is Other ==> (r matches Err(CallError::Type(_))),
        r matches Err(CallError::Value(_)) ==> !tokenize && add_generation_prompt,
        r matches Ok(Some(_)) ==> !tokenize && !add_generation_prompt,
        !tokenize && argument is Missing ==> (r matches Ok(None)),
        !tokenize && !add_generation_prompt ==> (argument matches ContinueArgument::Field(name)
            ==> name@.len() > 0 ==> (r matches Ok(Some(field)) && field@ == name@)),
        !tokenize && !add_generation_prompt ==> (argument matches ContinueArgument::Flag(on) ==> on
            ==> (r matches Ok(Some(field)) && field@ == "content"@)),
        !tokenize && add_generation_prompt ==> (argument matches ContinueArgument::Field(name)
            ==> name@.len() > 0 ==> (r matches Err(CallError::Value(_)))),
        !tokenize ==> (argument matches ContinueArgument::Flag(on) ==> !on ==> (r matches Ok(None))),
{
}

} // verus!
