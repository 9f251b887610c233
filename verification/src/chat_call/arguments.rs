//! The arguments of a call, and what is wrong with them.

use vstd::prelude::*;

use super::suggest::{among, better_guess, close_enough, closest_variable};
use crate::chat_template::convert::into_json_value;
use crate::chat_template::json::{has_key, lemma_tree, lookup, removed, Json, JsonMap, JsonTree};
use crate::chat_template::json_text::compact_text;
use crate::chat_template::outside::{
    display_json, lists_names, reads_first, reads_list, texts, undeclared_names,
    value_first_item, value_is_list,
};
use crate::chat_template::renderer::ChatTemplateRenderer;
use crate::text::str_eq;

verus! {

/// A refused call, split by the Python exception that it should surface as.
#[derive(Debug)]
pub enum CallError {
    /// A `TypeError`.
    Type(String),
    /// A `ValueError`.
    Value(String),
    /// A `NotImplementedError`.
    NotImplemented(String),
}

/// What a refused call is told.
pub enum Complaint {
    /// A `TypeError`.
    Type(Seq<char>),
    /// A `ValueError`.
    Value(Seq<char>),
    /// A `NotImplementedError`.
    NotImplemented(Seq<char>),
}

impl View for CallError {
    type V = Complaint;

    open spec fn view(&self) -> Complaint {
        match self {
            CallError::Type(message) => Complaint::Type(message@),
            CallError::Value(message) => Complaint::Value(message@),
            CallError::NotImplemented(message) => Complaint::NotImplemented(message@),
        }
    }
}

/// The result is an error with the complaint.
pub open spec fn refused<T>(r: Result<T, CallError>, complaint: Complaint) -> bool {
    r matches Err(error) && error@ == complaint
}

/// The entries of an object.
pub type Entries = Seq<(Seq<char>, JsonTree)>;

/// The optional `bool` under a key, or what is wrong with it: null is none.
pub open spec fn bool_argument(entries: Entries, key: Seq<char>) -> Result<
    Option<bool>,
    Complaint,
> {
    match lookup(entries, key) {
        Some(JsonTree::Bool(b)) => Ok(Some(b)),
        Some(JsonTree::Null) => Ok(None),
        None => Ok(None),
        Some(value) => Err(
            Complaint::Type(key + " must be a bool, got "@ + compact_text(value)),
        ),
    }
}

/// Removes an optional `bool` argument and gives it.
pub fn pop_bool_context_arg(map: &mut JsonMap, key: &str) -> (r: Result<Option<bool>, CallError>)
    ensures
        final(map)@ == removed(old(map)@, key@),
        match bool_argument(old(map)@, key@) {
            Ok(value) => r matches Ok(b) && b == value,
            Err(complaint) => refused(r, complaint),
        },
{
    broadcast use lemma_tree;

    match map.remove(key) {
        Some(Json::Bool(value)) => Ok(Some(value)),
        Some(Json::Null) => Ok(None),
        None => Ok(None),
        Some(value) => {
            let json = into_json_value(&value);
            let mut message = key.to_owned();
            message.append(" must be a bool, got ");
            message.append(display_json(&json).as_str());
            Err(CallError::Type(message))
        },
    }
}

/// The arguments that have a parameter of their own.
pub open spec fn own_parameters() -> Seq<Seq<char>> {
    seq![
        "messages"@,
        "conversation"@,
        "add_generation_prompt"@,
        "continue_final_message"@,
        "tools"@,
        "documents"@,
        "special_tokens"@,
    ]
}

/// The first of the keys that is there.
pub open spec fn first_present(entries: Entries, keys: Seq<Seq<char>>) -> Option<Seq<char>>
    decreases keys.len(),
{
    if keys.len() == 0 {
        None
    } else if has_key(entries, keys[0]) {
        Some(keys[0])
    } else {
        first_present(entries, keys.drop_first())
    }
}

/// What a call with two values for one argument is told.
pub open spec fn multiple_values(key: Seq<char>) -> Complaint {
    Complaint::Type(
        "apply_chat_template got multiple values for keyword argument `"@ + key + "`"@,
    )
}

/// The arguments that only matter for tokenizing.
pub open spec fn without_tokenizing(entries: Entries) -> Entries {
    removed(
        removed(
            removed(removed(removed(entries, "padding"@), "truncation"@), "max_length"@),
            "return_tensors"@,
        ),
        "tokenizer_kwargs"@,
    )
}

/// The arguments after those are dropped that a call without tokenizing does
/// not need, and what is wrong with them if anything is: an argument that has a
/// parameter of its own, or one that asks for tokens.
pub open spec fn render_only(entries: Entries) -> (Entries, Option<Complaint>) {
    let mask = "return_assistant_tokens_mask"@;
    let dict = "return_dict"@;
    let first = removed(entries, mask);
    let second = removed(first, dict);
    match first_present(entries, own_parameters()) {
        Some(key) => (entries, Some(multiple_values(key))),
        None => match bool_argument(entries, mask) {
            Err(complaint) => (first, Some(complaint)),
            Ok(Some(true)) => (
                first,
                Some(
                    Complaint::Value(
                        "`return_assistant_tokens_mask=True` requires `return_dict=True` and `tokenize=True`"@,
                    ),
                ),
            ),
            Ok(_) => match bool_argument(first, dict) {
                Err(complaint) => (second, Some(complaint)),
                Ok(Some(true)) => (
                    second,
                    Some(Complaint::Value("`return_dict=True` requires `tokenize=True`"@)),
                ),
                Ok(_) => (without_tokenizing(second), None),
            },
        },
    }
}

/// Refuses an argument that has a parameter of its own.
fn check_absent(map: &JsonMap, key: &str) -> (r: Result<(), CallError>)
    ensures
        if has_key(map@, key@) {
            refused(r, multiple_values(key@))
        } else {
            r is Ok
        },
{
    if map.contains_key(key) {
        let mut message = "apply_chat_template got multiple values for keyword argument `".to_owned();
        message.append(key);
        message.append("`");
        return Err(CallError::Type(message));
    }
    Ok(())
}

/// Refuses the first argument that has a parameter of its own.
fn check_own_parameters(map: &JsonMap) -> (r: Result<(), CallError>)
    ensures
        match first_present(map@, own_parameters()) {
            Some(key) => refused(r, multiple_values(key)),
            None => r is Ok,
        },
{
    proof {
        reveal_with_fuel(first_present, 8);
    }
    check_absent(map, "messages")?;
    check_absent(map, "conversation")?;
    check_absent(map, "add_generation_prompt")?;
    check_absent(map, "continue_final_message")?;
    check_absent(map, "tools")?;
    check_absent(map, "documents")?;
    check_absent(map, "special_tokens")
}

/// Drops the arguments that a call without tokenizing does not need, and refuses
/// those that ask for tokens: see [`render_only`].
pub fn consume_render_only_tokenizer_kwargs(map: &mut JsonMap) -> (r: Result<(), CallError>)
    ensures
        final(map)@ == render_only(old(map)@).0,
        match render_only(old(map)@).1 {
            Some(complaint) => refused(r, complaint),
            None => r is Ok,
        },
{
    match check_own_parameters(map) {
        Ok(_) => {},
        Err(error) => {
            return Err(error);
        },
    }
    match pop_bool_context_arg(map, "return_assistant_tokens_mask") {
        Ok(Some(true)) => {
            return Err(
                CallError::Value(
                    "`return_assistant_tokens_mask=True` requires `return_dict=True` and `tokenize=True`".to_owned(),
                ),
            );
        },
        Ok(_) => {},
        Err(error) => {
            return Err(error);
        },
    }
    match pop_bool_context_arg(map, "return_dict") {
        Ok(Some(true)) => {
            return Err(
                CallError::Value("`return_dict=True` requires `tokenize=True`".to_owned()),
            );
        },
        Ok(_) => {},
        Err(error) => {
            return Err(error);
        },
    }
    let _ = map.remove("padding");
    let _ = map.remove("truncation");
    let _ = map.remove("max_length");
    let _ = map.remove("return_tensors");
    let _ = map.remove("tokenizer_kwargs");
    Ok(())
}

/// The messages are a list whose first item is a list: several conversations.
pub open spec fn batched_tree(messages: JsonTree) -> bool {
    match messages {
        JsonTree::Array(items) => items.len() > 0 && items[0] is Array,
        _ => false,
    }
}

/// Whether the messages are several conversations.
pub fn is_batched_chat(messages: &Json) -> (r: bool)
    ensures
        r == batched_tree(messages@),
{
    broadcast use lemma_tree;

    match messages {
        Json::Array(items) => {
            if items.len() == 0 {
                return false;
            }
            proof {
                lemma_tree(items@[0]);
            }
            matches!(&items[0], Json::Array(_))
        },
        _ => false,
    }
}

/// The messages turn out to be several conversations or not: a list whose first
/// item is a list.
pub open spec fn reads_batched(messages: minijinja::Value, r: bool) -> bool {
    ||| !r && reads_list(messages, false)
    ||| !r && reads_list(messages, true) && reads_first(messages, None)
    ||| reads_list(messages, true) && exists|first: minijinja::Value|
        #[trigger] reads_first(messages, Some(first)) && reads_list(first, r)
}

/// Whether the messages are several conversations.
pub fn is_batched_chat_value(messages: &minijinja::Value) -> (r: bool)
    ensures
        reads_batched(*messages, r),
{
    if !value_is_list(messages) {
        return false;
    }
    match value_first_item(messages) {
        Some(first) => value_is_list(&first),
        None => false,
    }
}

/// What a caller passed to say whether the final message is to be continued.
pub enum ContinueArgument {
    /// Nothing.
    Missing,
    /// Whether to continue its content.
    Flag(bool),
    /// The field to continue.
    Field(String),
    /// Something else.
    Other,
}

/// The field of the final message that is asked to be continued, or what is
/// wrong with the argument.
pub open spec fn asked_field(argument: ContinueArgument) -> Result<Option<Seq<char>>, Complaint> {
    match argument {
        ContinueArgument::Missing => Ok(None),
        ContinueArgument::Flag(on) => Ok(
            if on {
                Some("content"@)
            } else {
                None
            },
        ),
        ContinueArgument::Field(name) => Ok(
            if name@.len() > 0 {
                Some(name@)
            } else {
                None
            },
        ),
        ContinueArgument::Other => Err(
            Complaint::Type("continue_final_message must be a bool or string"@),
        ),
    }
}

/// The field of the final message to continue: `content` unless another is
/// named; none if the name is empty.
pub fn parse_continue_final_message(argument: ContinueArgument) -> (r: Result<
    Option<String>,
    CallError,
>)
    ensures
        match asked_field(argument) {
            Ok(Some(field)) => r matches Ok(Some(name)) && name@ == field,
            Ok(None) => r matches Ok(None),
            Err(complaint) => refused(r, complaint),
        },
{
    match argument {
        ContinueArgument::Missing => Ok(None),
        ContinueArgument::Flag(on) => if on {
            Ok(Some("content".to_owned()))
        } else {
            Ok(None)
        },
        ContinueArgument::Field(name) => if name.as_str().is_empty() {
            Ok(None)
        } else {
            Ok(Some(name))
        },
        ContinueArgument::Other => Err(
            CallError::Type("continue_final_message must be a bool or string".to_owned()),
        ),
    }
}

/// A failed rendering, split by the Python exception that it should surface as.
#[derive(Debug)]
pub enum ChatTemplateCallError {
    /// Unknown keyword argument rejected by strict validation: a `TypeError`.
    UnknownKwarg(String),
    /// Template compilation or rendering failure: a `ValueError`.
    Render(String),
}

/// What the caller is told of an argument that the template does not read.
pub open spec fn unknown_kwarg_text(key: Seq<char>, suggestion: Seq<char>) -> Seq<char> {
    "apply_chat_template got an unexpected keyword argument `"@ + key
        + "`: the chat template does not reference it"@ + suggestion
        + " Pass basetenkenizer_strict_template=False to allow unused keyword arguments."@
}

/// The variable that was probably meant is suggested, if one is close enough.
pub open spec fn is_suggestion(names: Seq<String>, key: Seq<char>, suggestion: Seq<char>) -> bool {
    ||| suggestion == ""@ && forall|i: int|
        0 <= i < names.len() ==> !close_enough(key, (#[trigger] names[i])@)
    ||| exists|i: int|
        0 <= i < names.len() && close_enough(key, (#[trigger] names[i])@) && suggestion
            == ". Did you mean `"@ + names[i]@ + "`?"@ && forall|j: int|
            0 <= j < names.len() && close_enough(key, (#[trigger] names[j])@) ==> names[j]@
                == names[i]@ || better_guess(key, names[i]@, names[j]@)
}

fn suggest(key: &str, names: &Vec<String>) -> (suggestion: String)
    ensures
        is_suggestion(names@, key@, suggestion@),
{
    match closest_variable(key, names) {
        Some(candidate) => {
            let mut text = ". Did you mean `".to_owned();
            text.append(candidate.as_str());
            text.append("`?");
            proof {
                let i = choose|i: int|
                    0 <= i < names.len() && (#[trigger] names@[i])@ == candidate@;
            }
            text
        },
        None => {
            let text = "".to_owned();
            text
        },
    }
}

fn is_among(names: &Vec<String>, key: &str) -> (r: bool)
    ensures
        r == among(names@, key@),
{
    let mut i: usize = 0;
    while i < names.len()
        invariant
            i <= names.len(),
            forall|j: int| 0 <= j < i ==> (#[trigger] names@[j])@ != key@,
        decreases names.len() - i,
    {
        if str_eq(names[i].as_str(), key) {
            return true;
        }
        i += 1;
    }
    false
}

/// The first entry whose key is none of the names, if there is one.
pub open spec fn first_unknown(entries: Entries, names: Set<Seq<char>>, i: int) -> bool {
    &&& 0 <= i < entries.len()
    &&& !names.contains(entries[i].0)
    &&& forall|j: int| 0 <= j < i ==> names.contains((#[trigger] entries[j]).0)
}

/// Every key is one of the names.
pub open spec fn all_known(entries: Entries, names: Set<Seq<char>>) -> bool {
    forall|j: int| 0 <= j < entries.len() ==> names.contains((#[trigger] entries[j]).0)
}

/// The message tells of the first entry whose key is none of the names.
pub open spec fn tells_unknown(
    entries: Entries,
    names: Set<Seq<char>>,
    message: Seq<char>,
) -> bool {
    exists|i: int, known: Seq<String>, suggestion: Seq<char>|
        {
            &&& #[trigger] first_unknown(entries, names, i)
            &&& lists_names(known, names)
            &&& #[trigger] is_suggestion(known, entries[i].0, suggestion)
            &&& message == unknown_kwarg_text(entries[i].0, suggestion)
        }
}

/// Reject keyword arguments the template never reads.
///
/// Typos like `enable_thinkng` otherwise render silently against the template's
/// default branch, producing a wrong prompt with no signal.
pub fn validate_template_kwargs(
    renderer: &ChatTemplateRenderer,
    extra_context: &JsonMap,
) -> (r: Result<(), ChatTemplateCallError>)
    ensures
        match r {
            Ok(_) => all_known(extra_context@, undeclared_names(renderer.source())),
            Err(ChatTemplateCallError::UnknownKwarg(message)) => !all_known(
                extra_context@,
                undeclared_names(renderer.source()),
            ) && tells_unknown(
                extra_context@,
                undeclared_names(renderer.source()),
                message@,
            ),
            Err(ChatTemplateCallError::Render(_)) => false,
        },
{
    let known = renderer.undeclared_variables();
    let ghost names = undeclared_names(renderer.source());
    let mut i: usize = 0;
    while i < extra_context.len()
        invariant
            i <= extra_context@.len(),
            names == undeclared_names(renderer.source()),
            lists_names(known@, names),
            forall|j: int| 0 <= j < i ==> names.contains((#[trigger] extra_context@[j]).0),
        decreases extra_context@.len() - i,
    {
        let (key, _) = extra_context.entry(i);
        proof {
            lemma_among(known@, key@);
        }
        if !is_among(known, key.as_str()) {
            let suggestion = suggest(key.as_str(), known);
            let mut message = "apply_chat_template got an unexpected keyword argument `".to_owned();
            message.append(key.as_str());
            message.append("`: the chat template does not reference it");
            message.append(suggestion.as_str());
            message.append(
                " Pass basetenkenizer_strict_template=False to allow unused keyword arguments.",
            );
            proof {
                assert(first_unknown(extra_context@, names, i as int));
            }
            return Err(ChatTemplateCallError::UnknownKwarg(message));
        }
        i += 1;
    }
    Ok(())
}

proof fn lemma_among(names: Seq<String>, key: Seq<char>)
    ensures
        among(names, key) == texts(names).to_set().contains(key),
{
    let all = texts(names);
    if among(names, key) {
        let i = choose|i: int| 0 <= i < names.len() && (#[trigger] names[i])@ == key;
        assert(all[i] == key);
    }
    if all.to_set().contains(key) {
        let i = choose|i: int| 0 <= i < all.len() && all[i] == key;
    }
}

} // verus!
