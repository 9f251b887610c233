//! What holds of the arguments of every call: which are refused, with what
//! complaint, and what becomes of the others.

use vstd::prelude::*;

use super::arguments::{
    asked_field, batched_tree, bool_argument, first_present, first_unknown, is_suggestion,
    own_parameters, reads_batched, refused, render_only, tells_unknown, unknown_kwarg_text,
    CallError, Complaint, ContinueArgument, Entries,
};
use super::suggest::{
    better_guess, close_enough, edit_distance, edits_make, law_edit_distance_is_least,
};
use crate::chat_template::json::{
    has_key, keys_distinct, law_lookup_after_remove, lookup, removed, JsonTree,
};
use crate::chat_template::json_text::compact_text;
use crate::chat_template::outside::{lists_names, reads_first, reads_list};
use crate::text::text_before;

verus! {

/// An optional `bool` is the one under the key; nothing or null is none; anything
/// else is refused with what it is.
pub proof fn law_optional_bool(entries: Entries, key: Seq<char>)
    ensures
        lookup(entries, key) is None || lookup(entries, key) == Some(JsonTree::Null)
            <==> bool_argument(entries, key) == Ok::<Option<bool>, Complaint>(None),
        lookup(entries, key) == Some(JsonTree::Bool(true)) <==> bool_argument(entries, key) == Ok::<
            Option<bool>,
            Complaint,
        >(Some(true)),
        lookup(entries, key) == Some(JsonTree::Bool(false)) <==> bool_argument(entries, key)
            == Ok::<Option<bool>, Complaint>(Some(false)),
        bool_argument(entries, key) matches Err(complaint) ==> complaint == Complaint::Type(
            key + " must be a bool, got "@ + compact_text(lookup(entries, key)->0),
        ),
{
}

/// The key is that of an argument that has a parameter of its own.
pub open spec fn has_own_parameter(key: Seq<char>) -> bool {
    ||| key == "messages"@
    ||| key == "conversation"@
    ||| key == "add_generation_prompt"@
    ||| key == "continue_final_message"@
    ||| key == "tools"@
    ||| key == "documents"@
    ||| key == "special_tokens"@
}

/// The key is that of an argument that only matters for tokenizing.
pub open spec fn is_for_tokenizing(key: Seq<char>) -> bool {
    ||| key == "return_assistant_tokens_mask"@
    ||| key == "return_dict"@
    ||| key == "padding"@
    ||| key == "truncation"@
    ||| key == "max_length"@
    ||| key == "return_tensors"@
    ||| key == "tokenizer_kwargs"@
}

/// There is nothing under the key, or null, or `false`.
pub open spec fn is_off(entries: Entries, key: Seq<char>) -> bool {
    match lookup(entries, key) {
        None => true,
        Some(JsonTree::Null) => true,
        Some(JsonTree::Bool(b)) => !b,
        Some(_) => false,
    }
}

proof fn lemma_first_present(entries: Entries, keys: Seq<Seq<char>>)
    ensures
        match first_present(entries, keys) {
            Some(key) => has_key(entries, key) && exists|i: int|
                0 <= i < keys.len() && #[trigger] keys[i] == key && forall|j: int|
                    0 <= j < i ==> !has_key(entries, #[trigger] keys[j]),
            None => forall|i: int| 0 <= i < keys.len() ==> !has_key(entries, #[trigger] keys[i]),
        },
    decreases keys.len(),
{
    if keys.len() > 0 && !has_key(entries, keys[0]) {
        let rest = keys.drop_first();
        lemma_first_present(entries, rest);
        assert(forall|i: int| 1 <= i < keys.len() ==> #[trigger] keys[i] == rest[i - 1]);
        if let Some(key) = first_present(entries, rest) {
            let i = choose|i: int|
                0 <= i < rest.len() && #[trigger] rest[i] == key && forall|j: int|
                    0 <= j < i ==> !has_key(entries, #[trigger] rest[j]);
            assert(keys[i + 1] == key);
            assert forall|j: int| 0 <= j < i + 1 implies !has_key(entries, #[trigger] keys[j]) by {
                if j > 0 {
                    assert(!has_key(entries, rest[j - 1]));
                }
            }
        }
    } else if keys.len() > 0 {
        assert(keys[0] == first_present(entries, keys)->0);
    }
}

proof fn lemma_own_parameters(key: Seq<char>)
    ensures
        has_own_parameter(key) <==> own_parameters().contains(key),
{
    let keys = own_parameters();
    assert(keys[0] == "messages"@);
    assert(keys[1] == "conversation"@);
    assert(keys[2] == "add_generation_prompt"@);
    assert(keys[3] == "continue_final_message"@);
    assert(keys[4] == "tools"@);
    assert(keys[5] == "documents"@);
    assert(keys[6] == "special_tokens"@);
}

/// An argument that has a parameter of its own is refused by its name: one that is
/// there, and the call goes on only if none is.
pub proof fn law_own_parameters_are_refused(entries: Entries, key: Seq<char>)
    ensures
        has_own_parameter(key) && has_key(entries, key) ==> render_only(entries).1 is Some,
        first_present(entries, own_parameters()) matches Some(first) ==> {
            &&& has_own_parameter(first)
            &&& has_key(entries, first)
            &&& render_only(entries).1 == Some(
                Complaint::Type(
                    "apply_chat_template got multiple values for keyword argument `"@ + first
                        + "`"@,
                ),
            )
        },
        first_present(entries, own_parameters()) is None && has_own_parameter(key) ==> !has_key(
            entries,
            key,
        ),
{
    lemma_first_present(entries, own_parameters());
    lemma_own_parameters(key);
    if let Some(first) = first_present(entries, own_parameters()) {
        lemma_own_parameters(first);
    }
}

/// The arguments that have a parameter of their own are looked at in this order:
/// the messages, the conversation, the prompt, the message to continue, the
/// tools, the documents and the special tokens.
pub proof fn law_order_of_own_parameters(entries: Entries)
    ensures
        first_present(entries, own_parameters()) == if has_key(entries, "messages"@) {
            Some("messages"@)
        } else if has_key(entries, "conversation"@) {
            Some("conversation"@)
        } else if has_key(entries, "add_generation_prompt"@) {
            Some("add_generation_prompt"@)
        } else if has_key(entries, "continue_final_message"@) {
            Some("continue_final_message"@)
        } else if has_key(entries, "tools"@) {
            Some("tools"@)
        } else if has_key(entries, "documents"@) {
            Some("documents"@)
        } else if has_key(entries, "special_tokens"@) {
            Some("special_tokens"@)
        } else {
            None
        },
{
    reveal_with_fuel(first_present, 8);
}

proof fn lemma_mask_is_not_dict()
    ensures
        "return_assistant_tokens_mask"@ != "return_dict"@,
{
    reveal_strlit("return_assistant_tokens_mask");
    reveal_strlit("return_dict");
    assert("return_assistant_tokens_mask"@.len() != "return_dict"@.len());
}

/// The arguments of a call without tokenizing are accepted exactly if none of
/// them has a parameter of its own and neither a mask nor a dictionary is asked
/// for. Those that only matter for tokenizing are then gone, and every other has
/// the value that it had.
pub proof fn law_arguments_without_tokenizing(entries: Entries, key: Seq<char>)
    requires
        keys_distinct(entries),
    ensures
        render_only(entries).1 is None <==> first_present(entries, own_parameters()) is None
            && is_off(entries, "return_assistant_tokens_mask"@) && is_off(entries, "return_dict"@),
        render_only(entries).1 is None ==> keys_distinct(render_only(entries).0) && lookup(
            render_only(entries).0,
            key,
        ) == if is_for_tokenizing(key) {
            None
        } else {
            lookup(entries, key)
        },
{
    let mask = "return_assistant_tokens_mask"@;
    let dict = "return_dict"@;
    lemma_mask_is_not_dict();
    law_lookup_after_remove(entries, mask, dict);
    law_lookup_after_remove(entries, mask, key);
    let first = removed(entries, mask);
    law_lookup_after_remove(first, dict, key);
    let second = removed(first, dict);
    law_lookup_after_remove(second, "padding"@, key);
    let third = removed(second, "padding"@);
    law_lookup_after_remove(third, "truncation"@, key);
    let fourth = removed(third, "truncation"@);
    law_lookup_after_remove(fourth, "max_length"@, key);
    let fifth = removed(fourth, "max_length"@);
    law_lookup_after_remove(fifth, "return_tensors"@, key);
    let sixth = removed(fifth, "return_tensors"@);
    law_lookup_after_remove(sixth, "tokenizer_kwargs"@, key);
}

/// What a call that asks for tokens is told: the mask is looked at before the
/// dictionary.
pub proof fn law_asking_for_tokens_is_refused(entries: Entries)
    requires
        keys_distinct(entries),
        first_present(entries, own_parameters()) is None,
    ensures
        lookup(entries, "return_assistant_tokens_mask"@) == Some(JsonTree::Bool(true))
            ==> render_only(entries).1 == Some(
            Complaint::Value(
                "`return_assistant_tokens_mask=True` requires `return_dict=True` and `tokenize=True`"@,
            ),
        ),
        is_off(entries, "return_assistant_tokens_mask"@) && lookup(entries, "return_dict"@) == Some(
            JsonTree::Bool(true),
        ) ==> render_only(entries).1 == Some(
            Complaint::Value("`return_dict=True` requires `tokenize=True`"@),
        ),
        bool_argument(entries, "return_assistant_tokens_mask"@) matches Err(complaint)
            ==> render_only(entries).1 == Some(complaint),
        is_off(entries, "return_assistant_tokens_mask"@) ==> (bool_argument(
            entries,
            "return_dict"@,
        ) matches Err(complaint) ==> render_only(entries).1 == Some(complaint)),
{
    lemma_mask_is_not_dict();
    law_lookup_after_remove(entries, "return_assistant_tokens_mask"@, "return_dict"@);
}

/// Messages are several conversations exactly if they are a list that begins with
/// a list.
pub proof fn law_batches_begin_with_a_list(items: Seq<JsonTree>, messages: JsonTree)
    ensures
        items.len() == 0 ==> !batched_tree(JsonTree::Array(items)),
        items.len() > 0 ==> (batched_tree(JsonTree::Array(items)) <==> items[0] is Array),
        batched_tree(messages) ==> messages is Array && messages->Array_0.len() > 0
            && messages->Array_0[0] is Array,
{
}

/// The field to continue: the one that is named, unless the name is empty;
/// `content` if it is only said that the message is to be continued; none
/// otherwise.
pub proof fn law_field_to_continue(argument: ContinueArgument)
    ensures
        asked_field(ContinueArgument::Missing) == Ok::<Option<Seq<char>>, Complaint>(None),
        asked_field(ContinueArgument::Flag(false)) == Ok::<Option<Seq<char>>, Complaint>(None),
        asked_field(ContinueArgument::Flag(true)) == Ok::<Option<Seq<char>>, Complaint>(
            Some("content"@),
        ),
        argument matches ContinueArgument::Field(name) ==> match asked_field(argument) {
            Ok(Some(field)) => field == name@ && name@.len() > 0,
            Ok(None) => name@.len() == 0,
            Err(_) => false,
        },
        asked_field(argument) is Err <==> argument is Other,
        asked_field(ContinueArgument::Other) == Err::<Option<Seq<char>>, Complaint>(
            Complaint::Type("continue_final_message must be a bool or string"@),
        ),
{
}

/// `n` edits are few enough for a name of so many bytes to have been meant.
pub open spec fn few_enough(key: Seq<char>, n: nat) -> bool {
    4 * n <= 4 + vstd::utf8::encode_utf8(key).len()
}

/// A name is close enough to a key exactly if few enough edits make it of the key.
pub proof fn law_close_means_few_edits(key: Seq<char>, name: Seq<char>, n: nat)
    ensures
        edits_make(key, name, n) && few_enough(key, n) ==> close_enough(key, name),
        close_enough(key, name) ==> edits_make(key, name, edit_distance(key, name)) && few_enough(
            key,
            edit_distance(key, name),
        ),
{
    law_edit_distance_is_least(key, name, n);
}

/// A better guess is made of the key by at most as many edits as any that make
/// the other; where that does not tell, it is the first in order.
pub proof fn law_better_guess(key: Seq<char>, a: Seq<char>, b: Seq<char>, n: nat)
    requires
        better_guess(key, a, b),
        edits_make(key, b, n),
    ensures
        edit_distance(key, a) <= n,
        edits_make(key, a, edit_distance(key, a)),
        edit_distance(key, a) == n ==> text_before(a, b),
{
    law_edit_distance_is_least(key, b, n);
    law_edit_distance_is_least(key, a, 0);
}

/// A suggestion names one of the variables, which few enough edits make of the
/// key, and no other is made of it by fewer. There is none exactly if no variable
/// is that close.
pub proof fn law_suggestion(
    names: Seq<String>,
    key: Seq<char>,
    suggestion: Seq<char>,
    j: int,
    n: nat,
)
    requires
        is_suggestion(names, key, suggestion),
        0 <= j < names.len(),
        edits_make(key, names[j]@, n),
        few_enough(key, n),
    ensures
        exists|i: int|
            0 <= i < names.len() && suggestion == ". Did you mean `"@ + (#[trigger] names[i])@
                + "`?"@ && edits_make(key, names[i]@, edit_distance(key, names[i]@))
                && edit_distance(key, names[i]@) <= n && few_enough(
                key,
                edit_distance(key, names[i]@),
            ) && (edit_distance(key, names[i]@) == n ==> names[i]@ == names[j]@ || text_before(
                names[i]@,
                names[j]@,
            )),
{
    law_close_means_few_edits(key, names[j]@, n);
    law_edit_distance_is_least(key, names[j]@, n);
    assert(close_enough(key, names[j]@));
    let i = choose|i: int|
        0 <= i < names.len() && close_enough(key, (#[trigger] names[i])@) && suggestion
            == ". Did you mean `"@ + names[i]@ + "`?"@ && forall|j: int|
            0 <= j < names.len() && close_enough(key, (#[trigger] names[j])@) ==> names[j]@
                == names[i]@ || better_guess(key, names[i]@, names[j]@);
    law_close_means_few_edits(key, names[i]@, 0);
    if names[i]@ != names[j]@ {
        assert(better_guess(key, names[i]@, names[j]@));
        law_better_guess(key, names[i]@, names[j]@, n);
    }
}

/// Where no variable is made of the key by few enough edits, nothing is
/// suggested.
pub proof fn law_no_suggestion(names: Seq<String>, key: Seq<char>, suggestion: Seq<char>)
    requires
        is_suggestion(names, key, suggestion),
        forall|i: int, n: nat|
            0 <= i < names.len() && few_enough(key, n) ==> !#[trigger] edits_make(
                key,
                names[i]@,
                n,
            ),
    ensures
        suggestion.len() == 0,
{
    reveal_strlit("");
    assert forall|i: int| 0 <= i < names.len() implies !close_enough(
        key,
        (#[trigger] names[i])@,
    ) by {
        law_close_means_few_edits(key, names[i]@, 0);
    }
}

/// The complaint about arguments that a template does not read names the first of
/// them: every argument before it is read.
pub proof fn law_first_unknown_argument_is_named(
    entries: Entries,
    names: Set<Seq<char>>,
    message: Seq<char>,
)
    requires
        tells_unknown(entries, names, message),
    ensures
        exists|i: int, known: Seq<String>, suggestion: Seq<char>|
            {
                &&& 0 <= i < entries.len()
                &&& !names.contains(entries[i].0)
                &&& forall|j: int| 0 <= j < i ==> names.contains((#[trigger] entries[j]).0)
                &&& lists_names(known, names)
                &&& #[trigger] is_suggestion(known, entries[i].0, suggestion)
                &&& message == "apply_chat_template got an unexpected keyword argument `"@
                    + entries[i].0 + "`: the chat template does not reference it"@ + suggestion
                    + " Pass basetenkenizer_strict_template=False to allow unused keyword arguments."@
            },
{
    let (i, known, suggestion) = choose|i: int, known: Seq<String>, suggestion: Seq<char>|
        {
            &&& #[trigger] first_unknown(entries, names, i)
            &&& lists_names(known, names)
            &&& #[trigger] is_suggestion(known, entries[i].0, suggestion)
            &&& message == unknown_kwarg_text(entries[i].0, suggestion)
        };
    assert(is_suggestion(known, entries[i].0, suggestion));
}

/// A template value is taken for several conversations only if it is found to be
/// a list with a first item that is found to be a list, and for one only if one of
/// these is not found.
pub proof fn law_batches_of_values(messages: minijinja::Value, r: bool)
    requires
        reads_batched(messages, r),
    ensures
        r ==> reads_list(messages, true) && exists|first: minijinja::Value| #[trigger]
            reads_first(messages, Some(first)) && reads_list(first, true),
        !r ==> reads_list(messages, false) || reads_first(messages, None) || exists|
            first: minijinja::Value,
        | #[trigger]
            reads_first(messages, Some(first)) && reads_list(first, false),
{
}

/// A refusal is an error of the kind that it says, with the message that it says.
pub proof fn law_refusals_by_kind(r: Result<(), CallError>, message: Seq<char>)
    ensures
        refused(r, Complaint::Type(message)) <==> (r matches Err(CallError::Type(s)) && s@
            == message),
        refused(r, Complaint::Value(message)) <==> (r matches Err(CallError::Value(s)) && s@
            == message),
        refused(r, Complaint::NotImplemented(message)) <==> (r matches Err(
            CallError::NotImplemented(s),
        ) && s@ == message),
{
}

} // verus!
