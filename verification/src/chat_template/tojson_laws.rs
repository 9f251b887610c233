//! What `tojson` gives for a value and its arguments.

use vstd::prelude::*;
use vstd::utf8::{encode_utf8, valid_utf8};

use super::escape::ascii_text;
use super::formatter::JsonEvent;
use super::json::JsonTree;
use super::json_text::{lemma_ascii_is_utf8, lemma_render_text, lemma_tree_events_text, tree_events};
use super::layout_laws::{laid_out, law_text_is_laid_out, Style};
use super::outside::{
    bool_of, error_cause, error_text, kwarg, raised_text, safe_text_value, strings_of, usize_of,
    Cause, KwargKey, RaisedKind,
};
use super::runtime::{
    fails, invalid_format, is_text_or_error, is_value_or_error, json_text, layout_for,
    lemma_separators_text, not_serialized, not_two, optional_texts, options_are, separators_for,
    text_outcome, tojson_arguments, tojson_keys, CauseKind, Failure, TojsonOptions,
};

verus! {

/// Bytes that are UTF-8 are the text that they encode; others are a failure.
pub proof fn law_text_of_bytes(bytes: Seq<u8>, text: Seq<char>)
    ensures
        text_outcome(encode_utf8(text)) == Ok::<Seq<char>, Failure>(text),
        !valid_utf8(bytes) <==> text_outcome(bytes) == Err::<Seq<char>, Failure>(
            not_serialized(CauseKind::Utf8),
        ),
        text_outcome(bytes) matches Ok(read) ==> encode_utf8(read) == bytes,
{
    vstd::utf8::encode_utf8_valid_utf8(text);
    vstd::utf8::encode_utf8_decode_utf8(text);
    if valid_utf8(bytes) {
        vstd::utf8::decode_utf8_encode_utf8(bytes);
    }
}

/// The text of a JSON value is the value laid out with the separators, and with
/// as many blanks per level as the width says if there is one. It has one exactly
/// if the separators are two or none are given.
pub proof fn law_json_text_of_values(
    tree: JsonTree,
    indent: Option<usize>,
    separators: Option<Seq<Seq<char>>>,
)
    requires
        indent is Some ==> tree_events(tree).len() <= usize::MAX,
    ensures
        match separators_for(separators, indent is Some) {
            None => json_text(Some(tree_events(tree)), indent, separators) == Err::<
                Seq<char>,
                Failure,
            >(not_two()),
            Some(pair) => json_text(Some(tree_events(tree)), indent, separators) matches Ok(text)
                && encode_utf8(text) == laid_out(
                Style {
                    item_separator: pair.0,
                    key_separator: pair.1,
                    indent: match indent {
                        Some(width) => Some(Seq::new(width as nat, |i: int| 0x20u8)),
                        None => None,
                    },
                },
                0,
                tree,
            ),
        },
{
    if let Some(pair) = separators_for(separators, indent is Some) {
        let layout = layout_for(indent, pair);
        lemma_separators_text(separators, indent is Some);
        if let Some(level) = layout.indent {
            lemma_ascii_is_utf8(level);
        }
        lemma_tree_events_text(tree);
        lemma_render_text(layout, tree_events(tree));
        law_text_is_laid_out(indent, pair, tree);
        vstd::utf8::decode_utf8_encode_utf8(layout.render(tree_events(tree)));
    }
}

/// Escaping what is not ASCII is the last step: with it the text is the escaped
/// form of what it is without it, and what fails without it fails with it.
pub proof fn law_escaping_comes_last(
    plain: TojsonOptions,
    escaped: TojsonOptions,
    events: Option<Seq<JsonEvent>>,
)
    requires
        !plain.ensure_ascii,
        escaped.ensure_ascii,
        plain.indent == escaped.indent,
        optional_texts(plain.separators) == optional_texts(escaped.separators),
    ensures
        plain.outcome(events) == json_text(events, plain.indent, optional_texts(plain.separators)),
        plain.outcome(events) matches Ok(text) ==> escaped.outcome(events) == Ok::<
            Seq<char>,
            Failure,
        >(ascii_text(text)),
        plain.outcome(events) matches Err(failure) ==> escaped.outcome(events) == Err::<
            Seq<char>,
            Failure,
        >(failure),
{
}

/// A value without JSON form fails, and so do separators that are not two; these
/// are looked at first.
pub proof fn law_values_without_text(indent: Option<usize>, separators: Option<Seq<Seq<char>>>)
    ensures
        separators_for(separators, indent is Some) is None ==> json_text(None, indent, separators)
            == Err::<Seq<char>, Failure>(not_two()),
        separators_for(separators, indent is Some) is Some ==> json_text(None, indent, separators)
            == Err::<Seq<char>, Failure>(not_serialized(CauseKind::Json)),
        not_two().message == raised_text(
            RaisedKind::InvalidOperation,
            "tojson separators must contain exactly two strings"@,
        ),
        not_two().cause is None,
        not_serialized(CauseKind::Json).message == raised_text(
            RaisedKind::BadSerialization,
            "cannot serialize to JSON"@,
        ),
        not_serialized(CauseKind::Json).cause == Some(CauseKind::Json),
        not_serialized(CauseKind::Utf8).message == not_serialized(CauseKind::Json).message,
        not_serialized(CauseKind::Utf8).cause == Some(CauseKind::Utf8),
        invalid_format().message == raised_text(
            RaisedKind::InvalidOperation,
            "invalid strftime_now format"@,
        ),
        invalid_format().cause == Some(CauseKind::Format),
{
}

/// An error that tells a failure displays its message and has a source of its
/// kind, or none if the failure has none.
pub proof fn law_errors_tell_failures(error: minijinja::Error, failure: Failure)
    requires
        fails(error, failure),
    ensures
        error_text(error) == failure.message,
        failure.cause is None <==> error_cause(error) is None,
        failure.cause == Some(CauseKind::Json) <==> (error_cause(error) matches Some(
            Cause::Json(_),
        )),
        failure.cause == Some(CauseKind::Utf8) <==> (error_cause(error) matches Some(
            Cause::Utf8(_),
        )),
        failure.cause == Some(CauseKind::Format) <==> (error_cause(error) matches Some(
            Cause::Format(_),
        )),
{
}

/// A result is the text or the failure, whichever the outcome is, and nothing
/// else; what a template gets is the text marked as safe.
pub proof fn law_results_are_outcomes(
    text: Result<String, minijinja::Error>,
    value: Result<minijinja::Value, minijinja::Error>,
    outcome: Result<Seq<char>, Failure>,
)
    ensures
        is_text_or_error(text, outcome) ==> (text is Ok <==> outcome is Ok),
        is_text_or_error(text, outcome) && text is Ok ==> text->Ok_0@ == outcome->Ok_0,
        is_text_or_error(text, outcome) && text is Err ==> fails(text->Err_0, outcome->Err_0),
        is_value_or_error(value, outcome) ==> (value is Ok <==> outcome is Ok),
        is_value_or_error(value, outcome) && value is Ok ==> value->Ok_0 == safe_text_value(
            outcome->Ok_0,
        ),
        is_value_or_error(value, outcome) && value is Err ==> fails(value->Err_0, outcome->Err_0),
{
}

/// Each option of `tojson` comes from the argument of its name. A flag is on only
/// if the argument is `true`. The first argument that cannot be read is the
/// error, in the order in which they are read.
pub proof fn law_options_come_from_arguments(
    entries: Seq<(KwargKey, minijinja::Value)>,
    moments: (int, int, int, int),
    options: TojsonOptions,
)
    ensures
        tojson_arguments(entries, moments) matches Ok(arguments) ==> options_are(
            options,
            arguments,
        ) ==> {
            &&& options.ensure_ascii <==> bool_of(kwarg(entries, "ensure_ascii"@), moments.0)
                == Ok::<Option<bool>, minijinja::Error>(Some(true))
            &&& usize_of(kwarg(entries, "indent"@), moments.1) == Ok::<
                Option<usize>,
                minijinja::Error,
            >(options.indent)
            &&& strings_of(kwarg(entries, "separators"@), moments.2) == Ok::<
                Option<Seq<Seq<char>>>,
                minijinja::Error,
            >(optional_texts(options.separators))
            &&& options.sort_keys <==> bool_of(kwarg(entries, "sort_keys"@), moments.3) == Ok::<
                Option<bool>,
                minijinja::Error,
            >(Some(true))
        },
        tojson_arguments(entries, moments) matches Err(error) ==> {
            let a = bool_of(kwarg(entries, "ensure_ascii"@), moments.0);
            let b = usize_of(kwarg(entries, "indent"@), moments.1);
            let c = strings_of(kwarg(entries, "separators"@), moments.2);
            let d = bool_of(kwarg(entries, "sort_keys"@), moments.3);
            ||| a is Err && a->Err_0 == error
            ||| a is Ok && b is Err && b->Err_0 == error
            ||| a is Ok && b is Ok && c is Err && c->Err_0 == error
            ||| a is Ok && b is Ok && c is Ok && d is Err && d->Err_0 == error
        },
        tojson_arguments(entries, moments) is Ok <==> bool_of(
            kwarg(entries, "ensure_ascii"@),
            moments.0,
        ) is Ok && usize_of(kwarg(entries, "indent"@), moments.1) is Ok && strings_of(
            kwarg(entries, "separators"@),
            moments.2,
        ) is Ok && bool_of(kwarg(entries, "sort_keys"@), moments.3) is Ok,
{
}

/// `tojson` has four arguments.
pub proof fn law_arguments_of_tojson(name: Seq<char>)
    ensures
        tojson_keys().contains(name) <==> name == "ensure_ascii"@ || name == "indent"@ || name
            == "separators"@ || name == "sort_keys"@,
{
}

} // verus!
