//! The post-processor of a tokenizer, as the text of its JSON.

use vstd::prelude::*;

use crate::chat_call::arguments::{refused, CallError, Complaint};
use crate::chat_template::convert::{from_json_value, into_json_value};
use crate::chat_template::json::{lemma_tree, lookup, Json, JsonTree};
use crate::chat_template::json_text::{
    compact_text, law_compact_text_says_value, reads_back, READ_LEVELS,
};
use crate::chat_template::layout_laws::{laid_out, law_compact_text_is_laid_out, Style};
use crate::chat_template::outside::{
    display_json, display_json_error, json_error_text, parse_json, parsed,
};

verus! {

/// The post-processor in the JSON of a tokenizer, if it has one.
pub open spec fn post_processor_of(tokenizer: JsonTree) -> Option<JsonTree> {
    match tokenizer {
        JsonTree::Object(entries) => match lookup(entries, "post_processor"@) {
            Some(JsonTree::Null) => None,
            value => value,
        },
        _ => None,
    }
}

/// The post-processor is what the object has under that key, unless it is null;
/// what is no object has none.
pub proof fn law_post_processor_of_object(
    tokenizer: JsonTree,
    entries: Seq<(Seq<char>, JsonTree)>,
    value: JsonTree,
)
    ensures
        post_processor_of(JsonTree::Object(entries)) == Some(value) <==> lookup(
            entries,
            "post_processor"@,
        ) == Some(value) && !(value is Null),
        !(tokenizer is Object) ==> post_processor_of(tokenizer) is None,
{
}

/// The text is the JSON text of the value, and reads back as it unless the value
/// has a float or is nested too deep.
pub open spec fn is_text_of(text: Seq<char>, value: JsonTree) -> bool {
    &&& text == compact_text(value)
    &&& reads_back(value, READ_LEVELS as nat) ==> parsed(text) == Ok::<
        JsonTree,
        serde_json::Error,
    >(value)
}

/// The JSON text of the post-processor in the JSON of a tokenizer.
pub fn post_processor_text(tokenizer: &Json) -> (text: Option<String>)
    ensures
        match post_processor_of(tokenizer@) {
            Some(value) => text matches Some(s) && is_text_of(s@, value),
            None => text is None,
        },
{
    broadcast use lemma_tree;

    match tokenizer {
        Json::Object(map) => match map.get("post_processor") {
            Some(Json::Null) => None,
            Some(value) => {
                let json = into_json_value(value);
                proof {
                    law_compact_text_says_value(value@);
                    vstd::utf8::encode_utf8_valid_utf8(compact_text(value@));
                }
                Some(display_json(&json))
            },
            None => None,
        },
        _ => None,
    }
}

/// What a `tokenizer.json` says.
#[derive(Debug)]
pub struct TokenizerJson {
    /// All of it.
    pub value: Json,
    /// The JSON text of the post-processor, if it has one.
    pub post_processor: Option<String>,
}

/// What the text of a `tokenizer.json` says, or why it is no JSON.
pub fn read_tokenizer_json(text: &str) -> (r: Result<TokenizerJson, String>)
    ensures
        match parsed(text@) {
            Ok(tree) => r matches Ok(tokenizer) && tokenizer.value@ == tree
                && match post_processor_of(tree) {
                Some(value) => tokenizer.post_processor matches Some(s) && is_text_of(s@, value),
                None => tokenizer.post_processor is None,
            },
            Err(error) => r matches Err(message) && message@ == json_error_text(error),
        },
{
    match parse_json(text) {
        Ok(json) => {
            let value = from_json_value(json);
            let post_processor = post_processor_text(&value);
            Ok(TokenizerJson { value, post_processor })
        },
        Err(error) => Err(display_json_error(&error)),
    }
}

/// The JSON of a post-processor that is to be set.
pub fn parse_post_processor(json: &str) -> (r: Result<Json, CallError>)
    ensures
        match parsed(json@) {
            Ok(tree) => r matches Ok(value) && value@ == tree,
            Err(error) => refused(
                r,
                Complaint::Value("invalid post-processor JSON: "@ + json_error_text(error)),
            ),
        },
{
    match parse_json(json) {
        Ok(value) => Ok(from_json_value(value)),
        Err(error) => {
            let mut message = "invalid post-processor JSON: ".to_owned();
            message.append(display_json_error(&error).as_str());
            Err(CallError::Value(message))
        },
    }
}

/// The number of special tokens that are added, where the post-processor makes `n`
/// ids of none.
pub open spec fn added_tokens(is_pair: bool, n: int) -> int {
    if is_pair {
        0
    } else {
        n
    }
}

/// All ids that are made of none are special tokens; none are counted for pairs.
pub proof fn law_added_tokens(is_pair: bool, n: int, more: int)
    ensures
        is_pair ==> added_tokens(is_pair, n) == 0,
        !is_pair ==> added_tokens(is_pair, n + more) - added_tokens(is_pair, n) == more,
        added_tokens(is_pair, 0) == 0,
{
}

/// The number of special tokens that are added to a sequence, from the ids that
/// the post-processor makes of none. Pairs are not supported: it is 0 for them.
pub fn special_tokens_to_add(is_pair: bool, with_special: &Vec<u32>) -> (n: usize)
    ensures
        n == added_tokens(is_pair, with_special.len() as int),
        n == if is_pair {
            0
        } else {
            with_special.len()
        },
{
    if is_pair {
        0
    } else {
        with_special.len()
    }
}

/// Whether an encoding that is given to the post-processor changes: it is left
/// as it is without special tokens. Pairs are refused.
pub fn check_post_process(is_pair: bool, add_special_tokens: bool) -> (r: Result<bool, CallError>)
    ensures
        if is_pair {
            refused(
                r,
                Complaint::NotImplemented(
                    "pair post-processing is not supported by basetenkenizer"@,
                ),
            )
        } else {
            r matches Ok(changes) && changes == add_special_tokens
        },
{
    if is_pair {
        return Err(
            CallError::NotImplemented(
                "pair post-processing is not supported by basetenkenizer".to_owned(),
            ),
        );
    }
    Ok(add_special_tokens)
}

/// The text of a post-processor is its JSON on one line, with a comma alone and a
/// colon alone.
pub proof fn law_post_processor_text(text: Seq<char>, value: JsonTree)
    requires
        is_text_of(text, value),
    ensures
        vstd::utf8::encode_utf8(text) == laid_out(
            Style { item_separator: seq![0x2Cu8], key_separator: seq![0x3Au8], indent: None },
            0,
            value,
        ),
{
    law_compact_text_is_laid_out(value);
}

} // verus!
