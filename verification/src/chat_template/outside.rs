//! The template engine, the JSON library and the clock, and what is known of
//! them.

use std::fmt::Write as _;

use serde::Serialize;
use vstd::prelude::*;
use vstd::utf8::{decode_utf8, encode_utf8, valid_utf8};

use super::convert::{is_plain, is_sound, value_of};
use super::formatter::{HfJsonFormatter, JsonEvent};
use super::json::{extended, keys_distinct, JsonTree};
use super::json_text::{compact_text, decimal, is_float, reads_back, says, tree_events, READ_LEVELS};
use super::runtime::{raise_exception, strftime_now, tojson};

verus! {

/// `std::io::Error`, which a writer may give.
#[verifier::external_type_specification]
#[verifier::external_body]
pub struct ExIoError(std::io::Error);

/// `std::fmt::Error`, which formatting may give.
#[verifier::external_type_specification]
#[verifier::external_body]
pub struct ExFmtError(std::fmt::Error);

/// `std::string::FromUtf8Error`, for bytes that are not UTF-8.
#[verifier::external_type_specification]
#[verifier::external_body]
pub struct ExFromUtf8Error(std::string::FromUtf8Error);

/// `minijinja::Value`: a value of a template.
#[verifier::external_type_specification]
#[verifier::external_body]
pub struct ExTemplateValue(minijinja::Value);

/// `minijinja::Error`: why a template failed.
#[verifier::external_type_specification]
#[verifier::external_body]
pub struct ExTemplateFailure(minijinja::Error);

/// `minijinja::value::Kwargs`: the keyword arguments of a call in a template.
#[verifier::external_type_specification]
#[verifier::external_body]
pub struct ExKwargs(minijinja::value::Kwargs);

/// `minijinja::Environment`: the templates, filters and functions that a
/// template may use.
#[verifier::external_type_specification]
#[verifier::external_body]
pub struct ExEnvironment<'source>(minijinja::Environment<'source>);

/// `serde_json::Value`: a JSON value.
#[verifier::external_type_specification]
#[verifier::external_body]
pub struct ExJsonValue(serde_json::Value);

/// `serde_json::Error`: why JSON could not be read or written.
#[verifier::external_type_specification]
#[verifier::external_body]
pub struct ExJsonError(serde_json::Error);

/// What writers were handed, and what each of them replied.
pub struct WriteLog {
    entries: Ghost<Seq<(Seq<u8>, std::io::Result<()>)>>,
}

impl View for WriteLog {
    type V = Seq<(Seq<u8>, std::io::Result<()>)>;

    closed spec fn view(&self) -> Seq<(Seq<u8>, std::io::Result<()>)> {
        self.entries@
    }
}

impl WriteLog {
    /// Nothing was handed over.
    pub fn new() -> (log: Self)
        ensures
            log@.len() == 0,
    {
        WriteLog { entries: Ghost(Seq::empty()) }
    }

    /// `Write::write_all` hands the bytes to the writer, in order, and gives its
    /// reply; both are logged. When a writer fails, and what it does with the
    /// bytes, is up to it: nothing is known of the writer afterwards.
    #[verifier::external_body]
    pub(crate) fn write_all<W: ?Sized + std::io::Write>(
        &mut self,
        writer: &mut W,
        bytes: &[u8],
    ) -> (r: std::io::Result<()>)
        ensures
            final(self)@ == old(self)@.push((bytes@, r)),
    {
        writer.write_all(bytes)
    }
}

// Template values.

/// The value of `Value::from(())`.
pub uninterp spec fn none_value(unit: ()) -> minijinja::Value;

/// The value of `Value::from` of a `bool`.
pub uninterp spec fn bool_value(b: bool) -> minijinja::Value;

/// The value of `Value::from` of an `i64`.
pub uninterp spec fn int_value(n: i64) -> minijinja::Value;

/// The value of `Value::from` of a `u64`.
pub uninterp spec fn uint_value(n: u64) -> minijinja::Value;

/// The value of `Value::from` of the float of a JSON number, if it has one.
pub uninterp spec fn float_value(n: serde_json::Number) -> Option<minijinja::Value>;

/// The value of `Value::from` of a text.
pub uninterp spec fn text_value(text: Seq<char>) -> minijinja::Value;

/// The value of `Value::from_safe_string` of a text.
pub uninterp spec fn safe_text_value(text: Seq<char>) -> minijinja::Value;

/// The value of `Value::from` of a list of values.
pub uninterp spec fn list_value(items: Seq<minijinja::Value>) -> minijinja::Value;

/// The value that collecting keys and values gives.
pub uninterp spec fn map_value(entries: Seq<(Seq<char>, minijinja::Value)>) -> minijinja::Value;

/// `Value::from(())`: the value `none`.
#[verifier::external_body]
pub(crate) fn make_none() -> (value: minijinja::Value)
    ensures
        value == none_value(()),
        !is_list(value, 0),
{
    minijinja::Value::from(())
}

/// `Value::from` of a `bool`.
#[verifier::external_body]
pub(crate) fn make_bool(b: bool) -> (value: minijinja::Value)
    ensures
        value == bool_value(b),
        !is_list(value, 0),
{
    minijinja::Value::from(b)
}

/// `Value::from` of an `i64`.
#[verifier::external_body]
pub(crate) fn make_int(n: i64) -> (value: minijinja::Value)
    ensures
        value == int_value(n),
        !is_list(value, 0),
{
    minijinja::Value::from(n)
}

/// `Value::from` of a `u64`.
#[verifier::external_body]
pub(crate) fn make_uint(n: u64) -> (value: minijinja::Value)
    ensures
        value == uint_value(n),
        !is_list(value, 0),
{
    minijinja::Value::from(n)
}

/// `Value::from` of the float that `Number::as_f64` gives, if it gives one.
#[verifier::external_body]
pub(crate) fn make_float(n: &serde_json::Number) -> (value: Option<minijinja::Value>)
    ensures
        value == float_value(*n),
        value is Some ==> !is_list(value->0, 0),
{
    n.as_f64().map(minijinja::Value::from)
}

/// `Value::from` of a `&str`.
#[verifier::external_body]
pub(crate) fn make_text(text: &str) -> (value: minijinja::Value)
    ensures
        value == text_value(text@),
        !is_list(value, 0),
{
    minijinja::Value::from(text)
}

/// `Value::from_safe_string`: a text that is not escaped again.
#[verifier::external_body]
pub(crate) fn make_safe_text(text: String) -> (value: minijinja::Value)
    ensures
        value == safe_text_value(text@),
{
    minijinja::Value::from_safe_string(text)
}

/// `Value::from` of a `Vec`: a sequence of the values, of which the first comes
/// first.
#[verifier::external_body]
pub(crate) fn make_list(items: Vec<minijinja::Value>) -> (value: minijinja::Value)
    ensures
        value == list_value(items@),
        is_list(value, 0),
        first_item(value, 0) == (if items@.len() > 0 {
            Some(items@[0])
        } else {
            None
        }),
{
    minijinja::Value::from(items)
}

/// The keys as text, each with its value.
pub open spec fn text_keys(entries: Seq<(String, minijinja::Value)>) -> Seq<(
    Seq<char>,
    minijinja::Value,
)> {
    Seq::new(entries.len(), |i: int| (entries[i].0@, entries[i].1))
}

/// `Value::from_iter` of keys and values: a map of them. Where a key comes
/// twice, the later value stands in the earlier place.
#[verifier::external_body]
pub(crate) fn make_map(entries: Vec<(String, minijinja::Value)>) -> (value: minijinja::Value)
    ensures
        value == map_value(text_keys(entries@)),
        value == map_value(extended(Seq::empty(), text_keys(entries@))),
        !is_list(value, 0),
{
    entries.into_iter().collect()
}

// What an object of the host program holds may differ from one look at it to
// the next, so what is read of a value is named by the value and a moment.
// Values that were made from JSON hold nothing that changes: what they are is
// always read at the moment 0. How any value is written to a serializer depends
// on the moment too: while the engine turns something of the host program into a
// value on the same thread, it writes a handle in place of a value.

/// A value is read at a moment.
pub open spec fn read_at(value: minijinja::Value, moment: int) -> bool {
    is_plain(value) ==> moment == 0
}

/// Whether `Value::kind` of a value is that of a sequence.
pub uninterp spec fn is_list(value: minijinja::Value, moment: int) -> bool;

/// The first item that `Value::try_iter` of a value gives, if there is one.
pub uninterp spec fn first_item(value: minijinja::Value, moment: int) -> Option<minijinja::Value>;

/// A template value turns out to be a list or not.
pub open spec fn reads_list(value: minijinja::Value, r: bool) -> bool {
    exists|moment: int| read_at(value, moment) && r == #[trigger] is_list(value, moment)
}

/// Iterating over a template value begins with the item, if there is one.
pub open spec fn reads_first(value: minijinja::Value, item: Option<minijinja::Value>) -> bool {
    exists|moment: int| read_at(value, moment) && item == #[trigger] first_item(value, moment)
}

/// `Value::kind`, compared to that of sequences.
#[verifier::external_body]
pub(crate) fn value_is_list(value: &minijinja::Value) -> (r: bool)
    ensures
        reads_list(*value, r),
{
    value.kind() == minijinja::value::ValueKind::Seq
}

/// `Value::try_iter`, of which the first item is taken.
#[verifier::external_body]
pub(crate) fn value_first_item(value: &minijinja::Value) -> (item: Option<minijinja::Value>)
    ensures
        reads_first(*value, item),
{
    value.try_iter().ok().and_then(|mut items| items.next())
}

/// What `Number::as_i64` gives for a number.
pub uninterp spec fn number_i64(n: serde_json::Number) -> Option<i64>;

/// What `Number::as_u64` gives for a number.
pub uninterp spec fn number_u64(n: serde_json::Number) -> Option<u64>;

/// `Number::as_i64`: the number, if it is an integer in the range of `i64`.
#[verifier::external_body]
pub(crate) fn as_i64(n: &serde_json::Number) -> (r: Option<i64>)
    ensures
        r == number_i64(*n),
{
    n.as_i64()
}

/// `Number::as_u64`: the number, if it is an integer in the range of `u64`.
#[verifier::external_body]
pub(crate) fn as_u64(n: &serde_json::Number) -> (r: Option<u64>)
    ensures
        r == number_u64(*n),
{
    n.as_u64()
}

// Errors of templates.

/// What an error displays.
pub uninterp spec fn error_text(error: minijinja::Error) -> Seq<char>;

/// The kinds of error that filters and functions of templates raise.
#[derive(Clone, Copy)]
pub enum RaisedKind {
    /// An operation is not possible.
    InvalidOperation,
    /// A value has no JSON form.
    BadSerialization,
}

impl RaisedKind {
    /// What the engine calls the kind.
    pub open spec fn description(self) -> Seq<char> {
        match self {
            RaisedKind::InvalidOperation => "invalid operation"@,
            RaisedKind::BadSerialization => "could not serialize to value"@,
        }
    }
}

/// What an error of the kind with this detail displays.
pub open spec fn raised_text(kind: RaisedKind, detail: Seq<char>) -> Seq<char> {
    kind.description() + ": "@ + detail
}

/// Why an error of a filter or a function came about.
pub enum Cause {
    /// Formatting failed.
    Format(std::fmt::Error),
    /// A value has no JSON form.
    Json(serde_json::Error),
    /// Bytes are not UTF-8.
    Utf8(std::string::FromUtf8Error),
}

/// The error that was recorded as the source of an error, if one was.
pub uninterp spec fn error_cause(error: minijinja::Error) -> Option<Cause>;

/// `Error::new`, which displays its kind, a colon and the detail, and has no
/// source.
#[verifier::external_body]
pub(crate) fn raise(kind: RaisedKind, detail: String) -> (error: minijinja::Error)
    ensures
        error_text(error) == raised_text(kind, detail@),
        error_cause(error) is None,
{
    let kind = match kind {
        RaisedKind::InvalidOperation => minijinja::ErrorKind::InvalidOperation,
        RaisedKind::BadSerialization => minijinja::ErrorKind::BadSerialization,
    };
    minijinja::Error::new(kind, detail)
}

/// `Error::with_source`, which keeps what the error displays and records why it
/// came about.
#[verifier::external_body]
pub(crate) fn with_source(error: minijinja::Error, cause: Cause) -> (r: minijinja::Error)
    ensures
        error_text(r) == error_text(error),
        error_cause(r) == Some(cause),
{
    match cause {
        Cause::Format(source) => error.with_source(source),
        Cause::Json(source) => error.with_source(source),
        Cause::Utf8(source) => error.with_source(source),
    }
}

/// The text that `Display` of an error gives.
#[verifier::external_body]
pub(crate) fn display_error(error: &minijinja::Error) -> (text: String)
    ensures
        text@ == error_text(*error),
{
    error.to_string()
}

// JSON values.

/// What a JSON value holds.
pub uninterp spec fn held_tree(value: serde_json::Value) -> JsonTree;

/// What the values hold.
pub open spec fn held_trees(values: Seq<serde_json::Value>) -> Seq<JsonTree> {
    Seq::new(values.len(), |i: int| held_tree(values[i]))
}

/// What the entries hold.
pub open spec fn held_entries(entries: Seq<(String, serde_json::Value)>) -> Seq<(
    Seq<char>,
    JsonTree,
)> {
    Seq::new(entries.len(), |i: int| (entries[i].0@, held_tree(entries[i].1)))
}

/// A JSON value, one level of it open.
pub enum JsonNode {
    /// `null`
    Null,
    /// `true` or `false`
    Bool(bool),
    /// A number.
    Number(serde_json::Number),
    /// A string.
    String(String),
    /// The items of an array.
    Array(Vec<serde_json::Value>),
    /// The entries of an object.
    Object(Vec<(String, serde_json::Value)>),
}

impl JsonNode {
    /// What the value holds.
    pub open spec fn tree(self) -> JsonTree {
        match self {
            JsonNode::Null => JsonTree::Null,
            JsonNode::Bool(b) => JsonTree::Bool(b),
            JsonNode::Number(n) => JsonTree::Number(n),
            JsonNode::String(s) => JsonTree::String(s@),
            JsonNode::Array(values) => JsonTree::Array(held_trees(values@)),
            JsonNode::Object(entries) => JsonTree::Object(held_entries(entries@)),
        }
    }
}

/// The variants of `serde_json::Value`: one level of a value. The keys of an
/// object are distinct.
#[verifier::external_body]
pub(crate) fn open_json(value: serde_json::Value) -> (node: JsonNode)
    ensures
        node.tree() == held_tree(value),
        node matches JsonNode::Object(entries) ==> keys_distinct(held_entries(entries@)),
{
    match value {
        serde_json::Value::Null => JsonNode::Null,
        serde_json::Value::Bool(b) => JsonNode::Bool(b),
        serde_json::Value::Number(n) => JsonNode::Number(n),
        serde_json::Value::String(s) => JsonNode::String(s),
        serde_json::Value::Array(values) => JsonNode::Array(values),
        serde_json::Value::Object(map) => JsonNode::Object(map.into_iter().collect()),
    }
}

/// The variants of `serde_json::Value`: a value of which one level is given.
/// The entries of an object keep their order.
#[verifier::external_body]
pub(crate) fn close_json(node: JsonNode) -> (value: serde_json::Value)
    requires
        node matches JsonNode::Object(entries) ==> keys_distinct(held_entries(entries@)),
    ensures
        held_tree(value) == node.tree(),
{
    match node {
        JsonNode::Null => serde_json::Value::Null,
        JsonNode::Bool(b) => serde_json::Value::Bool(b),
        JsonNode::Number(n) => serde_json::Value::Number(n),
        JsonNode::String(s) => serde_json::Value::String(s),
        JsonNode::Array(values) => serde_json::Value::Array(values),
        JsonNode::Object(entries) => serde_json::Value::Object(entries.into_iter().collect()),
    }
}

/// `Display` of `serde_json::Value`: its compact JSON text. What is said of
/// reading a text back at [`serialize_tree`] holds of it too.
#[verifier::external_body]
pub(crate) fn display_json(value: &serde_json::Value) -> (text: String)
    ensures
        text@ == compact_text(held_tree(*value)),
        is_read(encode_utf8(text@), held_tree(*value), parsed(text@)),
{
    value.to_string()
}

/// The value that a JSON text says, or why it is no JSON.
pub uninterp spec fn parsed(text: Seq<char>) -> Result<JsonTree, serde_json::Error>;

/// What `Display` of a JSON error gives.
pub uninterp spec fn json_error_text(error: serde_json::Error) -> Seq<char>;

/// `serde_json::from_str`: the value that the text says.
#[verifier::external_body]
pub(crate) fn parse_json(text: &str) -> (r: Result<serde_json::Value, serde_json::Error>)
    ensures
        match r {
            Ok(value) => (parsed(text@) is Ok && parsed(text@)->Ok_0 == held_tree(value)),
            Err(error) => (parsed(text@) is Err && parsed(text@)->Err_0 == error),
        },
{
    serde_json::from_str(text)
}

/// The text that `Display` of a JSON error gives.
#[verifier::external_body]
pub(crate) fn display_json_error(error: &serde_json::Error) -> (text: String)
    ensures
        text@ == json_error_text(*error),
{
    error.to_string()
}

/// The JSON value that a template value becomes, if it has a JSON form.
pub uninterp spec fn json_form(value: minijinja::Value, moment: int) -> Option<JsonTree>;

/// The form that a handle has: a list of its number.
pub open spec fn is_handle_form(form: Option<JsonTree>) -> bool {
    exists|n: serde_json::Number|
        form == Some(JsonTree::Array(seq![JsonTree::Number(n)])) && (#[trigger] number_i64(
            n,
        ) matches Some(handle) && 0 <= handle <= u32::MAX)
}

/// If the value was made from JSON, the form is that JSON, or a handle's.
pub open spec fn is_form_of(value: minijinja::Value, form: Option<JsonTree>) -> bool {
    forall|tree: JsonTree|
        value == #[trigger] value_of(tree) && is_sound(tree) ==> form == Some(tree)
            || is_handle_form(form)
}

/// The JSON form that a template value turns out to have, if it has one.
pub open spec fn reads_form(value: minijinja::Value, form: Option<JsonTree>) -> bool {
    is_form_of(value, form) && exists|moment: int| form == #[trigger] json_form(value, moment)
}

/// The result is the form, which is that of the value.
pub open spec fn formed(
    r: Result<serde_json::Value, serde_json::Error>,
    value: minijinja::Value,
    form: Option<JsonTree>,
) -> bool {
    &&& is_form_of(value, form)
    &&& form == match r {
        Ok(json) => Some(held_tree(json)),
        Err(_) => None,
    }
}

/// `serde_json::to_value` of a template value. A value that was made from JSON
/// becomes that JSON again, unless a handle is written in its place.
#[verifier::external_body]
pub(crate) fn to_json_value(
    value: &minijinja::Value,
) -> (r: Result<serde_json::Value, serde_json::Error>)
    ensures
        exists|moment: int| formed(r, *value, #[trigger] json_form(*value, moment)),
{
    serde_json::to_value(value)
}

/// What a serializer tells its formatter of a template value, if it has a JSON
/// form.
pub uninterp spec fn value_events(value: minijinja::Value, moment: int) -> Option<Seq<JsonEvent>>;

/// What is told of a handle: a list of its number.
pub open spec fn handle_events(handle: nat) -> Seq<JsonEvent> {
    seq![
        JsonEvent::BeginArray,
        JsonEvent::BeginArrayValue(true),
        JsonEvent::Text(encode_utf8(decimal(handle as int))),
        JsonEvent::EndArrayValue,
        JsonEvent::EndArray,
    ]
}

/// The events are those of a handle.
pub open spec fn are_handle_events(events: Option<Seq<JsonEvent>>) -> bool {
    exists|handle: nat| handle <= u32::MAX && events == Some(#[trigger] handle_events(handle))
}

/// If the value was made from JSON, the events are those of that JSON, or of a
/// handle.
pub open spec fn are_events_of(
    value: minijinja::Value,
    events: Option<Seq<JsonEvent>>,
) -> bool {
    forall|tree: JsonTree|
        value == #[trigger] value_of(tree) && is_sound(tree) ==> events == Some(tree_events(tree))
            || are_handle_events(events)
}

/// What a serializer turns out to tell its formatter of a template value.
pub open spec fn reads_events(value: minijinja::Value, events: Option<Seq<JsonEvent>>) -> bool {
    are_events_of(value, events) && exists|moment: int|
        events == #[trigger] value_events(value, moment)
}

/// The bytes are what the formatter writes for the events; without events there
/// is an error.
pub open spec fn written(
    r: Result<Vec<u8>, serde_json::Error>,
    formatter: HfJsonFormatter,
    events: Option<Seq<JsonEvent>>,
) -> bool {
    match r {
        Ok(bytes) => events is Some && bytes@ == formatter@.render(events->0),
        Err(_) => events is None,
    }
}

/// The events are those of the value, and the bytes are what the formatter writes
/// for them.
pub open spec fn written_of(
    r: Result<Vec<u8>, serde_json::Error>,
    formatter: HfJsonFormatter,
    value: minijinja::Value,
    events: Option<Seq<JsonEvent>>,
) -> bool {
    are_events_of(value, events) && written(r, formatter, events)
}

/// The text that a serializer writes for a number that is a float.
pub uninterp spec fn float_text(n: serde_json::Number) -> Seq<char>;

/// The bytes are the text.
pub open spec fn is_written(r: Result<Vec<u8>, serde_json::Error>, text: Seq<char>) -> bool {
    r matches Ok(bytes) && bytes@ == encode_utf8(text)
}

/// A JSON text of a value without floats, not nested too deep, reads as the
/// value.
pub open spec fn is_read(
    text: Seq<u8>,
    tree: JsonTree,
    read: Result<JsonTree, serde_json::Error>,
) -> bool {
    valid_utf8(text) && says(text, tree) && reads_back(tree, READ_LEVELS as nat) ==> read == Ok::<
        JsonTree,
        serde_json::Error,
    >(tree)
}

/// `Serialize` of a template value by a `serde_json::Serializer` with the
/// formatter: the serializer goes through the value and calls the formatter for
/// each event, which writes the text that its layout has for it. What the
/// events are does not depend on the formatter. Of a value that was made from
/// JSON they are those of that JSON, unless a handle is written in its place.
#[verifier::external_body]
pub(crate) fn serialize_value(
    value: &minijinja::Value,
    formatter: HfJsonFormatter,
) -> (r: Result<Vec<u8>, serde_json::Error>)
    ensures
        exists|moment: int|
            written_of(r, formatter, *value, #[trigger] value_events(*value, moment)),
{
    let mut bytes = Vec::new();
    let mut serializer = serde_json::Serializer::with_formatter(&mut bytes, formatter);
    value.serialize(&mut serializer)?;
    Ok(bytes)
}

/// As [`serialize_value`], for a `serde_json::Value`: it always has events, those
/// of [`tree_events`]; a float on its own gives its text. And
/// `serde_json::from_str` takes a JSON text of the value, however it is spaced,
/// back to the value, unless that has a float or is nested too deep for it.
#[verifier::external_body]
pub(crate) fn serialize_tree(
    value: &serde_json::Value,
    formatter: HfJsonFormatter,
) -> (r: Result<Vec<u8>, serde_json::Error>)
    ensures
        written(r, formatter, Some(tree_events(held_tree(*value)))),
        held_tree(*value) matches JsonTree::Number(n) ==> is_float(n) ==> is_written(
            r,
            float_text(n),
        ),
        r matches Ok(bytes) ==> is_read(
            bytes@,
            held_tree(*value),
            parsed(decode_utf8(bytes@)),
        ),
{
    let mut bytes = Vec::new();
    let mut serializer = serde_json::Serializer::with_formatter(&mut bytes, formatter);
    value.serialize(&mut serializer)?;
    Ok(bytes)
}

/// `String::from_utf8`: the text that the bytes encode, if they are UTF-8.
#[verifier::external_body]
pub(crate) fn text_from_utf8(
    bytes: Vec<u8>,
) -> (text: Result<String, std::string::FromUtf8Error>)
    ensures
        match text {
            Ok(s) => valid_utf8(bytes@) && s@ == decode_utf8(bytes@),
            Err(_) => !valid_utf8(bytes@),
        },
{
    String::from_utf8(bytes)
}

// Keyword arguments of template calls.

/// The name of a keyword argument. What `**` passes on may have any.
pub enum KwargKey {
    /// A string.
    Text(Seq<char>),
    /// Bytes that encode this text; they are no string.
    Bytes(Seq<char>),
    /// Something else.
    Other,
}

/// The keyword arguments of a call, in order.
pub uninterp spec fn kwarg_entries(kwargs: minijinja::value::Kwargs) -> Seq<(
    KwargKey,
    minijinja::Value,
)>;

/// The keyword arguments that were asked for, whether they are there or not.
pub uninterp spec fn asked(kwargs: minijinja::value::Kwargs) -> Set<Seq<char>>;

/// The value of a keyword argument, if it is there.
pub open spec fn kwarg(
    entries: Seq<(KwargKey, minijinja::Value)>,
    key: Seq<char>,
) -> Option<minijinja::Value>
    decreases entries.len(),
{
    if entries.len() == 0 {
        None
    } else if entries[0].0 == KwargKey::Text(key) {
        Some(entries[0].1)
    } else {
        kwarg(entries.drop_first(), key)
    }
}

/// What an optional argument is as a `bool`. The error of one that is none tells
/// its kind.
pub uninterp spec fn bool_of(value: Option<minijinja::Value>, moment: int) -> Result<
    Option<bool>,
    minijinja::Error,
>;

/// What an optional argument is as a `usize`. The error of one that is none tells
/// its kind.
pub uninterp spec fn usize_of(value: Option<minijinja::Value>, moment: int) -> Result<
    Option<usize>,
    minijinja::Error,
>;

/// What an optional argument is as a list of strings.
pub uninterp spec fn strings_of(value: Option<minijinja::Value>, moment: int) -> Result<
    Option<Seq<Seq<char>>>,
    minijinja::Error,
>;

/// The texts of the strings.
pub open spec fn texts(strings: Seq<String>) -> Seq<Seq<char>> {
    Seq::new(strings.len(), |i: int| strings[i]@)
}

/// After a key was asked for: the same arguments, and the key among those that
/// were asked for unless its value has the wrong type.
pub open spec fn asks(
    before: minijinja::value::Kwargs,
    after: minijinja::value::Kwargs,
    key: Seq<char>,
    ok: bool,
) -> bool {
    &&& kwarg_entries(after) == kwarg_entries(before)
    &&& asked(after) == if ok {
        asked(before).insert(key)
    } else {
        asked(before)
    }
}

/// `Kwargs::get` of an optional `bool`; it is `None` if there is no such
/// argument. The key is recorded.
#[verifier::external_body]
pub(crate) fn get_bool(
    kwargs: &mut minijinja::value::Kwargs,
    key: &str,
) -> (r: Result<Option<bool>, minijinja::Error>)
    ensures
        exists|moment: int| r == #[trigger] bool_of(
            kwarg(kwarg_entries(*old(kwargs)), key@),
            moment,
        ),
        kwarg(kwarg_entries(*old(kwargs)), key@) is None ==> (r is Ok && r->Ok_0 is None),
        asks(*old(kwargs), *final(kwargs), key@, r is Ok),
{
    kwargs.get(key)
}

/// `Kwargs::get` of an optional `usize`; it is `None` if there is no such
/// argument. The key is recorded.
#[verifier::external_body]
pub(crate) fn get_usize(
    kwargs: &mut minijinja::value::Kwargs,
    key: &str,
) -> (r: Result<Option<usize>, minijinja::Error>)
    ensures
        exists|moment: int| r == #[trigger] usize_of(
            kwarg(kwarg_entries(*old(kwargs)), key@),
            moment,
        ),
        kwarg(kwarg_entries(*old(kwargs)), key@) is None ==> (r is Ok && r->Ok_0 is None),
        asks(*old(kwargs), *final(kwargs), key@, r is Ok),
{
    kwargs.get(key)
}

/// `Kwargs::get` of an optional list of strings; it is `None` if there is no
/// such argument. The key is recorded.
#[verifier::external_body]
pub(crate) fn get_strings(
    kwargs: &mut minijinja::value::Kwargs,
    key: &str,
) -> (r: Result<Option<Vec<String>>, minijinja::Error>)
    ensures
        exists|moment: int| #[trigger]
            strings_of(kwarg(kwarg_entries(*old(kwargs)), key@), moment) == match r {
                Ok(Some(strings)) => Ok(Some(texts(strings@))),
                Ok(None) => Ok(None),
                Err(error) => Err(error),
            },
        kwarg(kwarg_entries(*old(kwargs)), key@) is None ==> (r is Ok && r->Ok_0 is None),
        asks(*old(kwargs), *final(kwargs), key@, r is Ok),
{
    kwargs.get(key)
}

/// What is wrong with the first argument that was not asked for, if there is
/// one.
pub open spec fn unasked(
    entries: Seq<(KwargKey, minijinja::Value)>,
    asked: Set<Seq<char>>,
) -> Option<Seq<char>>
    decreases entries.len(),
{
    if entries.len() == 0 {
        None
    } else {
        match entries[0].0 {
            KwargKey::Other => Some("invalid operation: non string keys passed to kwargs"@),
            KwargKey::Text(key) | KwargKey::Bytes(key) => if asked.contains(key) {
                unasked(entries.drop_first(), asked)
            } else {
                Some("too many arguments: unknown keyword argument '"@ + key + "'"@)
            },
        }
    }
}

/// `Kwargs::assert_all_used`, which fails at the first argument that no `get`
/// asked for.
#[verifier::external_body]
pub(crate) fn assert_all_used(
    kwargs: &minijinja::value::Kwargs,
) -> (r: Result<(), minijinja::Error>)
    ensures
        match unasked(kwarg_entries(*kwargs), asked(*kwargs)) {
            None => r is Ok,
            Some(message) => (r is Err && error_text(r->Err_0) == message),
        },
{
    kwargs.assert_all_used()
}

// The clock.

/// Every specifier of the format is one that times can be formatted by.
pub uninterp spec fn strftime_valid(format: Seq<char>) -> bool;

/// What a format gives for the time at a moment, if it can be formatted.
pub uninterp spec fn formatted(format: Seq<char>, moment: int) -> Option<Seq<char>>;

/// `Local::now` formatted by `DateTime::format`: what the format gives for the
/// time at the moment of the call. It fails exactly for a format that has an
/// unknown specifier; a format without any is copied. A clock that is set before
/// 1970 makes it panic.
#[verifier::external_body]
pub(crate) fn format_now(format: &str) -> (text: Result<String, std::fmt::Error>)
    ensures
        exists|moment: int| #[trigger] formatted(format@, moment) == match text {
            Ok(text) => Some(text@),
            Err(_) => None,
        },
        text is Ok <==> strftime_valid(format@),
        !format@.contains('%') ==> (text is Ok && text->Ok_0@ == format@),
{
    let mut text = String::new();
    write!(text, "{}", chrono::Local::now().format(format))?;
    Ok(text)
}

// Environments.

/// What the library adds to an environment.
pub enum Hook {
    /// [`tojson`]
    Tojson,
    /// [`raise_exception`]
    RaiseException,
    /// [`strftime_now`]
    StrftimeNow,
}

/// A template and the whitespace control that was on when it was added.
pub struct TemplateRecord {
    /// The source text.
    pub source: Seq<char>,
    /// Spaces before a block on its line are dropped.
    pub lstrip_blocks: bool,
    /// The line break after a block is dropped.
    pub trim_blocks: bool,
}

/// What was set in an environment since it was made.
pub struct EnvSettings {
    /// Spaces before a block on its line are dropped.
    pub lstrip_blocks: bool,
    /// The line break after a block is dropped.
    pub trim_blocks: bool,
    /// Values have the methods that they have in Python.
    pub python_methods: bool,
    /// The filters that were added, by name.
    pub filters: Map<Seq<char>, Hook>,
    /// The functions that were added, by name.
    pub functions: Map<Seq<char>, Hook>,
    /// The templates that were added, by name.
    pub templates: Map<Seq<char>, TemplateRecord>,
    /// Nothing else was set.
    pub nothing_else: bool,
}

/// What was set in an environment since it was made.
pub uninterp spec fn settings(env: minijinja::Environment<'static>) -> EnvSettings;

/// `Environment::new`: the engine's own filters and functions, and nothing set.
#[verifier::external_body]
pub(crate) fn new_environment() -> (env: minijinja::Environment<'static>)
    ensures
        settings(env) == (EnvSettings {
            lstrip_blocks: false,
            trim_blocks: false,
            python_methods: false,
            filters: Map::empty(),
            functions: Map::empty(),
            templates: Map::empty(),
            nothing_else: true,
        }),
{
    minijinja::Environment::new()
}

/// `Environment::set_lstrip_blocks`.
#[verifier::external_body]
pub(crate) fn set_lstrip_blocks(env: &mut minijinja::Environment<'static>, on: bool)
    ensures
        settings(*final(env)) == (EnvSettings { lstrip_blocks: on, ..settings(*old(env)) }),
{
    env.set_lstrip_blocks(on);
}

/// `Environment::set_trim_blocks`.
#[verifier::external_body]
pub(crate) fn set_trim_blocks(env: &mut minijinja::Environment<'static>, on: bool)
    ensures
        settings(*final(env)) == (EnvSettings { trim_blocks: on, ..settings(*old(env)) }),
{
    env.set_trim_blocks(on);
}

/// `Environment::set_unknown_method_callback` with
/// `minijinja_contrib::pycompat::unknown_method_callback`: values have the
/// methods that they have in Python.
#[verifier::external_body]
pub(crate) fn set_python_methods(env: &mut minijinja::Environment<'static>)
    ensures
        settings(*final(env)) == (EnvSettings { python_methods: true, ..settings(*old(env)) }),
{
    env.set_unknown_method_callback(minijinja_contrib::pycompat::unknown_method_callback);
}

/// `Environment::add_filter` with [`tojson`].
#[verifier::external_body]
pub(crate) fn add_tojson(env: &mut minijinja::Environment<'static>, name: &'static str)
    ensures
        settings(*final(env)) == (EnvSettings {
            filters: settings(*old(env)).filters.insert(name@, Hook::Tojson),
            ..settings(*old(env))
        }),
{
    env.add_filter(name, tojson);
}

/// `Environment::add_function` with [`raise_exception`].
#[verifier::external_body]
pub(crate) fn add_raise_exception(env: &mut minijinja::Environment<'static>, name: &'static str)
    ensures
        settings(*final(env)) == (EnvSettings {
            functions: settings(*old(env)).functions.insert(name@, Hook::RaiseException),
            ..settings(*old(env))
        }),
{
    env.add_function(name, raise_exception);
}

/// `Environment::add_function` with [`strftime_now`].
#[verifier::external_body]
pub(crate) fn add_strftime_now(env: &mut minijinja::Environment<'static>, name: &'static str)
    ensures
        settings(*final(env)) == (EnvSettings {
            functions: settings(*old(env)).functions.insert(name@, Hook::StrftimeNow),
            ..settings(*old(env))
        }),
{
    env.add_function(name, strftime_now);
}

/// Why a source text is no template, if it is none, in an environment in which
/// nothing else is set.
pub uninterp spec fn template_error(
    settings: EnvSettings,
    name: Seq<char>,
    source: Seq<char>,
) -> Option<minijinja::Error>;

/// After a template was added, unless there is an error.
pub open spec fn added(
    before: EnvSettings,
    after: EnvSettings,
    name: Seq<char>,
    source: Seq<char>,
    r: Result<(), minijinja::Error>,
    error: Option<minijinja::Error>,
) -> bool {
    match error {
        None => r is Ok && after == (EnvSettings {
            templates: before.templates.insert(
                name,
                TemplateRecord {
                    source,
                    lstrip_blocks: before.lstrip_blocks,
                    trim_blocks: before.trim_blocks,
                },
            ),
            ..before
        }),
        Some(error) => r is Err && r->Err_0 == error,
    }
}

/// `Environment::add_template_owned`: the template is there under its name,
/// unless its source has a syntax error.
#[verifier::external_body]
pub(crate) fn add_template(
    env: &mut minijinja::Environment<'static>,
    name: &'static str,
    source: String,
) -> (r: Result<(), minijinja::Error>)
    ensures
        settings(*old(env)).nothing_else ==> added(
            settings(*old(env)),
            settings(*final(env)),
            name@,
            source@,
            r,
            template_error(settings(*old(env)), name@, source@),
        ),
{
    env.add_template_owned(name, source)
}

/// The variables that a template reads and does not set.
pub uninterp spec fn undeclared_names(source: Seq<char>) -> Set<Seq<char>>;

/// The strings are the names, each once.
pub open spec fn lists_names(strings: Seq<String>, names: Set<Seq<char>>) -> bool {
    texts(strings).no_duplicates() && texts(strings).to_set() == names
}

/// `Environment::get_template` and `Template::undeclared_variables` of it, by
/// their top-level names: each once, in any order.
#[verifier::external_body]
pub(crate) fn undeclared_variables(
    env: &minijinja::Environment<'static>,
    name: &str,
) -> (r: Result<Vec<String>, minijinja::Error>)
    ensures
        settings(*env).nothing_else && settings(*env).templates.contains_key(name@) ==> (r is Ok
            && lists_names(r->Ok_0@, undeclared_names(settings(*env).templates[name@].source))),
{
    Ok(env.get_template(name)?.undeclared_variables(false).into_iter().collect())
}

/// What rendering a template gives at a moment, in an environment in which
/// nothing else is set. The moment stands for what the
/// clock says and for what objects of the host program hold.
pub uninterp spec fn rendered(
    settings: EnvSettings,
    name: Seq<char>,
    context: minijinja::Value,
    moment: int,
) -> Result<Seq<char>, minijinja::Error>;

/// `Environment::get_template` and `Template::render` of it: what the template
/// gives with the context at the moment of the call.
#[verifier::external_body]
pub(crate) fn render_template(
    env: &minijinja::Environment<'static>,
    name: &str,
    context: minijinja::Value,
) -> (r: Result<String, minijinja::Error>)
    ensures
        settings(*env).nothing_else ==> exists|moment: int| #[trigger]
            rendered(settings(*env), name@, context, moment) == match r {
                Ok(text) => Ok(text@),
                Err(error) => Err(error),
            },
{
    env.get_template(name)?.render(context)
}

} // verus!
