//! The filter and the functions that a chat template may call.

use vstd::prelude::*;
use vstd::utf8::{decode_utf8, encode_utf8, valid_utf8};

use super::convert::{from_json_value, into_json_value, is_sound, value_of};
use super::escape::{ascii_text, escape_non_ascii};
use super::formatter::{HfJsonFormatter, JsonEvent, Layout};
use super::json::JsonTree;
use super::json_text::{
    adds_white_only, all_white, item_events, law_layout_changes_whitespace_only,
    lemma_ascii_is_utf8, lemma_render_text, lemma_tree_events_text, reads_back, tree_events,
    READ_LEVELS,
};
use super::outside::{
    are_handle_events, asked, assert_all_used, bool_of, error_cause, error_text, format_now, formatted, get_bool,
    get_strings, get_usize, handle_events, held_tree, is_handle_form, kwarg, kwarg_entries,
    make_safe_text, number_i64, parsed, raise, raised_text, reads_events, reads_form,
    safe_text_value, serialize_tree, serialize_value, strftime_valid, strings_of, text_from_utf8,
    texts, to_json_value, unasked, usize_of, value_events, with_source, written_of, Cause, KwargKey,
    RaisedKind,
};
use super::sort::{sort_json_value, sorted_form};

verus! {

/// What is recorded as the source of an error.
pub enum CauseKind {
    /// Formatting failed.
    Format,
    /// A value has no JSON form.
    Json,
    /// Bytes are not UTF-8.
    Utf8,
}

/// What an error tells: what it displays, and what is recorded as its source.
pub struct Failure {
    /// What it displays.
    pub message: Seq<char>,
    /// What its source is, if it has one.
    pub cause: Option<CauseKind>,
}

/// The error tells the failure.
pub open spec fn fails(error: minijinja::Error, failure: Failure) -> bool {
    &&& error_text(error) == failure.message
    &&& failure.cause == match error_cause(error) {
        Some(Cause::Format(_)) => Some(CauseKind::Format),
        Some(Cause::Json(_)) => Some(CauseKind::Json),
        Some(Cause::Utf8(_)) => Some(CauseKind::Utf8),
        None => None,
    }
}

/// The failure of a format that has an unknown specifier.
pub open spec fn invalid_format() -> Failure {
    Failure {
        message: raised_text(RaisedKind::InvalidOperation, "invalid strftime_now format"@),
        cause: Some(CauseKind::Format),
    }
}

/// The failure of separators that are not two.
pub open spec fn not_two() -> Failure {
    Failure {
        message: raised_text(
            RaisedKind::InvalidOperation,
            "tojson separators must contain exactly two strings"@,
        ),
        cause: None,
    }
}

/// Raises an exception with the message from inside a template.
pub fn raise_exception(message: String) -> (r: Result<String, minijinja::Error>)
    ensures
        r matches Err(error) && fails(
            error,
            Failure { message: raised_text(RaisedKind::InvalidOperation, message@), cause: None },
        ),
{
    Err(raise(RaisedKind::InvalidOperation, message))
}

/// What a template gets for a formatted time.
pub fn strftime_value(formatted: Result<String, std::fmt::Error>) -> (r: Result<
    minijinja::Value,
    minijinja::Error,
>)
    ensures
        match formatted {
            Ok(text) => r == Ok::<minijinja::Value, minijinja::Error>(safe_text_value(text@)),
            Err(source) => r matches Err(error) && fails(error, invalid_format())
                && error_cause(error) == Some(Cause::Format(source)),
        },
{
    match formatted {
        Ok(text) => Ok(make_safe_text(text)),
        Err(source) => {
            let error = raise(
                RaisedKind::InvalidOperation,
                "invalid strftime_now format".to_owned(),
            );
            Err(with_source(error, Cause::Format(source)))
        },
    }
}

/// What the format gives for the time now. A format with an unknown specifier is
/// an error; a format without any specifier is what it gives.
pub fn strftime_now(format: &str) -> (r: Result<minijinja::Value, minijinja::Error>)
    ensures
        match r {
            Ok(_) => strftime_valid(format@),
            Err(error) => !strftime_valid(format@) && fails(error, invalid_format()),
        },
        !format@.contains('%') ==> r == Ok::<minijinja::Value, minijinja::Error>(
            safe_text_value(format@),
        ),
        exists|moment: int|
            match #[trigger] formatted(format@, moment) {
                Some(text) => r == Ok::<minijinja::Value, minijinja::Error>(safe_text_value(text)),
                None => r is Err,
            },
{
    strftime_value(format_now(format))
}

/// The separators of JSON text: those that are given, if they are two; without
/// any those of `json.dumps`, which are `", "` and `": "`, or `","` and `": "`
/// where lines are broken (the line break stands in for the space).
pub open spec fn separators_for(
    separators: Option<Seq<Seq<char>>>,
    indented: bool,
) -> Option<(Seq<u8>, Seq<u8>)> {
    match separators {
        None => Some(
            (
                if indented {
                    seq![0x2Cu8]
                } else {
                    seq![0x2Cu8, 0x20]
                },
                seq![0x3Au8, 0x20],
            ),
        ),
        Some(given) => if given.len() == 2 {
            Some((encode_utf8(given[0]), encode_utf8(given[1])))
        } else {
            None
        },
    }
}

/// The texts of the strings, if there are any.
pub open spec fn optional_texts(strings: Option<Vec<String>>) -> Option<Seq<Seq<char>>> {
    match strings {
        Some(strings) => Some(texts(strings@)),
        None => None,
    }
}

fn bytes_of(text: &str) -> (bytes: Vec<u8>)
    ensures
        bytes@ == encode_utf8(text@),
{
    let slice = text.as_bytes();
    let mut bytes: Vec<u8> = Vec::new();
    let mut i: usize = 0;
    while i < slice.len()
        invariant
            i <= slice.len(),
            bytes@ == slice@.take(i as int),
        decreases slice.len() - i,
    {
        bytes.push(slice[i]);
        i += 1;
    }
    bytes
}

/// The separators of JSON text: see [`separators_for`].
pub fn json_separators(separators: Option<Vec<String>>, indented: bool) -> (r: Result<
    (Vec<u8>, Vec<u8>),
    minijinja::Error,
>)
    ensures
        match r {
            Ok(pair) => separators_for(optional_texts(separators), indented) == Some(
                (pair.0@, pair.1@),
            ),
            Err(error) => separators_for(optional_texts(separators), indented) is None && fails(
                error,
                not_two(),
            ),
        },
{
    match separators {
        None => {
            let item: Vec<u8> = if indented {
                vec![0x2C]
            } else {
                vec![0x2C, 0x20]
            };
            let key: Vec<u8> = vec![0x3A, 0x20];
            Ok((item, key))
        },
        Some(given) => {
            if given.len() != 2 {
                return Err(
                    raise(
                        RaisedKind::InvalidOperation,
                        "tojson separators must contain exactly two strings".to_owned(),
                    ),
                );
            }
            Ok((bytes_of(given[0].as_str()), bytes_of(given[1].as_str())))
        },
    }
}

/// The layout that JSON text starts with.
pub open spec fn layout_for(indent: Option<usize>, separators: (Seq<u8>, Seq<u8>)) -> Layout {
    Layout {
        item_separator: separators.0,
        key_separator: separators.1,
        indent: match indent {
            Some(width) => Some(Seq::new(width as nat, |i: int| 0x20u8)),
            None => None,
        },
        current_indent: 0,
        has_value: false,
    }
}

/// The failure of a value that has no JSON text.
pub open spec fn not_serialized(cause: CauseKind) -> Failure {
    Failure {
        message: raised_text(RaisedKind::BadSerialization, "cannot serialize to JSON"@),
        cause: Some(cause),
    }
}

/// The text that the bytes encode, or the failure that there is instead.
pub open spec fn text_outcome(bytes: Seq<u8>) -> Result<Seq<char>, Failure> {
    if valid_utf8(bytes) {
        Ok(decode_utf8(bytes))
    } else {
        Err(not_serialized(CauseKind::Utf8))
    }
}

/// The JSON text of the events, or the failure that there is instead.
pub open spec fn json_text(
    events: Option<Seq<JsonEvent>>,
    indent: Option<usize>,
    separators: Option<Seq<Seq<char>>>,
) -> Result<Seq<char>, Failure> {
    match separators_for(separators, indent is Some) {
        None => Err(not_two()),
        Some(pair) => match events {
            None => Err(not_serialized(CauseKind::Json)),
            Some(events) => text_outcome(layout_for(indent, pair).render(events)),
        },
    }
}

/// The result is the text, or the failure.
pub open spec fn is_text_or_error(
    r: Result<String, minijinja::Error>,
    outcome: Result<Seq<char>, Failure>,
) -> bool {
    match r {
        Ok(text) => outcome == Ok::<Seq<char>, Failure>(text@),
        Err(error) => outcome matches Err(failure) && fails(error, failure),
    }
}

/// An error for a value that has no JSON form.
fn json_error(source: serde_json::Error) -> (error: minijinja::Error)
    ensures
        fails(error, not_serialized(CauseKind::Json)),
        error_cause(error) == Some(Cause::Json(source)),
{
    let error = raise(RaisedKind::BadSerialization, "cannot serialize to JSON".to_owned());
    with_source(error, Cause::Json(source))
}

/// What JSON text is made of.
pub enum JsonSource<'a> {
    /// A template value as it is.
    Value(&'a minijinja::Value),
    /// A JSON value.
    Tree(&'a serde_json::Value),
}

impl<'a> JsonSource<'a> {
    /// What a serializer tells its formatter of the source.
    pub open spec fn has_events(self, events: Option<Seq<JsonEvent>>) -> bool {
        match self {
            JsonSource::Value(value) => reads_events(*value, events),
            JsonSource::Tree(value) => events == Some(tree_events(held_tree(*value))),
        }
    }
}

/// The JSON text that a serializer wrote.
pub fn finish_json(written: Result<Vec<u8>, serde_json::Error>) -> (r: Result<
    String,
    minijinja::Error,
>)
    ensures
        is_text_or_error(
            r,
            match written {
                Ok(bytes) => text_outcome(bytes@),
                Err(_) => Err(not_serialized(CauseKind::Json)),
            },
        ),
        written matches Err(source) ==> r matches Err(error) && error_cause(error) == Some(
            Cause::Json(source),
        ),
{
    let bytes = match written {
        Ok(bytes) => bytes,
        Err(error) => {
            return Err(json_error(error));
        },
    };
    match text_from_utf8(bytes) {
        Ok(text) => Ok(text),
        Err(error) => {
            let raised = raise(
                RaisedKind::BadSerialization,
                "cannot serialize to JSON".to_owned(),
            );
            Err(with_source(raised, Cause::Utf8(error)))
        },
    }
}

/// Separators are text.
pub proof fn lemma_separators_text(separators: Option<Seq<Seq<char>>>, indented: bool)
    ensures
        separators_for(separators, indented) matches Some(pair) ==> valid_utf8(pair.0)
            && valid_utf8(pair.1),
{
    match separators {
        None => {
            lemma_ascii_is_utf8(seq![0x2Cu8]);
            lemma_ascii_is_utf8(seq![0x2Cu8, 0x20]);
            lemma_ascii_is_utf8(seq![0x3Au8, 0x20]);
        },
        Some(given) => if given.len() == 2 {
            vstd::utf8::encode_utf8_valid_utf8(given[0]);
            vstd::utf8::encode_utf8_valid_utf8(given[1]);
        },
    }
}

/// The separators of `json.dumps`, with any indentation, add nothing but
/// whitespace to a comma and a colon.
pub proof fn law_default_layout_adds_white_only(indent: Option<usize>)
    ensures
        separators_for(None, indent is Some) matches Some(pair) && adds_white_only(
            layout_for(indent, pair),
        ),
{
    let pair = separators_for(None, indent is Some)->0;
    assert(pair.0[0] == 0x2C && all_white(pair.0.take(0)) && all_white(pair.0.skip(1)));
    assert(pair.1[0] == 0x3A && all_white(pair.1.take(0)) && all_white(pair.1.skip(1)));
}

/// The JSON text of the source. A JSON value always has one, if there are two
/// separators or none are given. If the separators are a comma and a colon, with
/// whitespace or without, the text of a value without floats that is not nested
/// too deep reads back as the value.
pub fn serialize_json(
    source: JsonSource<'_>,
    indent: Option<usize>,
    separators: Option<Vec<String>>,
) -> (r: Result<String, minijinja::Error>)
    ensures
        separators_for(optional_texts(separators), indent is Some) is None ==> is_text_or_error(
            r,
            json_text(None, indent, optional_texts(separators)),
        ),
        separators_for(optional_texts(separators), indent is Some) is Some ==> exists|
            events: Option<Seq<JsonEvent>>,
        |
            #[trigger] source.has_events(events) && is_text_or_error(
                r,
                json_text(events, indent, optional_texts(separators)),
            ),
        source matches JsonSource::Tree(value) ==> (separators_for(
            optional_texts(separators),
            indent is Some,
        ) matches Some(pair) ==> {
            &&& r is Ok
            &&& adds_white_only(layout_for(indent, pair)) && reads_back(
                held_tree(*value),
                READ_LEVELS as nat,
            ) ==> parsed(r->Ok_0@) == Ok::<JsonTree, serde_json::Error>(held_tree(*value))
        }),
{
    let (item_separator, key_separator) = match json_separators(separators, indent.is_some()) {
        Ok(pair) => pair,
        Err(error) => {
            return Err(error);
        },
    };
    let level: Option<Vec<u8>> = match indent {
        Some(width) => {
            let mut spaces: Vec<u8> = Vec::new();
            while spaces.len() < width
                invariant
                    spaces.len() <= width,
                    spaces@ == Seq::new(spaces.len() as nat, |i: int| 0x20u8),
                decreases width - spaces.len(),
            {
                spaces.push(0x20);
            }
            Some(spaces)
        },
        None => None,
    };
    let formatter = HfJsonFormatter::new(item_separator, key_separator, level);
    let bytes = match source {
        JsonSource::Value(value) => serialize_value(value, formatter),
        JsonSource::Tree(value) => serialize_tree(value, formatter),
    };
    proof {
        let events = match source {
            JsonSource::Value(value) => {
                let moment = choose|moment: int|
                    written_of(bytes, formatter, *value, #[trigger] value_events(*value, moment));
                value_events(*value, moment)
            },
            JsonSource::Tree(value) => Some(tree_events(held_tree(*value))),
        };
        assert(source.has_events(events));
        if let JsonSource::Tree(value) = source {
            let tree = held_tree(*value);
            let pair = (formatter.item_separator@, formatter.key_separator@);
            lemma_separators_text(optional_texts(separators), indent is Some);
            assert(formatter@ == layout_for(indent, pair));
            if let Some(level) = formatter@.indent {
                lemma_ascii_is_utf8(level);
            }
            lemma_tree_events_text(tree);
            lemma_render_text(formatter@, tree_events(tree));
            if adds_white_only(formatter@) {
                law_layout_changes_whitespace_only(formatter@, tree_events(tree));
            }
        }
    }
    finish_json(bytes)
}

/// The options of the `tojson` filter.
pub struct TojsonOptions {
    /// Escape what is not ASCII.
    pub ensure_ascii: bool,
    /// Break lines, and indent by this many spaces per level.
    pub indent: Option<usize>,
    /// What stands between items, and between keys and values.
    pub separators: Option<Vec<String>>,
    /// Put the keys of objects in order.
    pub sort_keys: bool,
}

impl TojsonOptions {
    /// The text of the events under these options, or the failure that there is
    /// instead.
    pub open spec fn outcome(self, events: Option<Seq<JsonEvent>>) -> Result<Seq<char>, Failure> {
        match json_text(events, self.indent, optional_texts(self.separators)) {
            Ok(text) => Ok(
                if self.ensure_ascii {
                    ascii_text(text)
                } else {
                    text
                },
            ),
            Err(failure) => Err(failure),
        }
    }

    /// The result is what `tojson` gives for the value: its JSON text, marked as
    /// safe, with the keys of objects in order if that is asked for.
    pub open spec fn is_result(
        self,
        value: minijinja::Value,
        r: Result<minijinja::Value, minijinja::Error>,
    ) -> bool {
        if self.sort_keys {
            exists|form: Option<JsonTree>|
                #[trigger] reads_form(value, form) && match form {
                    None => is_value_or_error(r, Err(not_serialized(CauseKind::Json))),
                    Some(tree) => exists|sorted: JsonTree| #[trigger]
                        sorted_form(tree, sorted) && is_value_or_error(
                            r,
                            self.outcome(Some(tree_events(sorted))),
                        ),
                }
        } else if separators_for(optional_texts(self.separators), self.indent is Some) is None {
            is_value_or_error(r, self.outcome(None))
        } else {
            exists|events: Option<Seq<JsonEvent>>|
                #[trigger] reads_events(value, events) && is_value_or_error(
                    r,
                    self.outcome(events),
                )
        }
    }
}

/// The result is the text, marked as safe, or the failure.
pub open spec fn is_value_or_error(
    r: Result<minijinja::Value, minijinja::Error>,
    outcome: Result<Seq<char>, Failure>,
) -> bool {
    match r {
        Ok(value) => outcome matches Ok(text) && value == safe_text_value(text),
        Err(error) => outcome matches Err(failure) && fails(error, failure),
    }
}

/// What a template gets for a JSON text: it is marked as safe, and escaped first
/// if that is asked for.
pub fn tojson_value(serialized: Result<String, minijinja::Error>, ensure_ascii: bool) -> (r: Result<
    minijinja::Value,
    minijinja::Error,
>)
    ensures
        match serialized {
            Ok(text) => r == Ok::<minijinja::Value, minijinja::Error>(
                safe_text_value(
                    if ensure_ascii {
                        ascii_text(text@)
                    } else {
                        text@
                    },
                ),
            ),
            Err(error) => r == Err::<minijinja::Value, minijinja::Error>(error),
        },
{
    match serialized {
        Ok(text) => if ensure_ascii {
            Ok(make_safe_text(escape_non_ascii(text.as_str())))
        } else {
            Ok(make_safe_text(text))
        },
        Err(error) => Err(error),
    }
}

/// The JSON text of a template value under the options.
pub fn tojson_with(value: &minijinja::Value, options: TojsonOptions) -> (r: Result<
    minijinja::Value,
    minijinja::Error,
>)
    ensures
        options.is_result(*value, r),
{
    let ensure_ascii: bool = options.ensure_ascii;
    if options.sort_keys {
        let json = match to_json_value(value) {
            Ok(json) => json,
            Err(error) => {
                assert(reads_form(*value, None));
                return Err(json_error(error));
            },
        };
        let mut tree = from_json_value(json);
        let ghost before = tree@;
        assert(reads_form(*value, Some(before)));
        sort_json_value(&mut tree);
        let sorted = into_json_value(&tree);
        let serialized = serialize_json(
            JsonSource::Tree(&sorted),
            options.indent,
            options.separators,
        );
        tojson_value(serialized, ensure_ascii)
    } else {
        let serialized = serialize_json(
            JsonSource::Value(value),
            options.indent,
            options.separators,
        );
        proof {
            if separators_for(
                optional_texts(options.separators),
                options.indent is Some,
            ) is Some {
                let events = choose|events: Option<Seq<JsonEvent>>|
                    #[trigger] JsonSource::Value(value).has_events(events) && is_text_or_error(
                        serialized,
                        json_text(events, options.indent, optional_texts(options.separators)),
                    );
            }
        }
        tojson_value(serialized, ensure_ascii)
    }
}

/// `tojson` of a value that was made from JSON gives the text of that JSON, laid
/// out as the options say and with its keys in order if they ask for it. Only
/// while the engine turns something of the host program into a value on the same
/// thread, it may give the number of a handle in place of it.
pub proof fn law_tojson_of_json(
    options: TojsonOptions,
    tree: JsonTree,
    r: Result<minijinja::Value, minijinja::Error>,
)
    requires
        is_sound(tree),
        options.is_result(value_of(tree), r),
    ensures
        !options.sort_keys ==> is_value_or_error(r, options.outcome(Some(tree_events(tree))))
            || gives_handle(options, r),
        options.sort_keys ==> gives_handle(options, r) || exists|sorted: JsonTree| #[trigger]
            sorted_form(tree, sorted) && is_value_or_error(
                r,
                options.outcome(Some(tree_events(sorted))),
            ),
{
    if options.sort_keys {
        let form = choose|form: Option<JsonTree>|
            #[trigger] reads_form(value_of(tree), form) && match form {
                None => is_value_or_error(r, Err(not_serialized(CauseKind::Json))),
                Some(read) => exists|sorted: JsonTree| #[trigger]
                    sorted_form(read, sorted) && is_value_or_error(
                        r,
                        options.outcome(Some(tree_events(sorted))),
                    ),
            };
        if form != Some(tree) {
            let read = form->0;
            let sorted = choose|sorted: JsonTree| #[trigger]
                sorted_form(read, sorted) && is_value_or_error(
                    r,
                    options.outcome(Some(tree_events(sorted))),
                );
            lemma_sorted_handle(form, sorted);
        }
    }
}

/// What is told of a handle's form, which sorting leaves as it is.
proof fn lemma_sorted_handle(form: Option<JsonTree>, sorted: JsonTree)
    requires
        is_handle_form(form),
        sorted_form(form->0, sorted),
    ensures
        are_handle_events(Some(tree_events(sorted))),
{
    let n = choose|n: serde_json::Number|
        form == Some(JsonTree::Array(seq![JsonTree::Number(n)])) && (#[trigger] number_i64(
            n,
        ) matches Some(handle) && 0 <= handle <= u32::MAX);
    let handle = number_i64(n)->0 as nat;
    let items = seq![JsonTree::Number(n)];
    reveal_with_fuel(sorted_form, 2);
    assert(items[0] == JsonTree::Number(n));
    assert(sorted->Array_0 =~= items);
    reveal_with_fuel(tree_events, 2);
    reveal_with_fuel(item_events, 2);
    assert(tree_events(sorted) =~= handle_events(handle));
}

/// The result is the text of a handle.
pub open spec fn gives_handle(
    options: TojsonOptions,
    r: Result<minijinja::Value, minijinja::Error>,
) -> bool {
    exists|events: Option<Seq<JsonEvent>>| #[trigger]
        are_handle_events(events) && is_value_or_error(r, options.outcome(events))
}

/// The arguments of a `tojson` call, in the order in which they are read, each at
/// a moment: the options, or the first error.
pub open spec fn tojson_arguments(
    entries: Seq<(KwargKey, minijinja::Value)>,
    moments: (int, int, int, int),
) -> Result<(bool, Option<usize>, Option<Seq<Seq<char>>>, bool), minijinja::Error> {
    match bool_of(kwarg(entries, "ensure_ascii"@), moments.0) {
        Err(error) => Err(error),
        Ok(ensure_ascii) => match usize_of(kwarg(entries, "indent"@), moments.1) {
            Err(error) => Err(error),
            Ok(indent) => match strings_of(kwarg(entries, "separators"@), moments.2) {
                Err(error) => Err(error),
                Ok(separators) => match bool_of(kwarg(entries, "sort_keys"@), moments.3) {
                    Err(error) => Err(error),
                    Ok(sort_keys) => Ok(
                        (
                            ensure_ascii == Some(true),
                            indent,
                            separators,
                            sort_keys == Some(true),
                        ),
                    ),
                },
            },
        },
    }
}

/// The arguments that `tojson` has.
pub open spec fn tojson_keys() -> Set<Seq<char>> {
    set!["ensure_ascii"@, "indent"@, "separators"@, "sort_keys"@]
}

/// The options are these.
pub open spec fn options_are(
    options: TojsonOptions,
    arguments: (bool, Option<usize>, Option<Seq<Seq<char>>>, bool),
) -> bool {
    &&& options.ensure_ascii == arguments.0
    &&& options.indent == arguments.1
    &&& optional_texts(options.separators) == arguments.2
    &&& options.sort_keys == arguments.3
}

/// The `tojson` filter: the JSON text of a value as Python's `json.dumps` lays
/// it out. An argument of the wrong type is an error, and so is one that is none
/// of `ensure_ascii`, `indent`, `separators` and `sort_keys`.
pub fn tojson(value: minijinja::Value, kwargs: minijinja::value::Kwargs) -> (r: Result<
    minijinja::Value,
    minijinja::Error,
>)
    ensures
        exists|moments: (int, int, int, int)|
            match #[trigger] tojson_arguments(kwarg_entries(kwargs), moments) {
                Err(error) => r == Err::<minijinja::Value, minijinja::Error>(error),
                Ok(arguments) => match unasked(
                    kwarg_entries(kwargs),
                    asked(kwargs).union(tojson_keys()),
                ) {
                    Some(message) => r matches Err(error) && error_text(error) == message,
                    None => exists|options: TojsonOptions| #[trigger]
                        options_are(options, arguments) && options.is_result(value, r),
                },
            },
        kwarg_entries(kwargs).len() == 0 ==> exists|options: TojsonOptions| #[trigger]
            options_are(options, (false, None, None, false)) && options.is_result(value, r),
{
    let ghost entries = kwarg_entries(kwargs);
    let ghost before = asked(kwargs);
    let mut kwargs = kwargs;
    let ascii = get_bool(&mut kwargs, "ensure_ascii");
    let ghost m0 = choose|m: int| ascii == #[trigger] bool_of(kwarg(entries, "ensure_ascii"@), m);
    let ensure_ascii: Option<bool> = match ascii {
        Ok(r) => r,
        Err(error) => {
            assert(tojson_arguments(entries, (m0, 0, 0, 0)) is Err);
            return Err(error);
        },
    };
    let width = get_usize(&mut kwargs, "indent");
    let ghost m1 = choose|m: int| width == #[trigger] usize_of(kwarg(entries, "indent"@), m);
    let indent: Option<usize> = match width {
        Ok(r) => r,
        Err(error) => {
            assert(tojson_arguments(entries, (m0, m1, 0, 0)) is Err);
            return Err(error);
        },
    };
    let strings = get_strings(&mut kwargs, "separators");
    let ghost m2 = choose|m: int| #[trigger]
        strings_of(kwarg(entries, "separators"@), m) == match strings {
            Ok(Some(strings)) => Ok(Some(texts(strings@))),
            Ok(None) => Ok(None),
            Err(error) => Err(error),
        };
    let separators = match strings {
        Ok(r) => r,
        Err(error) => {
            assert(tojson_arguments(entries, (m0, m1, m2, 0)) is Err);
            return Err(error);
        },
    };
    let order = get_bool(&mut kwargs, "sort_keys");
    let ghost m3 = choose|m: int| order == #[trigger] bool_of(kwarg(entries, "sort_keys"@), m);
    let sort_keys: Option<bool> = match order {
        Ok(r) => r,
        Err(error) => {
            assert(tojson_arguments(entries, (m0, m1, m2, m3)) is Err);
            return Err(error);
        },
    };
    assert(asked(kwargs) =~= before.union(tojson_keys()));
    let options = TojsonOptions {
        ensure_ascii: matches!(ensure_ascii, Some(true)),
        indent,
        separators,
        sort_keys: matches!(sort_keys, Some(true)),
    };
    assert(options_are(options, tojson_arguments(entries, (m0, m1, m2, m3))->Ok_0));
    match assert_all_used(&kwargs) {
        Ok(_) => {},
        Err(error) => {
            return Err(error);
        },
    }
    tojson_with(&value, options)
}

} // verus!
