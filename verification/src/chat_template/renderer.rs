//! The compiled chat template, and the context that it is rendered with.

use vstd::prelude::*;

use super::convert::{entry_values_of, json_to_minijinja_value, value_of};
use super::json::{
    extended, keys_distinct, last_value, law_last_value, law_lookup_after_extend,
    lemma_last_value_add, lemma_tree, lookup, Json, JsonMap, JsonTree,
};
use super::outside::{
    add_raise_exception, add_strftime_now, add_template, add_tojson, bool_value, display_error,
    error_text, lists_names, make_bool, make_map, make_none, map_value, new_environment, none_value,
    render_template, rendered, set_lstrip_blocks, set_python_methods, set_trim_blocks, settings,
    template_error, text_keys, undeclared_names, undeclared_variables, EnvSettings, Hook,
    TemplateRecord,
};
use super::tags::{jinja_template, strip_known_non_jinja_tags};

verus! {

/// Why a chat template could not be compiled or rendered.
#[derive(Debug)]
pub struct TemplateError {
    /// What went wrong.
    pub message: String,
    /// The error of the template engine, with its kind, its place in the template
    /// and what caused it.
    pub cause: minijinja::Error,
}

impl TemplateError {
    /// The error is that of the engine, and the message what it displays.
    pub open spec fn tells(self, cause: minijinja::Error) -> bool {
        self.cause == cause && self.message@ == error_text(cause)
    }

    /// The error of the engine, with what it displays.
    pub fn new(cause: minijinja::Error) -> (error: Self)
        ensures
            error.tells(cause),
    {
        TemplateError { message: display_error(&cause), cause }
    }
}

/// Options for rendering a HuggingFace-style chat template.
#[derive(Clone, Debug)]
pub struct ChatTemplateOptions {
    /// Ask for the start of an answer at the end.
    pub add_generation_prompt: bool,
    /// Leave the final message open.
    pub continue_final_message: bool,
    /// The tools that the model may call.
    pub tools: Option<Json>,
    /// The documents that the model may cite.
    pub documents: Option<Json>,
    /// The special tokens, by name; those that are null are left out.
    pub special_tokens: JsonMap,
    /// Further variables of the template.
    pub extra_context: JsonMap,
}

impl Default for ChatTemplateOptions {
    fn default() -> (options: Self)
        ensures
            !options.add_generation_prompt,
            !options.continue_final_message,
            options.tools is None,
            options.documents is None,
            options.special_tokens@.len() == 0,
            options.extra_context@.len() == 0,
    {
        ChatTemplateOptions {
            add_generation_prompt: false,
            continue_final_message: false,
            tools: None,
            documents: None,
            special_tokens: JsonMap::new(),
            extra_context: JsonMap::new(),
        }
    }
}

/// The special tokens that a template may ask for, all null.
pub open spec fn null_tokens() -> Seq<(Seq<char>, JsonTree)> {
    seq![
        ("bos_token"@, JsonTree::Null),
        ("eos_token"@, JsonTree::Null),
        ("unk_token"@, JsonTree::Null),
        ("pad_token"@, JsonTree::Null),
    ]
}

/// Return baseline special-token variables for standalone template rendering.
///
/// Callers can override these with tokenizer-specific values. Tokens default to
/// null and are omitted from the template context, so that absent tokenizer
/// metadata behaves like an undefined variable.
pub fn default_special_tokens() -> (tokens: JsonMap)
    ensures
        tokens@ == null_tokens(),
{
    broadcast use lemma_tree;

    proof {
        reveal_strlit("bos_token");
        reveal_strlit("eos_token");
        reveal_strlit("unk_token");
        reveal_strlit("pad_token");
        assert("bos_token"@[0] != "eos_token"@[0]);
        assert("bos_token"@[0] != "unk_token"@[0]);
    }
    let mut tokens = JsonMap::new();
    tokens.insert("bos_token".to_owned(), Json::Null);
    tokens.insert("eos_token".to_owned(), Json::Null);
    tokens.insert("unk_token".to_owned(), Json::Null);
    tokens.insert("pad_token".to_owned(), Json::Null);
    tokens
}

/// The entries that are not null.
pub open spec fn without_nulls(entries: Seq<(Seq<char>, JsonTree)>) -> Seq<(Seq<char>, JsonTree)> {
    entries.filter(|entry: (Seq<char>, JsonTree)| !(entry.1 is Null))
}

/// Special tokens that are null are not in the context of a template, so that
/// they are undefined there; the others are. The default ones are all left out.
pub proof fn law_null_tokens_are_left_out(tokens: Seq<(Seq<char>, JsonTree)>, i: int)
    ensures
        0 <= i < without_nulls(tokens).len() ==> !(without_nulls(tokens)[i].1 is Null)
            && tokens.contains(without_nulls(tokens)[i]),
        0 <= i < tokens.len() && !(tokens[i].1 is Null) ==> without_nulls(tokens).contains(
            tokens[i],
        ),
        tokens == null_tokens() ==> without_nulls(tokens).len() == 0,
{
    broadcast use vstd::seq_lib::group_filter_ensures;

    let kept = |entry: (Seq<char>, JsonTree)| !(entry.1 is Null);
    if 0 <= i < without_nulls(tokens).len() {
        lemma_filter_from(tokens, kept, i);
    }
    if without_nulls(tokens).len() > 0 {
        lemma_filter_from(tokens, kept, 0);
    }
}

proof fn lemma_filter_from<T>(s: Seq<T>, f: spec_fn(T) -> bool, i: int)
    requires
        0 <= i < s.filter(f).len(),
    ensures
        s.contains(s.filter(f)[i]),
    decreases s.len(),
{
    reveal(Seq::filter);
    if s.len() > 0 {
        let rest = s.drop_last();
        if i < rest.filter(f).len() {
            lemma_filter_from(rest, f, i);
            let j = choose|j: int| 0 <= j < rest.len() && rest[j] == rest.filter(f)[i];
        }
    }
}

/// One more special token comes last if it is not null, and changes nothing if it
/// is.
pub proof fn law_one_more_token(tokens: Seq<(Seq<char>, JsonTree)>, more: (Seq<char>, JsonTree))
    ensures
        without_nulls(Seq::empty()) == Seq::<(Seq<char>, JsonTree)>::empty(),
        more.1 is Null ==> without_nulls(tokens.push(more)) == without_nulls(tokens),
        !(more.1 is Null) ==> without_nulls(tokens.push(more)) == without_nulls(tokens).push(more),
{
    reveal(Seq::filter);
    assert(tokens.push(more).drop_last() =~= tokens);
}

/// The default special tokens are those of the begin and the end of a text, of
/// what is unknown and of padding, in this order, and all are null.
pub proof fn law_default_tokens()
    ensures
        null_tokens().len() == 4,
        null_tokens()[0] == ("bos_token"@, JsonTree::Null),
        null_tokens()[1] == ("eos_token"@, JsonTree::Null),
        null_tokens()[2] == ("unk_token"@, JsonTree::Null),
        null_tokens()[3] == ("pad_token"@, JsonTree::Null),
{
}

/// An optional JSON value as a template sees it.
pub open spec fn optional_value(json: Option<Json>) -> minijinja::Value {
    match json {
        Some(json) => value_of(json@),
        None => none_value(()),
    }
}

/// The variables that every chat template has.
pub open spec fn fixed_entries(
    messages: minijinja::Value,
    options: ChatTemplateOptions,
) -> Seq<(Seq<char>, minijinja::Value)> {
    seq![
        ("messages"@, messages),
        ("add_generation_prompt"@, bool_value(options.add_generation_prompt)),
        ("continue_final_message"@, bool_value(options.continue_final_message)),
        ("tools"@, optional_value(options.tools)),
        ("documents"@, optional_value(options.documents)),
    ]
}

/// The variables of a chat template, in order. Special tokens that are null are
/// left out.
pub open spec fn context_entries(
    messages: minijinja::Value,
    options: ChatTemplateOptions,
) -> Seq<(Seq<char>, minijinja::Value)> {
    fixed_entries(messages, options) + entry_values_of(without_nulls(options.special_tokens@))
        + entry_values_of(options.extra_context@)
}

/// The variables of a chat template, each once.
pub open spec fn variables(
    messages: minijinja::Value,
    options: ChatTemplateOptions,
) -> Seq<(Seq<char>, minijinja::Value)> {
    extended(Seq::empty(), context_entries(messages, options))
}

/// A further variable takes the place of a special token of the same name, and
/// either takes the place of a variable that every template has.
pub proof fn law_further_variables_win(
    messages: minijinja::Value,
    options: ChatTemplateOptions,
    key: Seq<char>,
)
    ensures
        keys_distinct(variables(messages, options)),
        lookup(variables(messages, options), key) == match last_value(
            entry_values_of(options.extra_context@),
            key,
        ) {
            Some(value) => Some(value),
            None => match last_value(
                entry_values_of(without_nulls(options.special_tokens@)),
                key,
            ) {
                Some(value) => Some(value),
                None => last_value(fixed_entries(messages, options), key),
            },
        },
{
    let fixed = fixed_entries(messages, options);
    let tokens = entry_values_of(without_nulls(options.special_tokens@));
    let extra = entry_values_of(options.extra_context@);
    lemma_last_value_add(fixed + tokens, extra, key);
    lemma_last_value_add(fixed, tokens, key);
    law_lookup_after_extend(Seq::empty(), context_entries(messages, options), key);
}

proof fn lemma_fixed_names()
    ensures
        "messages"@.len() == 8,
        "add_generation_prompt"@.len() == 21,
        "continue_final_message"@.len() == 22,
        "tools"@.len() == 5,
        "documents"@.len() == 9,
{
    reveal_strlit("messages");
    reveal_strlit("add_generation_prompt");
    reveal_strlit("continue_final_message");
    reveal_strlit("tools");
    reveal_strlit("documents");
}

/// Every template has the messages, the flags, the tools and the documents of the
/// options, unless a special token or a further variable has the name. Tools and
/// documents that are not given are none.
pub proof fn law_fixed_variables(messages: minijinja::Value, options: ChatTemplateOptions)
    ensures
        ({
            let fixed = fixed_entries(messages, options);
            &&& last_value(fixed, "messages"@) == Some(messages)
            &&& last_value(fixed, "add_generation_prompt"@) == Some(
                bool_value(options.add_generation_prompt),
            )
            &&& last_value(fixed, "continue_final_message"@) == Some(
                bool_value(options.continue_final_message),
            )
            &&& last_value(fixed, "tools"@) == Some(
                match options.tools {
                    Some(tools) => value_of(tools@),
                    None => none_value(()),
                },
            )
            &&& last_value(fixed, "documents"@) == Some(
                match options.documents {
                    Some(documents) => value_of(documents@),
                    None => none_value(()),
                },
            )
            &&& fixed.len() == 5
        }),
{
    let fixed = fixed_entries(messages, options);
    lemma_fixed_names();
    law_last_value(fixed, "messages"@, 0);
    law_last_value(fixed, "add_generation_prompt"@, 1);
    law_last_value(fixed, "continue_final_message"@, 2);
    law_last_value(fixed, "tools"@, 3);
    law_last_value(fixed, "documents"@, 4);
}

fn optional_template_value(json: &Option<Json>) -> (value: minijinja::Value)
    ensures
        value == optional_value(*json),
{
    match json {
        Some(json) => json_to_minijinja_value(json),
        None => make_none(),
    }
}

/// Appends the entries as a template sees them, those that are null only if
/// `nulls`.
fn push_entries(
    entries: &mut Vec<(String, minijinja::Value)>,
    map: &JsonMap,
    nulls: bool,
)
    ensures
        text_keys(final(entries)@) == text_keys(old(entries)@) + entry_values_of(
            if nulls {
                map@
            } else {
                without_nulls(map@)
            },
        ),
{
    broadcast use lemma_tree;

    let ghost kept = |entry: (Seq<char>, JsonTree)| nulls || !(entry.1 is Null);
    let ghost before = text_keys(entries@);
    let mut i: usize = 0;
    assert(map@.take(0).filter(kept) =~= Seq::<(Seq<char>, JsonTree)>::empty()) by {
        reveal(Seq::filter);
    }
    while i < map.len()
        invariant
            i <= map@.len(),
            kept == (|entry: (Seq<char>, JsonTree)| nulls || !(entry.1 is Null)),
            text_keys(entries@) == before + entry_values_of(map@.take(i as int).filter(kept)),
        decreases map@.len() - i,
    {
        let (key, json) = map.entry(i);
        let ghost entry = map@[i as int];
        let ghost done = map@.take(i as int).filter(kept);
        proof {
            assert(map@.take(i + 1).drop_last() =~= map@.take(i as int));
            assert(map@.take(i + 1).filter(kept) == if kept(entry) {
                done.push(entry)
            } else {
                done
            }) by {
                reveal(Seq::filter);
            }
        }
        let null: bool = matches!(json, Json::Null);
        proof {
            lemma_tree(*json);
        }
        if nulls || !null {
            let ghost old_entries = entries@;
            entries.push((key.clone(), json_to_minijinja_value(json)));
            proof {
                assert(text_keys(entries@) =~= text_keys(old_entries).push(
                    (entry.0, value_of(entry.1)),
                ));
            }
        }
        i += 1;
    }
    proof {
        assert(map@.take(i as int) =~= map@);
        if nulls {
            assert(map@.filter(kept) =~= map@) by {
                lemma_filter_all(map@, kept);
            }
        } else {
            let wanted = |entry: (Seq<char>, JsonTree)| !(entry.1 is Null);
            assert(kept =~= wanted);
        }
    }
}

proof fn lemma_filter_all<T>(s: Seq<T>, f: spec_fn(T) -> bool)
    requires
        forall|i: int| 0 <= i < s.len() ==> f(#[trigger] s[i]),
    ensures
        s.filter(f) == s,
    decreases s.len(),
{
    reveal(Seq::filter);
    if s.len() > 0 {
        lemma_filter_all(s.drop_last(), f);
    }
}

/// The context that a chat template is rendered with.
pub fn build_context(
    messages: minijinja::Value,
    options: ChatTemplateOptions,
) -> (context: minijinja::Value)
    ensures
        context == map_value(context_entries(messages, options)),
        context == map_value(variables(messages, options)),
{
    let mut entries: Vec<(String, minijinja::Value)> = Vec::new();
    entries.push(("messages".to_owned(), messages));
    entries.push(("add_generation_prompt".to_owned(), make_bool(options.add_generation_prompt)));
    entries.push(
        ("continue_final_message".to_owned(), make_bool(options.continue_final_message)),
    );
    entries.push(("tools".to_owned(), optional_template_value(&options.tools)));
    entries.push(("documents".to_owned(), optional_template_value(&options.documents)));
    assert(text_keys(entries@) =~= fixed_entries(messages, options));
    push_entries(&mut entries, &options.special_tokens, false);
    push_entries(&mut entries, &options.extra_context, true);
    make_map(entries)
}

/// What is set in the environment of every chat template, before the template
/// is added.
pub open spec fn base_settings() -> EnvSettings {
    EnvSettings {
        lstrip_blocks: true,
        trim_blocks: true,
        python_methods: true,
        filters: Map::empty().insert("tojson"@, Hook::Tojson),
        functions: Map::empty().insert("raise_exception"@, Hook::RaiseException).insert(
            "strftime_now"@,
            Hook::StrftimeNow,
        ),
        templates: Map::empty(),
        nothing_else: true,
    }
}

/// What is set in the environment of the chat template with this source.
pub open spec fn chat_settings(source: Seq<char>) -> EnvSettings {
    EnvSettings {
        templates: Map::empty().insert(
            "chat"@,
            TemplateRecord { source, lstrip_blocks: true, trim_blocks: true },
        ),
        ..base_settings()
    }
}

/// In the environment of a chat template there is one template, with its source,
/// one filter and two functions, each under its name, and nothing else. Blocks
/// leave neither the blanks before them nor the line feed behind them, and values
/// have the methods that they have in Python.
pub proof fn law_environment(source: Seq<char>, name: Seq<char>)
    ensures
        ({
            let env = chat_settings(source);
            &&& env.trim_blocks && env.lstrip_blocks && env.python_methods && env.nothing_else
            &&& env.filters.dom().contains(name) <==> name == "tojson"@
            &&& env.filters["tojson"@] == Hook::Tojson
            &&& env.functions.dom().contains(name) <==> name == "raise_exception"@ || name
                == "strftime_now"@
            &&& env.functions["raise_exception"@] == Hook::RaiseException
            &&& env.functions["strftime_now"@] == Hook::StrftimeNow
            &&& env.templates.dom().contains(name) <==> name == "chat"@
            &&& env.templates["chat"@].source == source
            &&& env.templates["chat"@].trim_blocks && env.templates["chat"@].lstrip_blocks
            &&& base_settings() == EnvSettings { templates: Map::empty(), ..env }
        }),
{
    reveal_strlit("raise_exception");
    reveal_strlit("strftime_now");
    assert("raise_exception"@.len() != "strftime_now"@.len());
}

/// Why a chat template cannot be compiled, if it cannot.
pub open spec fn syntax_error(chat_template: Seq<char>) -> Option<minijinja::Error> {
    template_error(base_settings(), "chat"@, jinja_template(chat_template))
}

/// The result is what rendering the template with the source and the context
/// gives at some moment, or the error that there is instead.
pub open spec fn renders(
    source: Seq<char>,
    context: minijinja::Value,
    r: Result<String, TemplateError>,
) -> bool {
    exists|moment: int|
        match #[trigger] rendered(chat_settings(source), "chat"@, context, moment) {
            Ok(text) => r matches Ok(s) && s@ == text,
            Err(error) => r matches Err(e) && e.tells(error),
        }
}

/// A chat template is compiled in an environment without any other template, under
/// its name, as Jinja knows it.
pub proof fn law_compiling(chat_template: Seq<char>, error: TemplateError)
    ensures
        syntax_error(chat_template) == template_error(
            EnvSettings { templates: Map::empty(), ..chat_settings(Seq::empty()) },
            "chat"@,
            jinja_template(chat_template),
        ),
        error.tells(error.cause) <==> error.message@ == error_text(error.cause),
{
}

/// What is rendered is what the engine gives for the chat template and the context
/// at some moment, character for character, or its error with what it displays.
pub proof fn law_renders_what_the_engine_gives(
    source: Seq<char>,
    context: minijinja::Value,
    r: Result<String, TemplateError>,
)
    requires
        renders(source, context, r),
    ensures
        r matches Ok(text) ==> exists|moment: int|
            #[trigger] rendered(chat_settings(source), "chat"@, context, moment) == Ok::<
                Seq<char>,
                minijinja::Error,
            >(text@),
        r matches Err(e) ==> e.message@ == error_text(e.cause) && exists|moment: int|
            #[trigger] rendered(chat_settings(source), "chat"@, context, moment) == Err::<
                Seq<char>,
                minijinja::Error,
            >(e.cause),
{
    let moment = choose|moment: int|
        match #[trigger] rendered(chat_settings(source), "chat"@, context, moment) {
            Ok(text) => r matches Ok(s) && s@ == text,
            Err(error) => r matches Err(e) && e.tells(error),
        };
    match rendered(chat_settings(source), "chat"@, context, moment) {
        Ok(text) => {
            assert(r->Ok_0@ == text);
        },
        Err(error) => {
            assert(r->Err_0.cause == error);
        },
    }
}

/// Compiled chat-template renderer.
///
/// Reuse this for repeated renderings of the same template; constructing an
/// environment and parsing the template is avoidable work on the hot serving
/// path.
pub struct ChatTemplateRenderer {
    env: minijinja::Environment<'static>,
    undeclared_variables: Vec<String>,
}

impl ChatTemplateRenderer {
    #[verifier::type_invariant]
    spec fn well_formed(self) -> bool {
        &&& settings(self.env) == chat_settings(self.source())
        &&& lists_names(self.undeclared_variables@, undeclared_names(self.source()))
    }

    /// The source of the template, as Jinja knows it.
    pub closed spec fn source(self) -> Seq<char> {
        settings(self.env).templates["chat"@].source
    }

    /// Compiles a chat template. Generation markers, which Jinja does not know,
    /// become blocks that are always rendered.
    pub fn new(chat_template: &str) -> (r: Result<Self, TemplateError>)
        ensures
            match syntax_error(chat_template@) {
                None => r matches Ok(renderer) && renderer.source() == jinja_template(
                    chat_template@,
                ),
                Some(error) => r matches Err(e) && e.tells(error),
            },
    {
        let mut env = new_environment();
        set_lstrip_blocks(&mut env, true);
        set_trim_blocks(&mut env, true);
        set_python_methods(&mut env);
        add_tojson(&mut env, "tojson");
        add_raise_exception(&mut env, "raise_exception");
        add_strftime_now(&mut env, "strftime_now");
        let source = strip_known_non_jinja_tags(chat_template);
        match add_template(&mut env, "chat", source) {
            Ok(_) => {},
            Err(error) => {
                return Err(TemplateError::new(error));
            },
        }
        let names = match undeclared_variables(&env, "chat") {
            Ok(names) => names,
            Err(error) => {
                return Err(TemplateError::new(error));
            },
        };
        Ok(ChatTemplateRenderer { env, undeclared_variables: names })
    }

    /// Top-level variables the template reads from the render context.
    ///
    /// Computed statically from the template, so dynamic lookups are invisible.
    /// Use this to reject keyword arguments the template can never see, not to
    /// require ones it might.
    pub fn undeclared_variables(&self) -> (names: &Vec<String>)
        ensures
            lists_names(names@, undeclared_names(self.source())),
    {
        proof {
            use_type_invariant(self);
        }
        &self.undeclared_variables
    }

    /// Renders the template with messages in JSON.
    pub fn render(&self, messages: Json, options: ChatTemplateOptions) -> (r: Result<
        String,
        TemplateError,
    >)
        ensures
            renders(
                self.source(),
                map_value(context_entries(value_of(messages@), options)),
                r,
            ),
    {
        self.render_value(json_to_minijinja_value(&messages), options)
    }

    /// Renders the template with messages already converted to a template value.
    ///
    /// Callers that can make a template value directly should prefer this over
    /// [`render`](Self::render): it skips the intermediate JSON, which dominates
    /// per-call cost on large conversations.
    pub fn render_value(
        &self,
        messages: minijinja::Value,
        options: ChatTemplateOptions,
    ) -> (r: Result<String, TemplateError>)
        ensures
            renders(self.source(), map_value(context_entries(messages, options)), r),
    {
        self.render_context(build_context(messages, options))
    }

    /// Renders the template with the context.
    pub fn render_context(&self, context: minijinja::Value) -> (r: Result<String, TemplateError>)
        ensures
            renders(self.source(), context, r),
    {
        proof {
            use_type_invariant(self);
        }
        match render_template(&self.env, "chat", context) {
            Ok(text) => Ok(text),
            Err(error) => Err(TemplateError::new(error)),
        }
    }
}

/// Render a HuggingFace-style Jinja chat template.
///
/// This covers the hot serving path for `apply_chat_template(..., tokenize=False)`:
/// callers tokenize the rendered string directly afterward.
pub fn apply_chat_template(
    chat_template: &str,
    messages: Json,
    options: ChatTemplateOptions,
) -> (r: Result<String, TemplateError>)
    ensures
        match syntax_error(chat_template@) {
            None => renders(
                jinja_template(chat_template@),
                map_value(context_entries(value_of(messages@), options)),
                r,
            ),
            Some(error) => r matches Err(e) && e.tells(error),
        },
{
    match ChatTemplateRenderer::new(chat_template) {
        Ok(renderer) => renderer.render(messages, options),
        Err(e) => Err(e),
    }
}

} // verus!
