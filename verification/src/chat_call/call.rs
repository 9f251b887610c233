//! A call: its arguments, the call that they ask for, and what it gives.

use std::sync::Arc;

use vstd::prelude::*;

use super::arguments::{
    all_known, asked_field, batched_tree, bool_argument, consume_render_only_tokenizer_kwargs,
    is_batched_chat, is_batched_chat_value, parse_continue_final_message, pop_bool_context_arg,
    reads_batched, refused, render_only, tells_unknown, validate_template_kwargs, CallError,
    ChatTemplateCallError, Complaint, ContinueArgument, Entries,
};
use super::continuation::{
    continue_messages, field_not_accepted, is_cut, is_last_at, not_rendered,
    prepare_continue_final_message, trim_continue_final_message, CONTINUE_FINAL_MESSAGE_MARK,
};
use super::laws::law_text_ends_at_the_last_mark;
use super::state::ChatTemplateState;
use crate::chat_template::convert::value_of;
use crate::chat_template::json::{extended, lemma_tree, removed, Json, JsonMap, JsonTree};
use crate::chat_template::outside::{error_text, map_value, rendered, undeclared_names};
use crate::chat_template::renderer::{
    chat_settings, context_entries, renders, syntax_error, ChatTemplateOptions,
    ChatTemplateRenderer, TemplateError,
};
use crate::chat_template::tags::jinja_template;
use crate::text::{occurs, trimmed};

verus! {

/// What a value that has no JSON form is told.
pub fn json_conversion_error(detail: &str) -> (error: CallError)
    ensures
        error@ == Complaint::Type("value is not JSON-compatible: "@ + detail@),
{
    let mut message = "value is not JSON-compatible: ".to_owned();
    message.append(detail);
    CallError::Type(message)
}

/// The result of the first look at a call: the field of the final message to
/// continue, or what is wrong.
pub open spec fn checked(
    tokenize: bool,
    add_generation_prompt: bool,
    argument: ContinueArgument,
    r: Result<Option<String>, CallError>,
) -> bool {
    if tokenize {
        refused(
            r,
            Complaint::NotImplemented(
                "apply_chat_template(tokenize=True) is not supported by basetenkenizer; render with tokenize=False and call encode separately"@,
            ),
        )
    } else {
        match asked_field(argument) {
            Err(complaint) => refused(r, complaint),
            Ok(Some(field)) => if add_generation_prompt {
                refused(
                    r,
                    Complaint::Value(
                        "continue_final_message and add_generation_prompt are not compatible"@,
                    ),
                )
            } else {
                r matches Ok(Some(name)) && name@ == field
            },
            Ok(None) => r matches Ok(None),
        }
    }
}

/// Checks what a call asks for before anything else is looked at, and gives the
/// field of the final message to continue.
pub fn check_chat_call(
    tokenize: bool,
    add_generation_prompt: bool,
    continue_final_message: ContinueArgument,
) -> (r: Result<Option<String>, CallError>)
    ensures
        checked(tokenize, add_generation_prompt, continue_final_message, r),
        if tokenize {
            refused(
                r,
                Complaint::NotImplemented(
                    "apply_chat_template(tokenize=True) is not supported by basetenkenizer; render with tokenize=False and call encode separately"@,
                ),
            )
        } else {
            match asked_field(continue_final_message) {
                Err(complaint) => refused(r, complaint),
                Ok(Some(_)) if add_generation_prompt => refused(
                    r,
                    Complaint::Value(
                        "continue_final_message and add_generation_prompt are not compatible"@,
                    ),
                ),
                Ok(Some(field)) => r matches Ok(Some(name)) && name@ == field,
                Ok(None) => r matches Ok(None),
            }
        },
        r is Ok ==> !tokenize && !(continue_final_message is Other),
        r matches Ok(Some(_)) ==> !add_generation_prompt,
{
    if tokenize {
        return Err(
            CallError::NotImplemented(
                "apply_chat_template(tokenize=True) is not supported by basetenkenizer; render with tokenize=False and call encode separately".to_owned(),
            ),
        );
    }
    let field = match parse_continue_final_message(continue_final_message) {
        Ok(field) => field,
        Err(error) => {
            return Err(error);
        },
    };
    if add_generation_prompt && field.is_some() {
        return Err(
            CallError::Value(
                "continue_final_message and add_generation_prompt are not compatible".to_owned(),
            ),
        );
    }
    Ok(field)
}

/// Messages ready for rendering. Continuing the final message changes it before
/// rendering, which only the JSON form supports; every other call takes the
/// template value, which is cheaper to make.
pub enum PreparedMessages {
    /// A template value.
    Value(minijinja::Value),
    /// JSON.
    Json(Json),
}

impl PreparedMessages {
    /// The messages turn out to be several conversations or not.
    pub open spec fn reads_batched(self, r: bool) -> bool {
        match self {
            PreparedMessages::Value(value) => reads_batched(value, r),
            PreparedMessages::Json(json) => r == batched_tree(json@),
        }
    }

    /// The messages as a template sees them.
    pub open spec fn value(self) -> minijinja::Value {
        match self {
            PreparedMessages::Value(value) => value,
            PreparedMessages::Json(json) => value_of(json@),
        }
    }
}

/// The arguments of a call whose field to continue is known. What was converted
/// from the caller's objects may be an error.
pub struct ChatCallArguments {
    /// The conversation.
    pub messages: Result<PreparedMessages, CallError>,
    /// A template for this call alone.
    pub chat_template: Option<String>,
    /// Ask for the start of an answer at the end.
    pub add_generation_prompt: bool,
    /// The field of the final message to continue.
    pub continue_field: Option<String>,
    /// The tools that the model may call.
    pub tools: Option<Result<Json, CallError>>,
    /// The documents that the model may cite.
    pub documents: Option<Result<Json, CallError>>,
    /// Special tokens for this call alone.
    pub special_tokens: Option<Result<Json, CallError>>,
    /// The other arguments.
    pub kwargs: Option<Result<Json, CallError>>,
}

/// The entries of an optional dictionary, or what is wrong with it.
pub open spec fn dictionary(argument: Option<Result<Json, CallError>>) -> Result<
    Entries,
    Complaint,
> {
    match argument {
        None => Ok(Seq::empty()),
        Some(Err(error)) => Err(error@),
        Some(Ok(json)) => match json@ {
            JsonTree::Object(entries) => Ok(entries),
            _ => Err(Complaint::Type("expected a dictionary"@)),
        },
    }
}

/// The entries of an optional dictionary; without one there are none.
pub fn json_map_argument(argument: Option<Result<Json, CallError>>) -> (r: Result<
    JsonMap,
    CallError,
>)
    ensures
        match dictionary(argument) {
            Ok(entries) => r matches Ok(map) && map@ == entries,
            Err(complaint) => refused(r, complaint),
        },
{
    broadcast use lemma_tree;

    match argument {
        None => Ok(JsonMap::new()),
        Some(Err(error)) => Err(error),
        Some(Ok(Json::Object(map))) => Ok(map),
        Some(Ok(_)) => Err(CallError::Type("expected a dictionary".to_owned())),
    }
}

/// The first complaint, or else the second.
pub open spec fn or_else(first: Option<Complaint>, second: Option<Complaint>) -> Option<Complaint> {
    match first {
        Some(_) => first,
        None => second,
    }
}

/// What is wrong with an optional value.
pub open spec fn value_complaint(argument: Option<Result<Json, CallError>>) -> Option<Complaint> {
    match argument {
        Some(Err(error)) => Some(error@),
        _ => None,
    }
}

/// What is wrong with an optional dictionary.
pub open spec fn dictionary_complaint(
    argument: Option<Result<Json, CallError>>,
) -> Option<Complaint> {
    match dictionary(argument) {
        Ok(_) => None,
        Err(complaint) => Some(complaint),
    }
}

/// The entries of an optional dictionary that is one.
pub open spec fn dictionary_entries(argument: Option<Result<Json, CallError>>) -> Entries {
    match dictionary(argument) {
        Ok(entries) => entries,
        Err(_) => Seq::empty(),
    }
}

impl ChatCallArguments {
    /// The messages, if there are any, turn out to be several conversations or
    /// not.
    pub open spec fn reads_batched(self, batched: bool) -> bool {
        self.messages matches Ok(messages) ==> messages.reads_batched(batched)
    }

    /// What is wrong with the messages by themselves.
    pub open spec fn messages_complaint(self, batched: bool) -> Option<Complaint> {
        match self.messages {
            Err(error) => Some(error@),
            Ok(messages) => if batched {
                Some(
                    Complaint::NotImplemented(
                        "batched conversations are not supported by basetenkenizer apply_chat_template"@,
                    ),
                )
            } else {
                None
            },
        }
    }

    /// The other arguments, without those that do not go to the template.
    pub open spec fn context_arguments(self) -> Entries {
        removed(render_only(dictionary_entries(self.kwargs)).0, "basetenkenizer_strict_template"@)
    }

    /// Arguments that the template does not read are refused.
    pub open spec fn strict(self) -> bool {
        bool_argument(
            render_only(dictionary_entries(self.kwargs)).0,
            "basetenkenizer_strict_template"@,
        ) != Ok::<Option<bool>, Complaint>(Some(false))
    }

    /// What is wrong with the other arguments.
    pub open spec fn kwargs_complaint(self) -> Option<Complaint> {
        or_else(
            dictionary_complaint(self.kwargs),
            or_else(
                render_only(dictionary_entries(self.kwargs)).1,
                match bool_argument(
                    render_only(dictionary_entries(self.kwargs)).0,
                    "basetenkenizer_strict_template"@,
                ) {
                    Ok(_) => None,
                    Err(complaint) => Some(complaint),
                },
            ),
        )
    }

    /// The template of this call: its own, or else the one that is set.
    pub open spec fn template(self, set: Option<Seq<char>>) -> Option<Seq<char>> {
        match self.chat_template {
            Some(template) => Some(template@),
            None => set,
        }
    }

    /// The messages that the template is rendered with, the text to continue if
    /// there is one, or what is wrong.
    pub open spec fn continued(self, template: Seq<char>) -> Result<
        (minijinja::Value, Option<Seq<char>>),
        Complaint,
    > {
        match (self.continue_field, self.messages->Ok_0) {
            (Some(field), PreparedMessages::Json(json)) => if occurs(template, field@) {
                match continue_messages(json@, field@) {
                    Ok((tree, text)) => Ok((value_of(tree), Some(text))),
                    Err(problem) => Err(problem.complaint(field@)),
                }
            } else {
                Err(field_not_accepted(field@))
            },
            (_, messages) => Ok((messages.value(), None)),
        }
    }

    /// What is wrong with the call, if anything is: the first complaint in the
    /// order in which the arguments are looked at.
    pub open spec fn complaint(self, set: Option<Seq<char>>, batched: bool) -> Option<Complaint> {
        or_else(
            self.messages_complaint(batched),
            or_else(
                value_complaint(self.tools),
                or_else(
                    value_complaint(self.documents),
                    or_else(
                        dictionary_complaint(self.special_tokens),
                        or_else(
                            self.kwargs_complaint(),
                            match self.template(set) {
                                None => Some(
                                    Complaint::Value("chat_template must be provided"@),
                                ),
                                Some(template) => match self.continued(template) {
                                    Ok(_) => None,
                                    Err(complaint) => Some(complaint),
                                },
                            },
                        ),
                    ),
                ),
            ),
        )
    }
}

/// A call after all its arguments were looked at. It owns everything that
/// rendering needs.
pub struct PreparedChatTemplateCall {
    /// The template.
    pub template: String,
    /// The compiled template, if the call has none of its own.
    pub renderer: Option<Arc<ChatTemplateRenderer>>,
    /// The conversation.
    pub messages: PreparedMessages,
    /// The other variables of the template.
    pub options: ChatTemplateOptions,
    /// The text to continue.
    pub continuation: Option<String>,
    /// Arguments that the template does not read are refused.
    pub strict_template: bool,
}

/// The same text, or none.
pub open spec fn same_text(text: Option<String>, wanted: Option<Seq<char>>) -> bool {
    match text {
        Some(s) => wanted == Some(s@),
        None => wanted is None,
    }
}

/// The same JSON value, or none.
pub open spec fn same_json(value: Option<Json>, argument: Option<Result<Json, CallError>>) -> bool {
    match value {
        Some(json) => argument matches Some(Ok(given)) && json@ == given@,
        None => argument is None,
    }
}

impl PreparedChatTemplateCall {
    /// The call that the arguments ask for, where the template, the compiled
    /// template and the special tokens are set.
    pub open spec fn prepared(
        self,
        arguments: ChatCallArguments,
        set: ChatTemplateState,
    ) -> bool {
        &&& arguments.template(set.template()) == Some(self.template@)
        &&& self.renderer == (if arguments.chat_template is Some {
            None
        } else {
            set.compiled()
        })
        &&& self.renderer matches Some(renderer) ==> renderer.source() == jinja_template(
            self.template@,
        )
        &&& arguments.continued(self.template@) matches Ok((messages, text)) && self.messages.value()
            == messages && same_text(self.continuation, text)
        &&& self.strict_template == arguments.strict()
        &&& self.options.add_generation_prompt == arguments.add_generation_prompt
        &&& self.options.continue_final_message == (arguments.continue_field is Some)
        &&& same_json(self.options.tools, arguments.tools)
        &&& same_json(self.options.documents, arguments.documents)
        &&& self.options.special_tokens@ == extended(
            set.tokens(),
            dictionary_entries(arguments.special_tokens),
        )
        &&& self.options.extra_context@ == arguments.context_arguments()
    }
}

impl ChatTemplateState {
    /// Looks at the arguments of a call and resolves its template.
    pub fn prepare_chat_template_call(&self, arguments: ChatCallArguments) -> (r: Result<
        PreparedChatTemplateCall,
        CallError,
    >)
        ensures
            exists|batched: bool|
                #[trigger] arguments.reads_batched(batched) && match arguments.complaint(
                    self.template(),
                    batched,
                ) {
                    Some(complaint) => refused(r, complaint),
                    None => r matches Ok(call) && call.prepared(arguments, *self),
                },
    {
        let messages = match arguments.messages {
            Ok(messages) => messages,
            Err(error) => {
                assert(arguments.reads_batched(false));
                return Err(error);
            },
        };
        let batched: bool = match &messages {
            PreparedMessages::Json(json) => is_batched_chat(json),
            PreparedMessages::Value(value) => is_batched_chat_value(value),
        };
        assert(arguments.reads_batched(batched));
        if batched {
            return Err(
                CallError::NotImplemented(
                    "batched conversations are not supported by basetenkenizer apply_chat_template".to_owned(),
                ),
            );
        }
        let tools = match arguments.tools {
            Some(Ok(json)) => Some(json),
            None => None,
            Some(Err(error)) => {
                return Err(error);
            },
        };
        let documents = match arguments.documents {
            Some(Ok(json)) => Some(json),
            None => None,
            Some(Err(error)) => {
                return Err(error);
            },
        };
        let call_tokens = match json_map_argument(arguments.special_tokens) {
            Ok(map) => map,
            Err(error) => {
                return Err(error);
            },
        };
        let mut extra_context = match json_map_argument(arguments.kwargs) {
            Ok(map) => map,
            Err(error) => {
                return Err(error);
            },
        };
        match consume_render_only_tokenizer_kwargs(&mut extra_context) {
            Ok(_) => {},
            Err(error) => {
                return Err(error);
            },
        }
        let strict_template = match pop_bool_context_arg(
            &mut extra_context,
            "basetenkenizer_strict_template",
        ) {
            Ok(Some(strict)) => strict,
            Ok(None) => true,
            Err(error) => {
                return Err(error);
            },
        };
        let (template, renderer) = match arguments.chat_template {
            Some(template) => (template, None),
            None => match self.chat_template() {
                Some((template, renderer)) => (template, Some(renderer)),
                None => {
                    return Err(CallError::Value("chat_template must be provided".to_owned()));
                },
            },
        };
        let continued = arguments.continue_field.is_some();
        let (messages, continuation) = match (arguments.continue_field, messages) {
            (Some(field), PreparedMessages::Json(json)) => {
                let mut json = json;
                match prepare_continue_final_message(
                    &mut json,
                    field.as_str(),
                    template.as_str(),
                ) {
                    Ok(text) => (PreparedMessages::Json(json), Some(text)),
                    Err(error) => {
                        return Err(error);
                    },
                }
            },
            (_, messages) => (messages, None),
        };
        let mut special_tokens = self.special_tokens();
        special_tokens.extend(call_tokens);
        Ok(
            PreparedChatTemplateCall {
                template,
                renderer,
                messages,
                options: ChatTemplateOptions {
                    add_generation_prompt: arguments.add_generation_prompt,
                    continue_final_message: continued,
                    tools,
                    documents,
                    special_tokens,
                    extra_context,
                },
                continuation,
                strict_template,
            },
        )
    }
}

/// What a call gives for what its template rendered: the text, cut where the
/// final message is to be continued.
pub open spec fn finished(
    rendered: Result<String, TemplateError>,
    continuation: Option<String>,
    r: Result<String, ChatTemplateCallError>,
) -> bool {
    match rendered {
        Err(e) => r matches Err(ChatTemplateCallError::Render(message)) && message@ == e.message@,
        Ok(text) => match continuation {
            None => r matches Ok(s) && s@ == text@,
            Some(wanted) => if occurs(text@, trimmed(wanted@)) && occurs(
                text@,
                CONTINUE_FINAL_MESSAGE_MARK@,
            ) {
                r matches Ok(cut) && is_cut(text@, cut@)
            } else {
                r matches Err(ChatTemplateCallError::Render(message)) && message@ == not_rendered(
                    text@,
                    trimmed(wanted@),
                )
            },
        },
    }
}

/// What a call gives for what its template rendered: see [`finished`].
pub fn finish_rendered(
    rendered: Result<String, TemplateError>,
    continuation: Option<String>,
) -> (r: Result<String, ChatTemplateCallError>)
    ensures
        finished(rendered, continuation, r),
        rendered matches Ok(text) ==> continuation is None ==> (r matches Ok(s) && s@ == text@),
        rendered matches Err(e) ==> r matches Err(ChatTemplateCallError::Render(message))
            && message@ == e.message@,
        rendered matches Ok(text) ==> r matches Ok(s) ==> s@ == text@.take(s@.len() as int),
{
    let text = match rendered {
        Ok(text) => text,
        Err(e) => {
            return Err(ChatTemplateCallError::Render(e.message));
        },
    };
    match continuation {
        Some(wanted) => match trim_continue_final_message(text, wanted.as_str()) {
            Ok(cut) => {
                assert(occurs(text@, CONTINUE_FINAL_MESSAGE_MARK@)) by {
                    let at = choose|at: int| #[trigger]
                        is_last_at(text@, CONTINUE_FINAL_MESSAGE_MARK@, at);
                }
                proof {
                    let at = law_text_ends_at_the_last_mark(text@, cut@);
                }
                Ok(cut)
            },
            Err(message) => Err(ChatTemplateCallError::Render(message)),
        },
        None => Ok(text),
    }
}

impl PreparedChatTemplateCall {
    /// The context that the template is rendered with.
    pub open spec fn context(self) -> minijinja::Value {
        map_value(context_entries(self.messages.value(), self.options))
    }

    /// The source of the compiled template, or of the call's own once it is
    /// compiled.
    pub open spec fn source(self) -> Seq<char> {
        match self.renderer {
            Some(renderer) => renderer.source(),
            None => jinja_template(self.template@),
        }
    }

    /// What the call gives with a template of this source: an argument that the
    /// template does not read is refused first, if the call is strict.
    pub open spec fn gives(
        self,
        source: Seq<char>,
        r: Result<String, ChatTemplateCallError>,
    ) -> bool {
        let names = undeclared_names(source);
        let extra = self.options.extra_context@;
        if self.strict_template && !all_known(extra, names) {
            r matches Err(ChatTemplateCallError::UnknownKwarg(message)) && tells_unknown(
                extra,
                names,
                message@,
            )
        } else {
            exists|rendered: Result<String, TemplateError>| #[trigger]
                renders(source, self.context(), rendered) && finished(
                    rendered,
                    self.continuation,
                    r,
                )
        }
    }

    fn run(self, renderer: &ChatTemplateRenderer) -> (r: Result<String, ChatTemplateCallError>)
        ensures
            self.gives(renderer.source(), r),
            r matches Ok(s) ==> self.continuation is None ==> exists|moment: int|
                #[trigger] rendered(
                    chat_settings(renderer.source()),
                    "chat"@,
                    self.context(),
                    moment,
                ) == Ok::<Seq<char>, minijinja::Error>(s@),
    {
        if self.strict_template {
            match validate_template_kwargs(renderer, &self.options.extra_context) {
                Ok(_) => {},
                Err(error) => {
                    return Err(error);
                },
            }
        }
        let out = match self.messages {
            PreparedMessages::Value(messages) => renderer.render_value(messages, self.options),
            PreparedMessages::Json(messages) => renderer.render(messages, self.options),
        };
        assert(renders(renderer.source(), self.context(), out));
        finish_rendered(out, self.continuation)
    }

    /// Renders the template of the call, which is compiled first if it is the
    /// call's own. Without a message to continue, the result is exactly what the
    /// engine renders.
    pub fn render(self) -> (r: Result<String, ChatTemplateCallError>)
        ensures
            r matches Ok(s) ==> self.continuation is None ==> exists|moment: int|
                #[trigger] rendered(
                    chat_settings(self.source()),
                    "chat"@,
                    self.context(),
                    moment,
                ) == Ok::<Seq<char>, minijinja::Error>(s@),
            match self.renderer {
                Some(renderer) => self.gives(renderer.source(), r),
                None => match syntax_error(self.template@) {
                    None => self.gives(jinja_template(self.template@), r),
                    Some(error) => r matches Err(ChatTemplateCallError::Render(message))
                        && message@ == error_text(error),
                },
            },
    {
        let call = PreparedChatTemplateCall {
            template: self.template,
            renderer: None,
            messages: self.messages,
            options: self.options,
            continuation: self.continuation,
            strict_template: self.strict_template,
        };
        assert(call.context() == self.context());
        match self.renderer {
            Some(renderer) => {
                assert(renderer.source() == self.source());
                let r = call.run(&renderer);
                r
            },
            None => match ChatTemplateRenderer::new(call.template.as_str()) {
                Ok(renderer) => {
                    assert(renderer.source() == self.source());
                    call.run(&renderer)
                },
                Err(e) => Err(ChatTemplateCallError::Render(e.message)),
            },
        }
    }
}

} // verus!
