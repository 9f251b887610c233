//! Calls of `apply_chat_template`: arguments, continuation and rendering.

use basetenkenizer::chat_call::arguments::{
    consume_render_only_tokenizer_kwargs, is_batched_chat, is_batched_chat_value,
    parse_continue_final_message, pop_bool_context_arg, validate_template_kwargs, CallError,
    ChatTemplateCallError, ContinueArgument,
};
use basetenkenizer::chat_call::call::{
    check_chat_call, finish_rendered, json_conversion_error, json_map_argument,
    ChatCallArguments, PreparedChatTemplateCall, PreparedMessages,
};
use basetenkenizer::chat_call::continuation::{
    prepare_continue_final_message, trim_continue_final_message, truncate_for_error,
    CONTINUE_FINAL_MESSAGE_MARK, CONTINUE_FINAL_MESSAGE_TAG,
};
use basetenkenizer::chat_call::state::ChatTemplateState;
use basetenkenizer::chat_call::suggest::{closest_variable, levenshtein};
use basetenkenizer::chat_template::convert::{from_json_value, into_json_value};
use basetenkenizer::chat_template::json::{Json, JsonMap};
use basetenkenizer::chat_template::renderer::TemplateError;
use basetenkenizer::chat_template::ChatTemplateRenderer;
use basetenkenizer::post_processor::{
    check_post_process, parse_post_processor, post_processor_text, read_tokenizer_json,
    special_tokens_to_add,
};

fn json(text: &str) -> Json {
    from_json_value(serde_json::from_str(text).unwrap())
}

fn map(text: &str) -> JsonMap {
    json_map_argument(Some(Ok(json(text)))).unwrap()
}

fn shown(map: &JsonMap) -> String {
    into_json_value(&Json::Object(map.clone())).to_string()
}

fn template_value(text: &str) -> minijinja::Value {
    minijinja::Value::from_serialize(serde_json::from_str::<serde_json::Value>(text).unwrap())
}

fn told(error: CallError) -> (String, String) {
    match error {
        CallError::Type(message) => ("type".to_string(), message),
        CallError::Value(message) => ("value".to_string(), message),
        CallError::NotImplemented(message) => ("not implemented".to_string(), message),
    }
}

fn expect(error: CallError, kind: &str, message: &str) {
    assert_eq!(told(error), (kind.to_string(), message.to_string()));
}

fn arguments(messages: &str) -> ChatCallArguments {
    ChatCallArguments {
        messages: Ok(PreparedMessages::Value(template_value(messages))),
        chat_template: None,
        add_generation_prompt: false,
        continue_field: None,
        tools: None,
        documents: None,
        special_tokens: None,
        kwargs: None,
    }
}

fn continuing(messages: &str, field: &str) -> ChatCallArguments {
    ChatCallArguments {
        messages: Ok(PreparedMessages::Json(json(messages))),
        continue_field: Some(field.to_string()),
        ..arguments("[]")
    }
}

fn prepared(call: ChatCallArguments, state: &ChatTemplateState) -> PreparedChatTemplateCall {
    match state.prepare_chat_template_call(call) {
        Ok(call) => call,
        Err(error) => panic!("{error:?}"),
    }
}

fn refusal(call: ChatCallArguments, state: &ChatTemplateState) -> CallError {
    match state.prepare_chat_template_call(call) {
        Ok(_) => panic!("not refused"),
        Err(error) => error,
    }
}

fn state(template: &str) -> ChatTemplateState {
    let mut state = ChatTemplateState::new();
    state.set_chat_template(Some(template.to_string())).unwrap();
    state
}

const CONTENTS: &str = "{% for m in messages %}<{{ m.content }}>{% endfor %}";

#[test]
fn bool_arguments_are_removed() {
    let mut kwargs = map(r#"{"a": true, "b": false, "c": null, "d": [1, "x"], "e": 0}"#);
    assert_eq!(pop_bool_context_arg(&mut kwargs, "a").unwrap(), Some(true));
    assert_eq!(pop_bool_context_arg(&mut kwargs, "b").unwrap(), Some(false));
    assert_eq!(pop_bool_context_arg(&mut kwargs, "c").unwrap(), None);
    assert_eq!(pop_bool_context_arg(&mut kwargs, "missing").unwrap(), None);
    expect(
        pop_bool_context_arg(&mut kwargs, "d").unwrap_err(),
        "type",
        "d must be a bool, got [1,\"x\"]",
    );
    assert_eq!(shown(&kwargs), r#"{"e":0}"#);
}

#[test]
fn arguments_for_tokenizing_are_dropped() {
    let mut kwargs = map(
        r#"{"x": 1, "padding": true, "return_dict": false, "truncation": 2, "max_length": 3,
            "return_tensors": "pt", "tokenizer_kwargs": {}, "return_assistant_tokens_mask": null}"#,
    );
    consume_render_only_tokenizer_kwargs(&mut kwargs).unwrap();
    assert_eq!(shown(&kwargs), r#"{"x":1}"#);
}

#[test]
fn arguments_that_ask_for_tokens_are_refused() {
    let refused = |text: &str| consume_render_only_tokenizer_kwargs(&mut map(text)).unwrap_err();
    for key in [
        "messages",
        "conversation",
        "add_generation_prompt",
        "continue_final_message",
        "tools",
        "documents",
        "special_tokens",
    ] {
        expect(
            refused(&format!("{{\"return_dict\": true, \"{key}\": 1}}")),
            "type",
            &format!("apply_chat_template got multiple values for keyword argument `{key}`"),
        );
    }
    expect(
        refused(r#"{"return_dict": true, "return_assistant_tokens_mask": true}"#),
        "value",
        "`return_assistant_tokens_mask=True` requires `return_dict=True` and `tokenize=True`",
    );
    expect(
        refused(r#"{"return_dict": true}"#),
        "value",
        "`return_dict=True` requires `tokenize=True`",
    );
    expect(
        refused(r#"{"return_dict": "yes"}"#),
        "type",
        "return_dict must be a bool, got \"yes\"",
    );
}

#[test]
fn batched_conversations_are_found() {
    for (text, batched) in [
        ("[]", false),
        ("[[]]", true),
        (r#"[[{"role": "user"}], {}]"#, true),
        (r#"[{"role": "user"}]"#, false),
        (r#"[{}, []]"#, false),
        (r#"{"a": []}"#, false),
        (r#""[[]]""#, false),
        ("null", false),
    ] {
        assert_eq!(is_batched_chat(&json(text)), batched, "{text}");
        assert_eq!(is_batched_chat_value(&template_value(text)), batched, "{text}");
    }
}

#[test]
fn the_field_to_continue() {
    let field = |argument| parse_continue_final_message(argument).unwrap();
    assert_eq!(field(ContinueArgument::Missing), None);
    assert_eq!(field(ContinueArgument::Flag(false)), None);
    assert_eq!(field(ContinueArgument::Flag(true)), Some("content".to_string()));
    assert_eq!(field(ContinueArgument::Field(String::new())), None);
    assert_eq!(
        field(ContinueArgument::Field("thinking".to_string())),
        Some("thinking".to_string())
    );
    expect(
        parse_continue_final_message(ContinueArgument::Other).unwrap_err(),
        "type",
        "continue_final_message must be a bool or string",
    );
}

#[test]
fn calls_are_checked_first() {
    expect(
        check_chat_call(true, true, ContinueArgument::Other).unwrap_err(),
        "not implemented",
        "apply_chat_template(tokenize=True) is not supported by basetenkenizer; render with tokenize=False and call encode separately",
    );
    expect(
        check_chat_call(false, true, ContinueArgument::Other).unwrap_err(),
        "type",
        "continue_final_message must be a bool or string",
    );
    expect(
        check_chat_call(false, true, ContinueArgument::Flag(true)).unwrap_err(),
        "value",
        "continue_final_message and add_generation_prompt are not compatible",
    );
    assert_eq!(check_chat_call(false, true, ContinueArgument::Flag(false)).unwrap(), None);
    assert_eq!(
        check_chat_call(false, false, ContinueArgument::Flag(true)).unwrap(),
        Some("content".to_string())
    );
}

#[test]
fn conversion_errors_name_their_cause() {
    expect(
        json_conversion_error("set"),
        "type",
        "value is not JSON-compatible: set",
    );
    expect(
        json_map_argument(Some(Ok(json("[]")))).unwrap_err(),
        "type",
        "expected a dictionary",
    );
    expect(
        json_map_argument(Some(Err(json_conversion_error("x")))).unwrap_err(),
        "type",
        "value is not JSON-compatible: x",
    );
    assert_eq!(json_map_argument(None).unwrap().len(), 0);
}

#[test]
fn edit_distances() {
    for (left, right, distance) in [
        ("", "", 0),
        ("", "abc", 3),
        ("kitten", "sitting", 3),
        ("enable_thinkng", "enable_thinking", 1),
        ("ab", "ba", 2),
        ("é", "e", 1),
        ("中文", "中", 1),
        ("same", "same", 0),
    ] {
        assert_eq!(levenshtein(left, right), distance);
        assert_eq!(levenshtein(right, left), distance);
    }
}

#[test]
fn edits_are_counted_at_least() {
    let mut texts: Vec<String> = vec![String::new()];
    let mut i = 0;
    while texts[i].chars().count() < 3 {
        for c in ['a', 'é'] {
            texts.push(format!("{}{c}", texts[i]));
        }
        i += 1;
    }
    for a in &texts {
        for b in &texts {
            for c in &texts {
                assert!(levenshtein(a, c) <= levenshtein(a, b) + levenshtein(b, c));
            }
        }
        for at in 0..=a.chars().count() {
            let mut edited: Vec<char> = a.chars().collect();
            edited.insert(at, 'a');
            assert_eq!(levenshtein(a, &edited.iter().collect::<String>()), 1);
        }
    }
}

#[test]
fn the_closest_variable_is_suggested() {
    let names: Vec<String> = ["messages", "enable_thinking", "enabled", "tools"]
        .iter()
        .map(|name| name.to_string())
        .collect();
    assert_eq!(
        closest_variable("enable_thinkng", &names),
        Some(&"enable_thinking".to_string())
    );
    assert_eq!(closest_variable("zzz", &names), None);
    let ties: Vec<String> = vec!["tool2".to_string(), "tool1".to_string()];
    assert_eq!(closest_variable("tools", &ties), Some(&"tool1".to_string()));
}

#[test]
fn unknown_arguments_are_refused() {
    let renderer = ChatTemplateRenderer::new("{{ messages }}{{ enable_thinking }}").unwrap();
    assert!(validate_template_kwargs(&renderer, &map("{}")).is_ok());
    assert!(validate_template_kwargs(&renderer, &map(r#"{"enable_thinking": 1}"#)).is_ok());
    match validate_template_kwargs(&renderer, &map(r#"{"enable_thinkng": 1}"#)) {
        Err(ChatTemplateCallError::UnknownKwarg(message)) => assert_eq!(
            message,
            "apply_chat_template got an unexpected keyword argument `enable_thinkng`: \
             the chat template does not reference it. Did you mean `enable_thinking`? \
             Pass basetenkenizer_strict_template=False to allow unused keyword arguments."
        ),
        _ => panic!("accepted"),
    }
    match validate_template_kwargs(&renderer, &map(r#"{"enable_thinking": 1, "qqq": 1}"#)) {
        Err(ChatTemplateCallError::UnknownKwarg(message)) => assert_eq!(
            message,
            "apply_chat_template got an unexpected keyword argument `qqq`: \
             the chat template does not reference it \
             Pass basetenkenizer_strict_template=False to allow unused keyword arguments."
        ),
        _ => panic!("accepted"),
    }
}

#[test]
fn the_mark_is_the_trimmed_tag() {
    assert_eq!(CONTINUE_FINAL_MESSAGE_TAG.trim(), CONTINUE_FINAL_MESSAGE_MARK);
}

#[test]
fn the_final_message_is_tagged() {
    let mut messages = json(r#"[{"role": "user"}, {"role": "assistant", "content": "so far "}]"#);
    assert_eq!(
        prepare_continue_final_message(&mut messages, "content", CONTENTS).unwrap(),
        "so far "
    );
    assert_eq!(
        into_json_value(&messages).to_string(),
        r#"[{"role":"user"},{"role":"assistant","content":"so far CONTINUE_FINAL_MESSAGE_TAG "}]"#
    );

    let mut messages = json(
        r#"[{"content": [{"type": "text", "text": "a"}, {"text": "b"}, {"text": 1}, "c"]}]"#,
    );
    assert_eq!(
        prepare_continue_final_message(&mut messages, "content", CONTENTS).unwrap(),
        "b"
    );
    assert_eq!(
        into_json_value(&messages).to_string(),
        r#"[{"content":[{"type":"text","text":"a"},{"text":"bCONTINUE_FINAL_MESSAGE_TAG "},{"text":1},"c"]}]"#
    );
}

#[test]
fn messages_that_cannot_be_continued() {
    for (messages, message) in [
        ("[]", "continue_final_message requires a non-empty message list"),
        ("{}", "continue_final_message requires a non-empty message list"),
        ("[1]", "continue_final_message requires a non-empty message list"),
        (
            r#"[{"content": "a"}, {"role": "assistant"}]"#,
            "continue_final_message is set but the final message has no \"content\" to continue",
        ),
        (
            r#"[{"content": [{"type": "image"}, "x"]}]"#,
            "continue_final_message is set but we could not find any text to continue in the final message",
        ),
        (
            r#"[{"content": 3}]"#,
            "continue_final_message is set but final message field \"content\" is not a string or text block list",
        ),
    ] {
        let mut value = json(messages);
        expect(
            prepare_continue_final_message(&mut value, "content", CONTENTS).unwrap_err(),
            "value",
            message,
        );
        assert_eq!(into_json_value(&value), into_json_value(&json(messages)));
    }
    expect(
        prepare_continue_final_message(&mut json("[]"), "thinking", CONTENTS).unwrap_err(),
        "value",
        "continue_final_message is set to \"thinking\" but this is not an accepted field in the chat_template",
    );
}

#[test]
fn the_rendered_text_is_cut_at_the_tag() {
    let cut = |rendered: &str, message: &str| {
        trim_continue_final_message(rendered.to_string(), message)
    };
    assert_eq!(
        cut("<so far CONTINUE_FINAL_MESSAGE_TAG >\n", "so far ").unwrap(),
        "<so far "
    );
    assert_eq!(
        cut("<so far CONTINUE_FINAL_MESSAGE_TAG>\n", " so far ").unwrap(),
        "<so far"
    );
    assert_eq!(
        cut("aCONTINUE_FINAL_MESSAGE_TAG bCONTINUE_FINAL_MESSAGE_TAG ", "b").unwrap(),
        "aCONTINUE_FINAL_MESSAGE_TAG b"
    );
    assert_eq!(
        cut("no tag", "no").unwrap_err(),
        "continue_final_message is set but the final message does not appear in the chat after applying the chat template. Final message to continue: no\nRendered chat:\nno tag"
    );
    let error = cut(
        &format!("{}CONTINUE_FINAL_MESSAGE_TAG ", "é".repeat(5000)),
        &"x".repeat(600),
    )
    .unwrap_err();
    assert!(error.contains(&format!("continue: {}...\nRendered", "x".repeat(512))));
    assert!(error.ends_with(&format!("chat:\n{}...", "é".repeat(4096))));
}

#[test]
fn long_values_are_shortened() {
    assert_eq!(truncate_for_error("abc", 3), "abc");
    assert_eq!(truncate_for_error("abcd", 3), "abc...");
    assert_eq!(truncate_for_error("中文字", 2), "中文...");
    assert_eq!(truncate_for_error("", 0), "");
}

#[test]
fn a_template_that_does_not_compile_is_not_set() {
    let mut state = ChatTemplateState::new();
    assert!(state.chat_template().is_none());
    assert!(state.chat_template_variables().is_none());
    state.set_chat_template(Some("{{ b }}{{ a }}".to_string())).unwrap();
    assert_eq!(
        state.chat_template_variables().unwrap(),
        vec!["a".to_string(), "b".to_string()]
    );
    let error = state.set_chat_template(Some("{% if %}".to_string())).unwrap_err();
    assert!(error.message.starts_with("syntax error"));
    assert_eq!(state.chat_template().unwrap().0, "{{ b }}{{ a }}");
    state.set_chat_template(None).unwrap();
    assert!(state.chat_template().is_none());
}

#[test]
fn variables_are_in_order() {
    let state = state("{{ zeta }}{{ alpha }}{{ Beta }}{{ alphabet }}{% for m in messages %}{% endfor %}");
    let mut sorted = state.chat_template_variables().unwrap();
    assert_eq!(
        sorted,
        ["Beta", "alpha", "alphabet", "messages", "zeta"]
            .iter()
            .map(|name| name.to_string())
            .collect::<Vec<String>>()
    );
    sorted.sort();
    assert_eq!(sorted, state.chat_template_variables().unwrap());
}

#[test]
fn special_tokens_are_persistent() {
    let mut state = state("{{ bos_token }}{{ eos_token }}");
    assert_eq!(
        shown(&state.special_tokens()),
        r#"{"bos_token":null,"eos_token":null,"unk_token":null,"pad_token":null}"#
    );
    state.set_special_tokens(Some(map(r#"{"bos_token": "B", "eos_token": "E"}"#)));
    assert_eq!(prepared(arguments("[]"), &state).render().unwrap(), "BE");
    let call = ChatCallArguments {
        special_tokens: Some(Ok(json(r#"{"eos_token": "X", "pad_token": "P"}"#))),
        ..arguments("[]")
    };
    let call = prepared(call, &state);
    assert_eq!(
        shown(&call.options.special_tokens),
        r#"{"bos_token":"B","eos_token":"X","pad_token":"P"}"#
    );
    assert_eq!(call.render().unwrap(), "BX");
    state.set_special_tokens(None);
    assert_eq!(prepared(arguments("[]"), &state).render().unwrap(), "");
}

#[test]
fn calls_render_their_template() {
    let state = state(CONTENTS);
    let call = prepared(arguments(r#"[{"content": "a"}, {"content": "b"}]"#), &state);
    assert!(call.renderer.is_some());
    assert_eq!(call.render().unwrap(), "<a><b>");

    let own = ChatCallArguments {
        chat_template: Some("{{ tools[0] }}{{ documents[0] }}{{ x }}{{ add_generation_prompt }}".to_string()),
        add_generation_prompt: true,
        tools: Some(Ok(json("[1]"))),
        documents: Some(Ok(json("[2]"))),
        kwargs: Some(Ok(json(r#"{"x": 3, "padding": true}"#))),
        ..arguments("[]")
    };
    let call = prepared(own, &state);
    assert!(call.renderer.is_none());
    assert_eq!(call.render().unwrap(), "123True");
}

#[test]
fn continued_calls_end_with_the_message() {
    let state = state("{% for m in messages %}[{{ m.role }}]{{ m.content }}[end]{% endfor %}");
    let messages = r#"[{"role": "user", "content": "q"}, {"role": "assistant", "content": "so far"}]"#;
    let call = prepared(continuing(messages, "content"), &state);
    assert!(call.options.continue_final_message);
    assert_eq!(call.continuation, Some("so far".to_string()));
    assert_eq!(call.render().unwrap(), "[user]q[end][assistant]so far");

    let trimming = ChatCallArguments {
        chat_template: Some("{{ messages[-1].content | trim }}!".to_string()),
        ..continuing(r#"[{"content": "so far  "}]"#, "content")
    };
    assert_eq!(prepared(trimming, &state).render().unwrap(), "so far");

    let dropping = ChatCallArguments {
        chat_template: Some("content".to_string()),
        ..continuing(r#"[{"content": "so far"}]"#, "content")
    };
    match prepared(dropping, &state).render() {
        Err(ChatTemplateCallError::Render(message)) => assert!(message.ends_with(
            "Final message to continue: so far\nRendered chat:\ncontent"
        )),
        _ => panic!("not refused"),
    }
}

#[test]
fn strict_calls_refuse_unknown_arguments() {
    let state = state("{{ x }}");
    let with = |kwargs: &str| ChatCallArguments {
        kwargs: Some(Ok(json(kwargs))),
        ..arguments("[]")
    };
    assert_eq!(prepared(with(r#"{"x": 1}"#), &state).render().unwrap(), "1");
    match prepared(with(r#"{"y": 1}"#), &state).render() {
        Err(ChatTemplateCallError::UnknownKwarg(message)) => {
            assert!(message.starts_with("apply_chat_template got an unexpected keyword argument `y`"))
        }
        _ => panic!("accepted"),
    }
    let lax = prepared(with(r#"{"y": 1, "basetenkenizer_strict_template": false}"#), &state);
    assert!(!lax.strict_template);
    assert_eq!(shown(&lax.options.extra_context), r#"{"y":1}"#);
    assert_eq!(lax.render().unwrap(), "");
    expect(
        refusal(with(r#"{"basetenkenizer_strict_template": 1}"#), &state),
        "type",
        "basetenkenizer_strict_template must be a bool, got 1",
    );
}

#[test]
fn the_first_complaint_is_told() {
    let failed = |detail: &str| Some(Err(json_conversion_error(detail)));
    let none = ChatTemplateState::new();
    let all = || ChatCallArguments {
        messages: Err(json_conversion_error("messages")),
        tools: failed("tools"),
        documents: failed("documents"),
        special_tokens: failed("special"),
        kwargs: failed("kwargs"),
        ..arguments("[]")
    };
    let incompatible = |error: CallError, detail: &str| {
        expect(error, "type", &format!("value is not JSON-compatible: {detail}"))
    };
    incompatible(refusal(all(), &none), "messages");
    let batched = ChatCallArguments {
        messages: Ok(PreparedMessages::Value(template_value("[[]]"))),
        ..all()
    };
    expect(
        refusal(batched, &none),
        "not implemented",
        "batched conversations are not supported by basetenkenizer apply_chat_template",
    );
    let messages = || arguments("[]").messages;
    incompatible(refusal(ChatCallArguments { messages: messages(), ..all() }, &none), "tools");
    incompatible(
        refusal(ChatCallArguments { messages: messages(), tools: None, ..all() }, &none),
        "documents",
    );
    let later = || ChatCallArguments {
        messages: messages(),
        tools: None,
        documents: Some(Ok(json("[]"))),
        ..all()
    };
    incompatible(refusal(later(), &none), "special");
    expect(
        refusal(ChatCallArguments { special_tokens: Some(Ok(json("1"))), ..later() }, &none),
        "type",
        "expected a dictionary",
    );
    incompatible(
        refusal(ChatCallArguments { special_tokens: None, ..later() }, &none),
        "kwargs",
    );
    expect(
        refusal(
            ChatCallArguments {
                special_tokens: None,
                kwargs: Some(Ok(json(r#"{"tools": 1}"#))),
                ..later()
            },
            &none,
        ),
        "type",
        "apply_chat_template got multiple values for keyword argument `tools`",
    );
    expect(
        refusal(arguments("[]"), &none),
        "value",
        "chat_template must be provided",
    );
    expect(
        refusal(continuing("[]", "content"), &state(CONTENTS)),
        "value",
        "continue_final_message requires a non-empty message list",
    );
}

#[test]
fn failures_of_rendering_are_passed_on() {
    let cause = minijinja::Error::new(minijinja::ErrorKind::UndefinedError, "broken");
    let error = TemplateError::new(cause);
    assert_eq!(error.message, "undefined value: broken");
    match finish_rendered(Err(error), Some("x".to_string())) {
        Err(ChatTemplateCallError::Render(message)) => {
            assert_eq!(message, "undefined value: broken")
        }
        _ => panic!("not refused"),
    }
    assert_eq!(finish_rendered(Ok("text".to_string()), None).unwrap(), "text");

    let own = |template: &str| ChatCallArguments {
        chat_template: Some(template.to_string()),
        ..arguments("[]")
    };
    let none = ChatTemplateState::new();
    match prepared(own("{% if %}"), &none).render() {
        Err(ChatTemplateCallError::Render(message)) => assert!(message.starts_with("syntax error")),
        _ => panic!("compiled"),
    }
    match prepared(own("{{ raise_exception('no') }}"), &none).render() {
        Err(ChatTemplateCallError::Render(message)) => assert!(message.contains("no")),
        _ => panic!("rendered"),
    }
}

#[test]
fn the_post_processor_of_a_tokenizer() {
    assert_eq!(
        read_tokenizer_json(r#"{"a": 1, "post_processor": {"type": "X", "n": [1, 2]}}"#)
            .unwrap()
            .post_processor,
        Some(r#"{"type":"X","n":[1,2]}"#.to_string())
    );
    assert_eq!(read_tokenizer_json(r#"{"post_processor": null}"#).unwrap().post_processor, None);
    assert_eq!(read_tokenizer_json("{}").unwrap().post_processor, None);
    assert_eq!(read_tokenizer_json("[]").unwrap().post_processor, None);
    assert_eq!(
        into_json_value(&read_tokenizer_json(r#"{"b": 1, "a": []}"#).unwrap().value).to_string(),
        r#"{"b":1,"a":[]}"#,
    );
    assert_eq!(
        read_tokenizer_json("{").unwrap_err(),
        "EOF while parsing an object at line 1 column 1"
    );
    assert_eq!(post_processor_text(&json(r#"{"post_processor": 7}"#)), Some("7".to_string()));
    assert_eq!(
        into_json_value(&parse_post_processor("[1]").unwrap()).to_string(),
        "[1]"
    );
    expect(
        parse_post_processor("").unwrap_err(),
        "value",
        "invalid post-processor JSON: EOF while parsing a value at line 1 column 0",
    );
}

#[test]
fn pairs_are_not_post_processed() {
    expect(
        check_post_process(true, true).unwrap_err(),
        "not implemented",
        "pair post-processing is not supported by basetenkenizer",
    );
    assert!(check_post_process(false, true).unwrap());
    assert!(!check_post_process(false, false).unwrap());
    assert_eq!(special_tokens_to_add(true, &vec![1, 2]), 0);
    assert_eq!(special_tokens_to_add(false, &vec![1, 2]), 2);
}
