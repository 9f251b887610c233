//! Templates rendered by the real engine.

use std::io::Write;

use basetenkenizer::chat_template::convert::{
    from_json_value, into_json_value, json_to_minijinja_value,
};
use basetenkenizer::chat_template::escape::escape_non_ascii;
use basetenkenizer::chat_template::formatter::HfJsonFormatter;
use basetenkenizer::chat_template::json::{Json, JsonMap};
use basetenkenizer::chat_template::runtime::{
    finish_json, json_separators, raise_exception, serialize_json, strftime_value, tojson,
    tojson_value, tojson_with, JsonSource, TojsonOptions,
};
use basetenkenizer::chat_template::sort::sort_json_value;
use basetenkenizer::chat_template::tags::{rewrite_block_tag, strip_known_non_jinja_tags};
use basetenkenizer::chat_template::{
    apply_chat_template, default_special_tokens, ChatTemplateOptions, ChatTemplateRenderer,
};
use serde_json::ser::Formatter;

fn json(text: &str) -> Json {
    from_json_value(serde_json::from_str(text).unwrap())
}

#[test]
fn renders_common_hf_style_template() {
    let template = r#"
{%- for message in messages -%}
{%- if message['role'] == 'user' -%}
{{ bos_token }}user: {{ message['content'] }}{{ eos_token }}
{%- elif message['role'] == 'assistant' -%}
assistant: {{ message.get('content') }}
{%- endif -%}
{%- endfor -%}
{%- if add_generation_prompt -%}assistant:{%- endif -%}
"#;
    let messages = json(
        r#"[{"role": "user", "content": "hello"}, {"role": "assistant", "content": "hi"}]"#,
    );
    let mut special_tokens = JsonMap::new();
    special_tokens.insert("bos_token".to_string(), json(r#""[BOS]""#));
    special_tokens.insert("eos_token".to_string(), json(r#""[EOS]""#));
    let options = ChatTemplateOptions {
        add_generation_prompt: true,
        special_tokens,
        ..Default::default()
    };

    let rendered = apply_chat_template(template, messages, options).unwrap();

    assert_eq!(rendered, "[BOS]user: hello[EOS]assistant: hiassistant:");
}

#[test]
fn omits_null_special_tokens_from_context() {
    let mut special_tokens = default_special_tokens();
    special_tokens.insert("custom_token".to_string(), Json::Null);

    let rendered = apply_chat_template(
        "{% if pad_token is defined %}defined{% else %}undefined{% endif %}{{ pad_token }}",
        json("[]"),
        ChatTemplateOptions {
            special_tokens,
            ..Default::default()
        },
    )
    .unwrap();

    assert_eq!(rendered, "undefined");
}

#[test]
fn supports_tools_documents_tojson_and_kwargs() {
    let template = r#"{{ tools[0].name }} {{ documents[0].title }} {{ custom | tojson }}"#;
    let mut extra = JsonMap::new();
    extra.insert("custom".to_string(), json(r#"{"x": 1}"#));
    let options = ChatTemplateOptions {
        tools: Some(json(r#"[{"name": "search"}]"#)),
        documents: Some(json(r#"[{"title": "doc"}]"#)),
        extra_context: extra,
        ..Default::default()
    };

    let rendered = apply_chat_template(template, json("[]"), options).unwrap();

    assert_eq!(rendered, r#"search doc {"x": 1}"#);
}

#[test]
fn supports_python_compat_methods() {
    let template = r#"{{ message.get('missing', 'fallback') }} {{ 'abc'.upper() }} {{ [1, 1, 2].count(1) }}"#;
    let mut extra = JsonMap::new();
    extra.insert("message".to_string(), json(r#"{"content": "hello"}"#));

    let rendered = apply_chat_template(
        template,
        json("[]"),
        ChatTemplateOptions {
            extra_context: extra,
            ..Default::default()
        },
    )
    .unwrap();

    assert_eq!(rendered, "fallback ABC 2");
}

#[test]
fn tojson_matches_transformers_defaults() {
    let template = r#"{{ value | tojson }}"#;
    let mut extra = JsonMap::new();
    extra.insert("value".to_string(), json(r#"{"text": "<tag>&'"}"#));

    let rendered = apply_chat_template(
        template,
        json("[]"),
        ChatTemplateOptions {
            extra_context: extra,
            ..Default::default()
        },
    )
    .unwrap();

    assert_eq!(rendered, r#"{"text": "<tag>&'"}"#);
}

#[test]
fn tojson_supports_compact_separators_and_ascii_escape() {
    let template = r#"{{ value | tojson(separators=(',', ':'), ensure_ascii=True) }}"#;
    let mut extra = JsonMap::new();
    extra.insert("value".to_string(), json(r#"{"text": "é"}"#));

    let rendered = apply_chat_template(
        template,
        json("[]"),
        ChatTemplateOptions {
            extra_context: extra,
            ..Default::default()
        },
    )
    .unwrap();

    assert_eq!(rendered, r#"{"text":"\u00e9"}"#);
}

#[test]
fn strips_generation_markers() {
    let rendered = apply_chat_template(
        "a{% generation %}b{% endgeneration %}c",
        json("[]"),
        ChatTemplateOptions::default(),
    )
    .unwrap();

    assert_eq!(rendered, "abc");
}

#[test]
fn rewrites_generation_markers_with_whitespace_control() {
    let rendered = apply_chat_template(
        "a\n{%- generation -%}\nb\n{%- endgeneration -%}\nc",
        json("[]"),
        ChatTemplateOptions::default(),
    )
    .unwrap();

    assert_eq!(rendered, "abc");
}

#[test]
fn tojson_indent_matches_json_dumps() {
    let mut extra = JsonMap::new();
    extra.insert("value".to_string(), json(r#"{"b": [1, 2], "a": {}, "c": "x"}"#));

    let rendered = apply_chat_template(
        "{{ value | tojson(indent=2) }}",
        json("[]"),
        ChatTemplateOptions {
            extra_context: extra,
            ..Default::default()
        },
    )
    .unwrap();

    // json.dumps(value, indent=2)
    assert_eq!(
        rendered,
        "{\n  \"b\": [\n    1,\n    2\n  ],\n  \"a\": {},\n  \"c\": \"x\"\n}"
    );
}

#[test]
fn tojson_indent_honors_separators() {
    let mut extra = JsonMap::new();
    extra.insert("value".to_string(), json(r#"{"b": [1, 2], "a": {}, "c": "x"}"#));

    let rendered = apply_chat_template(
        "{{ value | tojson(indent=2, separators=(',', ':')) }}",
        json("[]"),
        ChatTemplateOptions {
            extra_context: extra,
            ..Default::default()
        },
    )
    .unwrap();

    // json.dumps(value, indent=2, separators=(",", ":"))
    assert_eq!(
        rendered,
        "{\n  \"b\":[\n    1,\n    2\n  ],\n  \"a\":{},\n  \"c\":\"x\"\n}"
    );
}

#[test]
fn tojson_indent_keeps_separator_whitespace_like_json_dumps() {
    let mut extra = JsonMap::new();
    extra.insert("value".to_string(), json(r#"{"b": [1, 2], "a": {}, "c": "x"}"#));

    let rendered = apply_chat_template(
        "{{ value | tojson(indent=2, separators=(', ', ': '), sort_keys=True) }}",
        json("[]"),
        ChatTemplateOptions {
            extra_context: extra,
            ..Default::default()
        },
    )
    .unwrap();

    // json.dumps keeps the item separator verbatim before the newline,
    // trailing space included.
    assert_eq!(
        rendered,
        "{\n  \"a\": {}, \n  \"b\": [\n    1, \n    2\n  ], \n  \"c\": \"x\"\n}"
    );
}

#[test]
fn exposes_undeclared_template_variables() {
    let renderer = ChatTemplateRenderer::new(
        "{% for m in messages %}{{ m.content }}{% endfor %}{% if enable_thinking %}t{% endif %}",
    )
    .unwrap();

    let variables = renderer.undeclared_variables();

    assert!(variables.contains(&"messages".to_string()));
    assert!(variables.contains(&"enable_thinking".to_string()));
    assert!(!variables.contains(&"m".to_string()));
}

/// `loop.previtem` / `loop.nextitem` require minijinja's
/// `adjacent_loop_items` feature, which `default-features = false` drops.
/// Chat templates use them to group adjacent same-role messages (notably
/// consecutive tool responses under one header), so without the feature
/// `loop.nextitem.role` raises "undefined value" and a `loop.previtem`
/// guard silently takes the wrong branch instead.
#[test]
fn adjacent_loop_items_are_available() {
    let template = [
        "{%- for message in messages -%}",
        "{%- if not loop.previtem or loop.previtem.role != message.role -%}",
        "[open {{ message.role }}]",
        "{%- endif -%}",
        "{{ message.content }}",
        "{%- if loop.last or loop.nextitem.role != message.role -%}",
        "[close]",
        "{%- endif -%}",
        "{%- endfor -%}",
    ]
    .concat();
    let messages = json(
        r#"[
            {"role": "user", "content": "q"},
            {"role": "tool", "content": "a"},
            {"role": "tool", "content": "b"},
            {"role": "user", "content": "z"}
        ]"#,
    );

    let rendered =
        apply_chat_template(&template, messages, ChatTemplateOptions::default()).unwrap();

    // The two adjacent tool messages share one [open tool]...[close] group.
    assert_eq!(
        rendered,
        "[open user]q[close][open tool]ab[close][open user]z[close]"
    );
}

/// Jinja2 ships `urlencode` as a builtin, so without minijinja's
/// `urlencode` feature a template using it fails here with "unknown filter"
/// while rendering fine under Transformers. For strings — the case a chat
/// template plausibly hits — minijinja matches Jinja2's
/// `quote(s, safe="/")` byte for byte, including UTF-8 percent-encoding.
#[test]
fn urlencode_filter_matches_jinja2_for_strings() {
    for (input, expected) in [
        ("a b/c?d", "a%20b/c%3Fd"),
        ("hello world&x=1", "hello%20world%26x%3D1"),
        ("path/to/file.txt", "path/to/file.txt"),
        ("héllo 中文", "h%C3%A9llo%20%E4%B8%AD%E6%96%87"),
        ("a+b=c%d", "a%2Bb%3Dc%25d"),
    ] {
        let mut extra = JsonMap::new();
        extra.insert("value".to_string(), Json::String(input.to_string()));

        let rendered = apply_chat_template(
            "{{ value | urlencode }}",
            json("[]"),
            ChatTemplateOptions {
                extra_context: extra,
                ..Default::default()
            },
        )
        .unwrap();

        assert_eq!(rendered, expected, "urlencode({input:?})");
    }
}

/// Known divergence, pinned deliberately: for a **mapping** minijinja
/// percent-encodes spaces as `%20`, while Jinja2 builds query strings with
/// `quote_plus` (`+`). Chat templates do not build query strings, so this is
/// accepted rather than worked around — pinned here so the difference stays
/// a documented fact rather than a future surprise.
#[test]
fn urlencode_filter_diverges_from_jinja2_for_mappings() {
    let mut extra = JsonMap::new();
    extra.insert("value".to_string(), json(r#"{"q": "a b", "n": 1}"#));

    let rendered = apply_chat_template(
        "{{ value | urlencode }}",
        json("[]"),
        ChatTemplateOptions {
            extra_context: extra,
            ..Default::default()
        },
    )
    .unwrap();

    // Jinja2 would render `q=a+b&n=1`.
    assert_eq!(rendered, "q=a%20b&n=1");
}

#[test]
fn raise_exception_returns_error() {
    let err = apply_chat_template(
        "{{ raise_exception('bad role') }}",
        json("[]"),
        ChatTemplateOptions::default(),
    )
    .unwrap_err();

    assert!(err.message.contains("bad role"));
}

#[test]
fn strftime_now_invalid_format_returns_error() {
    let err = apply_chat_template(
        "{{ strftime_now('%Q %#z') }}",
        json("[]"),
        ChatTemplateOptions::default(),
    )
    .unwrap_err();

    assert!(err.message.contains("invalid strftime_now format"));
}

fn render_with(template: &str, name: &str, value: Json) -> Result<String, String> {
    let mut extra = JsonMap::new();
    extra.insert(name.to_string(), value);
    apply_chat_template(
        template,
        json("[]"),
        ChatTemplateOptions {
            extra_context: extra,
            ..Default::default()
        },
    )
    .map_err(|e| e.message)
}

#[test]
fn json_values_survive_the_round_trip() {
    let text = r#"{"b":[1,-2,1.5,18446744073709551615,null,true,"é\n"],"a":{"z":{},"y":[]}}"#;
    let value: serde_json::Value = serde_json::from_str(text).unwrap();
    let back = into_json_value(&from_json_value(value.clone()));
    assert_eq!(back, value);
    assert_eq!(back.to_string(), text);
}

#[test]
fn numbers_keep_their_kind() {
    let values = json("[1, -2, 18446744073709551615, 1.5, 2.25]");
    assert_eq!(
        render_with("{% for v in values %}{{ v }};{% endfor %}", "values", values).unwrap(),
        "1;-2;18446744073709551615;1.5;2.25;"
    );
    let kinds = json("[1, 1.0, true, null, \"x\", [], {}]");
    assert_eq!(
        render_with(
            "{% for v in values %}{{ v is integer }},{{ v is float }},{{ v is none }},{{ v is string }},{{ v is mapping }};{% endfor %}",
            "values",
            kinds
        )
        .unwrap(),
        "True,False,False,False,False;False,True,False,False,False;False,False,False,False,False;\
         False,False,True,False,False;False,False,False,True,False;False,False,False,False,False;\
         False,False,False,False,True;"
    );
}

#[test]
fn later_context_entries_win() {
    let mut special_tokens = JsonMap::new();
    special_tokens.insert("bos_token".to_string(), json("\"special\""));
    special_tokens.insert("tools".to_string(), json("\"from tokens\""));
    let mut extra = JsonMap::new();
    extra.insert("bos_token".to_string(), json("\"extra\""));
    let rendered = apply_chat_template(
        "{{ bos_token }} {{ tools }} {{ documents }} {{ continue_final_message }} {{ add_generation_prompt }}",
        json("[]"),
        ChatTemplateOptions {
            continue_final_message: true,
            special_tokens,
            extra_context: extra,
            ..Default::default()
        },
    )
    .unwrap();
    assert_eq!(rendered, "extra from tokens None True False");
}

#[test]
fn null_extra_context_is_defined() {
    assert_eq!(
        render_with("{{ value is defined }} {{ value is none }}", "value", Json::Null).unwrap(),
        "True True"
    );
}

#[test]
fn blocks_leave_no_whitespace() {
    assert_eq!(
        render_with("a\n  {% if value %}\nb\n  {% endif %}\nc", "value", Json::Bool(true)).unwrap(),
        "a\nb\nc"
    );
}

#[test]
fn syntax_errors_are_reported() {
    let error = apply_chat_template(
        "{% if %}",
        json("[]"),
        ChatTemplateOptions::default(),
    )
    .unwrap_err();
    assert!(error.message.starts_with("syntax error"), "{}", error.message);
    assert!(ChatTemplateRenderer::new("{{ 1 + }}").is_err());
    assert!(ChatTemplateRenderer::new("{{ 1 }}").is_ok());
}

#[test]
fn renderer_is_reusable() {
    let renderer = ChatTemplateRenderer::new("{{ messages[0].content }}{{ x }}").unwrap();
    for text in ["a", "b"] {
        let messages = Json::Array(vec![{
            let mut message = JsonMap::new();
            message.insert("content".to_string(), Json::String(text.to_string()));
            Json::Object(message)
        }]);
        assert_eq!(
            renderer.render(messages, ChatTemplateOptions::default()).unwrap(),
            text
        );
    }
    let value = minijinja::Value::from_serialize(serde_json::from_str::<serde_json::Value>(
        r#"[{"content": "direct"}]"#,
    ).unwrap());
    assert_eq!(
        renderer.render_value(value, ChatTemplateOptions::default()).unwrap(),
        "direct"
    );
    let context: minijinja::Value = [("x".to_string(), minijinja::Value::from("alone"))]
        .into_iter()
        .collect();
    let other = ChatTemplateRenderer::new("{{ x }}").unwrap();
    assert_eq!(other.render_context(context).unwrap(), "alone");
}

#[test]
fn default_special_tokens_are_null() {
    let tokens = default_special_tokens();
    assert_eq!(tokens.len(), 4);
    for (i, key) in ["bos_token", "eos_token", "unk_token", "pad_token"].iter().enumerate() {
        assert_eq!(tokens.entry(i).0, key);
        assert!(matches!(tokens.entry(i).1, Json::Null));
    }
}

#[test]
fn tojson_sorts_keys_at_every_level() {
    let value = json(r#"{"b": {"y": 1, "x": [{"d": 1, "c": 2}]}, "a": 2, "é": 0, "Z": 3}"#);
    assert_eq!(
        render_with("{{ v | tojson(sort_keys=True) }}", "v", value).unwrap(),
        r#"{"Z": 3, "a": 2, "b": {"x": [{"c": 2, "d": 1}], "y": 1}, "é": 0}"#
    );
}

#[test]
fn tojson_escapes_beyond_the_basic_plane() {
    let value = Json::String("a\u{1F600}é\u{ffff}".to_string());
    assert_eq!(
        render_with("{{ v | tojson(ensure_ascii=True) }}", "v", value).unwrap(),
        r#""a\ud83d\ude00\u00e9\uffff""#
    );
}

#[test]
fn tojson_indents_empty_containers_and_zero_width() {
    let value = json(r#"{"a": [], "b": {}, "c": [[]]}"#);
    assert_eq!(
        render_with("{{ v | tojson(indent=0) }}", "v", value).unwrap(),
        "{\n\"a\": [],\n\"b\": {},\n\"c\": [\n[]\n]\n}"
    );
}

#[test]
fn tojson_refuses_bad_arguments() {
    let error = render_with("{{ v | tojson(separators=[',']) }}", "v", Json::Null).unwrap_err();
    assert!(
        error.contains("tojson separators must contain exactly two strings"),
        "{error}"
    );
    let error = render_with("{{ v | tojson(nope=1) }}", "v", Json::Null).unwrap_err();
    assert!(
        error.starts_with("too many arguments: unknown keyword argument 'nope'"),
        "{error}"
    );
    assert!(render_with("{{ v | tojson(indent='x') }}", "v", Json::Null).is_err());
}

#[test]
fn tojson_output_is_safe() {
    assert_eq!(
        render_with("{{ v | tojson | e }}", "v", Json::String("<b>".to_string())).unwrap(),
        "\"<b>\""
    );
}

#[test]
fn strftime_now_formats_the_clock() {
    let year = render_with("{{ strftime_now('%Y') }}", "v", Json::Null).unwrap();
    assert_eq!(year.len(), 4);
    assert!(year.chars().all(|c| c.is_ascii_digit()));
    assert_eq!(
        render_with("{{ strftime_now('plain text') }}", "v", Json::Null).unwrap(),
        "plain text"
    );
}

#[test]
fn raised_errors_say_what_they_are() {
    assert_eq!(
        raise_exception("why".to_string()).unwrap_err().to_string(),
        "invalid operation: why"
    );
    assert_eq!(
        strftime_value(Err(std::fmt::Error)).unwrap_err().to_string(),
        "invalid operation: invalid strftime_now format"
    );
    assert_eq!(strftime_value(Ok("x".to_string())).unwrap().to_string(), "x");
    assert_eq!(
        json_separators(Some(vec![]), false).unwrap_err().to_string(),
        "invalid operation: tojson separators must contain exactly two strings"
    );
}

#[test]
fn separators_default_like_json_dumps() {
    assert_eq!(json_separators(None, false).unwrap(), (b", ".to_vec(), b": ".to_vec()));
    assert_eq!(json_separators(None, true).unwrap(), (b",".to_vec(), b": ".to_vec()));
    let own = Some(vec!["é".to_string(), "=".to_string()]);
    assert_eq!(json_separators(own, true).unwrap(), ("é".as_bytes().to_vec(), b"=".to_vec()));
}

#[test]
fn serialize_json_of_both_sources() {
    let value: serde_json::Value = serde_json::from_str(r#"{"b":[1,2],"a":"x"}"#).unwrap();
    assert_eq!(
        serialize_json(JsonSource::Tree(&value), None, None).unwrap(),
        r#"{"b": [1, 2], "a": "x"}"#
    );
    let list = minijinja::Value::from(vec![1, 2]);
    assert_eq!(
        serialize_json(JsonSource::Value(&list), Some(1), None).unwrap(),
        "[\n 1,\n 2\n]"
    );
}

#[test]
fn tojson_with_options() {
    let value = minijinja::Value::from_serialize(
        serde_json::from_str::<serde_json::Value>(r#"{"b":"é","a":1}"#).unwrap(),
    );
    let options = TojsonOptions {
        ensure_ascii: true,
        indent: Some(2),
        separators: Some(vec![",".to_string(), ":".to_string()]),
        sort_keys: true,
    };
    assert_eq!(
        tojson_with(&value, options).unwrap().to_string(),
        "{\n  \"a\":1,\n  \"b\":\"\\u00e9\"\n}"
    );
}

#[test]
fn tojson_reads_its_arguments() {
    let value = minijinja::Value::from(vec![1, 2]);
    let call = |kwargs: Vec<(&'static str, minijinja::Value)>| {
        tojson(value.clone(), kwargs.into_iter().collect())
            .map(|text| text.to_string())
            .map_err(|error| error.to_string())
    };
    assert_eq!(call(vec![]).unwrap(), "[1, 2]");
    assert_eq!(
        call(vec![
            ("indent", minijinja::Value::from(0)),
            ("sort_keys", minijinja::Value::from(())),
            ("ensure_ascii", minijinja::Value::from(true)),
        ])
        .unwrap(),
        "[\n1,\n2\n]"
    );
    assert_eq!(
        call(vec![("separators", minijinja::Value::from(vec!["é", ""]))]).unwrap(),
        "[1é2]"
    );
    assert!(call(vec![("sort_keys", minijinja::Value::from("x"))]).is_err());
    assert_eq!(
        call(vec![
            ("indent", minijinja::Value::from(1)),
            ("width", minijinja::Value::from(1)),
        ])
        .unwrap_err(),
        "too many arguments: unknown keyword argument 'width'"
    );
}

#[test]
fn json_text_has_to_be_utf8() {
    assert_eq!(finish_json(Ok(vec![0x22, 0xc3, 0xa9, 0x22])).unwrap(), "\"é\"");
    assert_eq!(
        finish_json(Ok(vec![0xff])).unwrap_err().to_string(),
        "could not serialize to value: cannot serialize to JSON"
    );
    let failed = serde_json::from_str::<serde_json::Value>("{").unwrap_err();
    assert_eq!(
        finish_json(Err(failed)).unwrap_err().to_string(),
        "could not serialize to value: cannot serialize to JSON"
    );
    assert_eq!(
        tojson_value(Ok("é".to_string()), true).unwrap().to_string(),
        "\\u00e9"
    );
}

#[test]
fn sorting_twice_changes_nothing() {
    let mut once = json(r#"[{"b": 1, "a": {"d": 0, "c": 0}}, 3]"#);
    sort_json_value(&mut once);
    assert_eq!(
        into_json_value(&once).to_string(),
        r#"[{"a":{"c":0,"d":0},"b":1},3]"#
    );
    let before = into_json_value(&once);
    sort_json_value(&mut once);
    assert_eq!(into_json_value(&once).to_string(), before.to_string());
}

#[test]
fn escaping_leaves_ascii_alone() {
    assert_eq!(escape_non_ascii("plain \\ \u{7f}"), "plain \\ \u{7f}");
    assert_eq!(escape_non_ascii("\u{80}\u{10ffff}"), "\\u0080\\udbff\\udfff");
    assert!(escape_non_ascii("中文").is_ascii());
}

#[test]
fn tags_are_rewritten_once() {
    for (template, expected) in [
        ("{% generation %}", "{% if true %}"),
        ("{%- generation -%}", "{%- if true -%}"),
        ("{%endgeneration%}", "{% endif %}"),
        ("{%-endgeneration %}", "{%- endif %}"),
        ("{% generation() %}", "{% generation() %}"),
        ("{%}", "{%}"),
        ("{% generation", "{% generation"),
        ("{{% generation %}}", "{{% if true %}}"),
        ("%}{%\tgeneration\n%}", "%}{% if true %}"),
        ("{% -- generation -%}", "{% -- generation -%}"),
        ("no tags", "no tags"),
        ("", ""),
    ] {
        let once = strip_known_non_jinja_tags(template);
        assert_eq!(once, expected);
        assert_eq!(strip_known_non_jinja_tags(&once), once);
    }
    assert_eq!(rewrite_block_tag("{%- x %}", "y"), "{%- y %}");
    assert_eq!(rewrite_block_tag("x--", "y"), "{% y %}");
}

#[test]
fn objects_keep_their_order() {
    let mut map = JsonMap::new();
    for (i, key) in ["a", "b", "c", "d"].iter().enumerate() {
        map.insert(key.to_string(), Json::Number(serde_json::Number::from(i)));
    }
    map.insert("b".to_string(), Json::Bool(true));
    assert_eq!(map.len(), 4);
    assert!(map.contains_key("b") && !map.contains_key("e"));
    assert!(matches!(map.get("b"), Some(Json::Bool(true))));
    assert!(map.remove("a").is_some());
    assert!(map.remove("a").is_none());
    let keys: Vec<String> = map.clone().into_entries().into_iter().map(|e| e.0).collect();
    let mut reference: serde_json::Map<String, serde_json::Value> =
        serde_json::from_str(r#"{"a":0,"b":1,"c":2,"d":3}"#).unwrap();
    reference.insert("b".to_string(), serde_json::Value::Bool(true));
    reference.remove("a");
    let expected: Vec<String> = reference.keys().cloned().collect();
    assert_eq!(keys, expected);

    let mut more = JsonMap::new();
    more.insert("x".to_string(), Json::Null);
    more.insert("c".to_string(), Json::Null);
    map.extend(more);
    assert_eq!(map.len(), 4);
    assert!(matches!(map.get("c"), Some(Json::Null)));
}

struct FullWriter;

impl Write for FullWriter {
    fn write(&mut self, _buf: &[u8]) -> std::io::Result<usize> {
        Err(std::io::Error::from(std::io::ErrorKind::StorageFull))
    }

    fn write_all(&mut self, _buf: &[u8]) -> std::io::Result<()> {
        Err(std::io::Error::from(std::io::ErrorKind::StorageFull))
    }

    fn flush(&mut self) -> std::io::Result<()> {
        Ok(())
    }
}

fn formatter(indent: Option<&str>) -> HfJsonFormatter {
    let level = indent.map(|level| level.as_bytes().to_vec());
    let mut formatter = HfJsonFormatter::new(b", ".to_vec(), b": ".to_vec(), level);
    formatter.current_indent = 1;
    formatter
}

#[test]
fn formatter_writes_what_stands_before_items_and_values() {
    let mut out: Vec<u8> = Vec::new();
    let mut compact = formatter(None);
    compact.begin_array_value(&mut out, true).unwrap();
    compact.begin_object_key(&mut out, true).unwrap();
    assert_eq!(out, b"");
    compact.begin_array_value(&mut out, false).unwrap();
    compact.begin_object_value(&mut out).unwrap();
    compact.begin_object_key(&mut out, false).unwrap();
    assert_eq!(out, b", : , ");

    let mut lines: Vec<u8> = Vec::new();
    let mut spread = formatter(Some("  "));
    spread.begin_array_value(&mut lines, true).unwrap();
    spread.begin_object_key(&mut lines, false).unwrap();
    assert_eq!(lines, b"\n  , \n  ");
}

#[test]
fn formatter_gives_the_reply_of_the_writer() {
    let mut compact = formatter(None);
    assert!(compact.begin_array_value(&mut FullWriter, true).is_ok());
    assert!(compact.begin_object_key(&mut FullWriter, true).is_ok());
    assert!(compact.end_array_value(&mut FullWriter).is_ok());
    assert!(compact.end_object_value(&mut FullWriter).is_ok());
    let replies = [
        compact.begin_array_value(&mut FullWriter, false),
        compact.begin_object_key(&mut FullWriter, false),
        compact.begin_object_value(&mut FullWriter),
        compact.begin_array(&mut FullWriter),
        compact.end_object(&mut FullWriter),
        formatter(Some("")).begin_array_value(&mut FullWriter, true),
    ];
    for reply in replies {
        assert_eq!(reply.unwrap_err().kind(), std::io::ErrorKind::StorageFull);
    }
}

#[test]
fn json_text_reads_back() {
    let text = r#"{"b": [1, -2, 18446744073709551615, []], "a\"\u0001": {"x": null, "y": true}, "é\\": "\n\u001f/中"}"#;
    let value: serde_json::Value = serde_json::from_str(text).unwrap();
    let own = |item: &str, key: &str| Some(vec![item.to_string(), key.to_string()]);
    for indent in [None, Some(0), Some(3)] {
        for separators in [None, own(",", ":"), own(" ,\t", "\n: "), own("  ,", ":\r")] {
            let written = serialize_json(JsonSource::Tree(&value), indent, separators).unwrap();
            let read: serde_json::Value = serde_json::from_str(&written).unwrap();
            assert_eq!(read, value, "{written}");
            assert_eq!(read.to_string(), value.to_string());
        }
    }
    let odd = serialize_json(JsonSource::Tree(&value), None, own(";", ":")).unwrap();
    assert!(serde_json::from_str::<serde_json::Value>(&odd).is_err());
}

#[test]
fn strings_are_escaped_as_json_wants() {
    let all: String = ('\0'..='\u{20}').chain("\"\\/\u{7f}é中😀".chars()).collect();
    let value = serde_json::Value::String(all);
    assert_eq!(
        serialize_json(JsonSource::Tree(&value), None, None).unwrap(),
        [
            r#""\u0000\u0001\u0002\u0003\u0004\u0005\u0006\u0007\b\t\n\u000b\f\r\u000e\u000f"#,
            r#"\u0010\u0011\u0012\u0013\u0014\u0015\u0016\u0017\u0018\u0019\u001a\u001b"#,
            r#"\u001c\u001d\u001e\u001f \"\\/"#,
            "\u{7f}é中😀\"",
        ]
        .concat()
    );
}

#[test]
fn numbers_are_written_in_decimal() {
    for text in ["0", "7", "10", "-1", "-9223372036854775808", "9223372036854775807"] {
        let value: serde_json::Value = serde_json::from_str(text).unwrap();
        assert_eq!(serialize_json(JsonSource::Tree(&value), None, None).unwrap(), text);
    }
    for text in ["9223372036854775808", "18446744073709551615", "1.5", "-0.0", "1e+300"] {
        let value: serde_json::Value = serde_json::from_str(text).unwrap();
        assert_eq!(serialize_json(JsonSource::Tree(&value), Some(2), None).unwrap(), text);
    }
}

fn nested(levels: usize) -> String {
    let mut text = "[".repeat(levels);
    text.push_str(&"]".repeat(levels));
    text
}

#[test]
fn deep_json_is_not_read() {
    assert!(serde_json::from_str::<serde_json::Value>(&nested(127)).is_ok());
    assert!(serde_json::from_str::<serde_json::Value>(&nested(128)).is_err());
    let mut value = serde_json::Value::Null;
    for _ in 0..128 {
        value = serde_json::Value::Array(vec![value]);
    }
    let written = serialize_json(JsonSource::Tree(&value), None, None).unwrap();
    assert_eq!(written.len(), 2 * 128 + 4);
    assert!(serde_json::from_str::<serde_json::Value>(&written).is_err());
}

struct CallWriter {
    calls: Vec<Vec<u8>>,
    left: usize,
}

impl Write for CallWriter {
    fn write(&mut self, buf: &[u8]) -> std::io::Result<usize> {
        if self.left == 0 {
            return Err(std::io::Error::from(std::io::ErrorKind::StorageFull));
        }
        self.left -= 1;
        self.calls.push(buf.to_vec());
        Ok(buf.len())
    }

    fn flush(&mut self) -> std::io::Result<()> {
        Ok(())
    }
}

#[test]
fn formatter_writes_piece_by_piece() {
    let mut writer = CallWriter { calls: vec![], left: 100 };
    let mut spread = formatter(Some("  "));
    spread.current_indent = 2;
    spread.has_value = true;
    spread.begin_array_value(&mut writer, false).unwrap();
    spread.end_array(&mut writer).unwrap();
    let pieces: [&[u8]; 7] = [b", ", b"\n", b"  ", b"  ", b"\n", b"  ", b"]"];
    assert_eq!(writer.calls, pieces);
    assert_eq!(spread.current_indent, 1);

    for left in 0..3 {
        let mut writer = CallWriter { calls: vec![], left };
        let mut spread = formatter(Some("  "));
        spread.current_indent = 2;
        spread.has_value = true;
        let reply = spread.end_object(&mut writer);
        assert_eq!(reply.unwrap_err().kind(), std::io::ErrorKind::StorageFull);
        assert_eq!(writer.calls, pieces[4..4 + left]);
        assert_eq!(spread.current_indent, 1);
    }
}

#[test]
fn tojson_of_json_is_its_text() {
    let text = r#"{"b": [1, -2, 1.5, []], "a": {"x": null, "y": true, "é": "\n\""}}"#;
    let value: serde_json::Value = serde_json::from_str(text).unwrap();
    for sort_keys in [false, true] {
        for indent in [None, Some(2)] {
            let options = TojsonOptions {
                ensure_ascii: false,
                indent,
                separators: None,
                sort_keys,
            };
            let mut tree = json(text);
            let given = json_to_minijinja_value(&tree);
            if sort_keys {
                sort_json_value(&mut tree);
            }
            let expected =
                serialize_json(JsonSource::Tree(&into_json_value(&tree)), indent, None).unwrap();
            assert_eq!(tojson_with(&given, options).unwrap().to_string(), expected);
        }
    }
    assert_eq!(
        serialize_json(JsonSource::Tree(&value), None, None).unwrap(),
        text
    );
}

#[test]
fn errors_keep_what_the_engine_tells() {
    let error = match ChatTemplateRenderer::new("a\nb\n{% if %}") {
        Ok(_) => panic!("compiled"),
        Err(error) => error,
    };
    assert_eq!(error.cause.kind(), minijinja::ErrorKind::SyntaxError);
    assert_eq!(error.cause.line(), Some(3));
    assert_eq!(error.cause.to_string(), error.message);
    let options = ChatTemplateOptions::default();
    let error = apply_chat_template("{{ strftime_now('%!') }}", Json::Null, options).unwrap_err();
    assert_eq!(error.cause.kind(), minijinja::ErrorKind::InvalidOperation);
    assert!(std::error::Error::source(&error.cause).is_some());
}

struct Probe(minijinja::Value);

impl serde::Serialize for Probe {
    fn serialize<S: serde::Serializer>(&self, serializer: S) -> Result<S::Ok, S::Error> {
        let text = serialize_json(JsonSource::Value(&self.0), None, None).unwrap();
        serializer.serialize_str(&text)
    }
}

#[test]
fn handles_are_written_inside_conversions() {
    let value = json_to_minijinja_value(&json("true"));
    assert_eq!(serialize_json(JsonSource::Value(&value), None, None).unwrap(), "true");
    let inside = minijinja::Value::from_serialize(Probe(value)).to_string();
    let number = inside.strip_prefix('[').and_then(|rest| rest.strip_suffix(']')).unwrap();
    assert!(number.parse::<u32>().is_ok(), "{inside}");
}

#[test]
fn errors_keep_their_source() {
    let source = |error: &minijinja::Error| std::error::Error::source(error).map(|e| e.to_string());
    let broken = serde_json::from_str::<serde_json::Value>("{").unwrap_err();
    let text = broken.to_string();
    assert_eq!(source(&finish_json(Err(broken)).unwrap_err()), Some(text));
    let bytes = String::from_utf8(vec![0xFF]).unwrap_err();
    assert_eq!(source(&finish_json(Ok(vec![0xFF])).unwrap_err()), Some(bytes.to_string()));
    assert_eq!(
        source(&strftime_value(Err(std::fmt::Error)).unwrap_err()),
        Some(std::fmt::Error.to_string())
    );
    assert_eq!(source(&raise_exception("why".to_string()).unwrap_err()), None);
    assert_eq!(source(&json_separators(Some(vec![]), true).unwrap_err()), None);
}
