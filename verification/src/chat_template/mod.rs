//! Chat templates: rendering HuggingFace-style Jinja templates.

pub mod convert;
pub mod escape;
pub mod formatter;
pub mod json;
pub mod json_text;
pub mod layout_laws;
pub mod outside;
pub mod renderer;
pub mod runtime;
pub mod sort;
pub mod string_laws;
pub mod tag_laws;
pub mod tags;
pub mod tojson_laws;

pub use self::renderer::{
    apply_chat_template, default_special_tokens, ChatTemplateOptions, ChatTemplateRenderer,
};
