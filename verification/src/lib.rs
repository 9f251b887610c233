//! Tokenizer front end: splitting text into pre-tokens by known patterns,
//! rendering chat templates, and shaping encodings.

pub mod chat_call;
pub mod chat_template;
pub mod encoding;
pub mod encoding_laws;
pub mod post_processor;
pub mod pre_tokenizers;
pub mod text;
