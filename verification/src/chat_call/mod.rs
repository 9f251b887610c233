//! A call of `apply_chat_template`: checking its arguments, rendering the
//! template, and cutting the result where a message is to be continued.

pub mod argument_laws;
pub mod arguments;
pub mod call;
pub mod continuation;
pub mod laws;
pub mod state;
pub mod suggest;
