//! The chat template and the special tokens that are set.

use std::sync::Arc;

use vstd::prelude::*;

use crate::chat_template::json::{JsonMap, JsonTree};
use crate::chat_template::outside::{lists_names, texts, undeclared_names};
use crate::chat_template::renderer::{
    default_special_tokens, null_tokens, syntax_error, ChatTemplateRenderer, TemplateError,
};
use crate::chat_template::tags::jinja_template;
use crate::text::{is_before, law_text_order, law_text_order_is_transitive, text_before};

verus! {

/// `Arc::clone`: another pointer to the same renderer.
#[verifier::external_body]
fn share(renderer: &Arc<ChatTemplateRenderer>) -> (r: Arc<ChatTemplateRenderer>)
    ensures
        r == *renderer,
{
    Arc::clone(renderer)
}

/// What is wrong with a template that is to be set, if anything is.
pub open spec fn refusal(chat_template: Option<String>) -> Option<minijinja::Error> {
    match chat_template {
        Some(template) => syntax_error(template@),
        None => None,
    }
}

/// The chat template of a tokenizer and its special tokens.
pub struct ChatTemplateState {
    chat_template: Option<String>,
    renderer: Option<Arc<ChatTemplateRenderer>>,
    special_tokens: JsonMap,
}

impl ChatTemplateState {
    #[verifier::type_invariant]
    spec fn well_formed(self) -> bool {
        match self.chat_template {
            Some(template) => self.renderer matches Some(renderer) && renderer.source()
                == jinja_template(template@),
            None => self.renderer is None,
        }
    }

    /// The template, if one is set.
    pub closed spec fn template(self) -> Option<Seq<char>> {
        match self.chat_template {
            Some(template) => Some(template@),
            None => None,
        }
    }

    /// The compiled template, if one is set.
    pub closed spec fn compiled(self) -> Option<Arc<ChatTemplateRenderer>> {
        self.renderer
    }

    /// The special tokens, by name.
    pub closed spec fn tokens(self) -> Seq<(Seq<char>, JsonTree)> {
        self.special_tokens@
    }

    /// The template is set, and the compiled template is that of it.
    pub open spec fn holds(self, chat_template: Option<String>) -> bool {
        match chat_template {
            Some(template) => {
                &&& self.template() == Some(template@)
                &&& self.compiled() matches Some(renderer) && renderer.source() == jinja_template(
                    template@,
                )
            },
            None => self.template() is None && self.compiled() is None,
        }
    }

    /// No template, and no special tokens but those that are null.
    pub fn new() -> (state: Self)
        ensures
            state.template() is None,
            state.compiled() is None,
            state.tokens() == null_tokens(),
    {
        ChatTemplateState {
            chat_template: None,
            renderer: None,
            special_tokens: default_special_tokens(),
        }
    }

    /// Set the default chat template. A template that does not compile is
    /// refused, and the one that was set stays.
    pub fn set_chat_template(&mut self, chat_template: Option<String>) -> (r: Result<
        (),
        TemplateError,
    >)
        ensures
            final(self).tokens() == old(self).tokens(),
            match refusal(chat_template) {
                None => r is Ok && final(self).holds(chat_template),
                Some(error) => {
                    &&& r matches Err(e) && e.tells(error)
                    &&& final(self).template() == old(self).template()
                    &&& final(self).compiled() == old(self).compiled()
                },
            },
    {
        let renderer = match &chat_template {
            Some(template) => match ChatTemplateRenderer::new(template.as_str()) {
                Ok(renderer) => Some(Arc::new(renderer)),
                Err(e) => {
                    return Err(e);
                },
            },
            None => None,
        };
        proof {
            use_type_invariant(&*self);
        }
        let mut special_tokens = JsonMap::new();
        std::mem::swap(&mut special_tokens, &mut self.special_tokens);
        *self = ChatTemplateState { chat_template, renderer, special_tokens };
        Ok(())
    }

    /// Variables the chat template reads from the render context, in order, or
    /// `None` if no chat template is set.
    ///
    /// Derived statically from the template, so dynamic lookups are invisible.
    pub fn chat_template_variables(&self) -> (variables: Option<Vec<String>>)
        ensures
            match variables {
                Some(names) => self.compiled() matches Some(renderer) && ascending_texts(
                    texts(names@),
                ) && lists_names(names@, undeclared_names(renderer.source())),
                None => self.compiled() is None,
            },
    {
        match &self.renderer {
            Some(renderer) => Some(sorted_names(renderer.undeclared_variables())),
            None => None,
        }
    }

    /// The template and the compiled template, if one is set.
    pub fn chat_template(&self) -> (r: Option<(String, Arc<ChatTemplateRenderer>)>)
        ensures
            match r {
                Some((template, renderer)) => {
                    &&& self.template() == Some(template@)
                    &&& self.compiled() == Some(renderer)
                    &&& renderer.source() == jinja_template(template@)
                },
                None => self.template() is None && self.compiled() is None,
            },
    {
        proof {
            use_type_invariant(self);
        }
        match (&self.chat_template, &self.renderer) {
            (Some(template), Some(renderer)) => Some((template.clone(), share(renderer))),
            _ => None,
        }
    }

    /// The special tokens, by name.
    pub fn special_tokens(&self) -> (tokens: JsonMap)
        ensures
            tokens@ == self.tokens(),
    {
        self.special_tokens.clone()
    }

    /// Set the special tokens; without any, the defaults.
    pub fn set_special_tokens(&mut self, special_tokens: Option<JsonMap>)
        ensures
            final(self).template() == old(self).template(),
            final(self).compiled() == old(self).compiled(),
            match special_tokens {
                Some(tokens) => final(self).tokens() == tokens@,
                None => final(self).tokens() == null_tokens(),
            },
    {
        proof {
            use_type_invariant(&*self);
        }
        self.special_tokens = match special_tokens {
            Some(tokens) => tokens,
            None => default_special_tokens(),
        };
    }
}

/// The texts ascend.
pub open spec fn ascending_texts(names: Seq<Seq<char>>) -> bool {
    forall|i: int, j: int|
        #![trigger names[i], names[j]]
        0 <= i < j < names.len() ==> text_before(names[i], names[j])
}

/// The names, in order.
fn sorted_names(names: &Vec<String>) -> (sorted: Vec<String>)
    requires
        texts(names@).no_duplicates(),
    ensures
        ascending_texts(texts(sorted@)),
        texts(sorted@).no_duplicates(),
        texts(sorted@).to_set() == texts(names@).to_set(),
{
    let ghost all = texts(names@);
    let mut sorted: Vec<String> = Vec::new();
    let mut i: usize = 0;
    while i < names.len()
        invariant
            i <= names.len(),
            all == texts(names@),
            all.no_duplicates(),
            ascending_texts(texts(sorted@)),
            texts(sorted@).to_set() == all.take(i as int).to_set(),
        decreases names.len() - i,
    {
        let name = &names[i];
        let ghost before = texts(sorted@);
        proof {
            if before.contains(name@) {
                assert(before.to_set().contains(name@));
                let j = choose|j: int|
                    0 <= j < all.take(i as int).len() && all.take(i as int)[j] == name@;
                assert(all[j] == all[i as int]);
            }
        }
        let mut p: usize = 0;
        while p < sorted.len() && is_before(sorted[p].as_str(), name.as_str())
            invariant
                before == texts(sorted@),
                p <= sorted.len(),
                forall|k: int| 0 <= k < p ==> text_before(#[trigger] before[k], name@),
            decreases sorted.len() - p,
        {
            p += 1;
        }
        proof {
            assert forall|k: int| p <= k < before.len() implies text_before(
                name@,
                #[trigger] before[k],
            ) by {
                law_text_order(before[p as int], name@);
                if k > p {
                    law_text_order_is_transitive(name@, before[p as int], before[k]);
                }
            }
        }
        sorted.insert(p, name.clone());
        proof {
            let after = texts(sorted@);
            assert(after =~= before.insert(p as int, name@));
            lemma_insert_set(before, p as int, name@);
            let taken = all.take(i as int);
            assert(all.take(i + 1) =~= taken.insert(taken.len() as int, name@));
            lemma_insert_set(taken, taken.len() as int, name@);
        }
        i += 1;
    }
    proof {
        assert(all.take(i as int) =~= all);
        let names = texts(sorted@);
        assert forall|x: int, y: int|
            0 <= x < names.len() && 0 <= y < names.len() && x != y implies names[x]
            != names[y] by {
            law_text_order(names[x], names[y]);
        }
    }
    sorted
}

proof fn lemma_insert_set<T>(s: Seq<T>, at: int, value: T)
    requires
        0 <= at <= s.len(),
    ensures
        s.insert(at, value).to_set() == s.to_set().insert(value),
{
    let after = s.insert(at, value);
    assert forall|x: T| after.to_set().contains(x) <==> s.to_set().insert(value).contains(x) by {
        if after.contains(x) {
            let i = choose|i: int| 0 <= i < after.len() && after[i] == x;
            if i != at {
                let j = if i < at {
                    i
                } else {
                    i - 1
                };
            }
        }
        if s.contains(x) {
            let i = choose|i: int| 0 <= i < s.len() && s[i] == x;
            let j = if i < at {
                i
            } else {
                i + 1
            };
            assert(after[j] == x);
        }
        assert(after[at] == value);
    }
}

} // verus!
