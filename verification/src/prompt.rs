//! What to ask the user for each variable that a target needs.

use vstd::prelude::*;
use crate::target::{copy_text, text_of, RequiredVar, RequiredVarView};
use crate::text::{chars_of, rows, split_chars, split_on, string_of, texts};

verus! {

/// One question to the user.
#[derive(Debug, Clone, PartialEq, Eq)]
pub enum Prompt {
    /// Let the user pick a value for the variable `name` among `options`.
    Choose { name: String, options: Vec<String> },
    /// Let the user type a value for the variable `name`, with `hint` shown
    /// where there is one.
    Ask { name: String, hint: Option<String> },
}

/// What a `Prompt` stands for.
pub ghost enum PromptView {
    Choose { name: Seq<char>, options: Seq<Seq<char>> },
    Ask { name: Seq<char>, hint: Option<Seq<char>> },
}

impl View for Prompt {
    type V = PromptView;

    open spec fn view(&self) -> PromptView {
        match self {
            Prompt::Choose { name, options } => PromptView::Choose {
                name: name@,
                options: texts(options@),
            },
            Prompt::Ask { name, hint } => PromptView::Ask { name: name@, hint: text_of(*hint) },
        }
    }
}

/// The question for one variable: a choice where its hint lists more than
/// one value between `|`, else free input.
pub open spec fn prompt_of(var: RequiredVarView) -> PromptView {
    match var.hint {
        Some(hint) if split_on(hint, '|').len() > 1 => PromptView::Choose {
            name: var.name,
            options: split_on(hint, '|'),
        },
        _ => PromptView::Ask { name: var.name, hint: var.hint },
    }
}

/// The values that `hint` lists: it is cut at every `|`.
pub fn hint_options(hint: &str) -> (r: Vec<String>)
    ensures
        texts(r@) == split_on(hint@, '|'),
{
    let chars = chars_of(hint);
    let pieces = split_chars(&chars, '|');
    let mut r: Vec<String> = Vec::new();
    let mut i: usize = 0;
    while i < pieces.len()
        invariant
            i <= pieces.len(),
            texts(r@) == rows(pieces@).take(i as int),
        decreases pieces.len() - i,
    {
        let ghost before = texts(r@);
        r.push(string_of(&pieces[i]));
        assert(texts(r@) == before.push(pieces@[i as int]@));
        i += 1;
    }
    assert(rows(pieces@).take(pieces.len() as int) == rows(pieces@));
    r
}

/// The question for the variable `var`.
pub fn prompt_for(var: &RequiredVar) -> (r: Prompt)
    ensures
        r@ == prompt_of(var@),
{
    match &var.hint {
        Some(hint) => {
            let options = hint_options(hint.as_str());
            if options.len() > 1 {
                return Prompt::Choose { name: var.name.clone(), options };
            }
        },
        None => {},
    }
    Prompt::Ask { name: var.name.clone(), hint: copy_text(&var.hint) }
}

/// The questions for `required_vars`, one for each variable, in their
/// order.
pub fn prompt_for_variables(required_vars: &Vec<RequiredVar>) -> (r: Vec<Prompt>)
    ensures
        r@.len() == required_vars@.len(),
        forall|i: int| 0 <= i < r@.len() ==> (#[trigger] r@[i])@ == prompt_of(required_vars@[i]@),
{
    let mut r: Vec<Prompt> = Vec::new();
    let mut i: usize = 0;
    while i < required_vars.len()
        invariant
            i <= required_vars.len(),
            r@.len() == i,
            forall|q: int| 0 <= q < i ==> (#[trigger] r@[q])@ == prompt_of(required_vars@[q]@),
        decreases required_vars.len() - i,
    {
        r.push(prompt_for(&required_vars[i]));
        i += 1;
    }
    r
}

} // verus!
