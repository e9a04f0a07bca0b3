//! A compiled expression: the result of lexing and parsing one source string,
//! kept ready to be evaluated many times.

use vstd::prelude::*;
use crate::ast::{Value, ValueView};
use crate::lexer::{spec_tokenize, tokenize};
use crate::parser::{parse, spec_parse};

verus! {

/// The tree a source string compiles to: `None` when lexing or parsing
/// rejects the string.
pub open spec fn spec_compile(s: Seq<char>) -> Option<ValueView> {
    match spec_tokenize(s) {
        Err(_) => None,
        Ok(ts) => match spec_parse(ts) {
            Err(_) => None,
            Ok(v) => Some(v),
        },
    }
}

/// A compiled function of one variable, holding the root of its tree.
pub struct Function {
    ast_head: Box<Value>,
}

impl View for Function {
    type V = ValueView;

    closed spec fn view(&self) -> ValueView {
        (*self.ast_head)@
    }
}

impl Function {
    /// Compiles `function`. Returns `Some` exactly when the string lexes and
    /// parses, and then holds the tree the string denotes; a caller that
    /// wants the reason of a failure uses `tokenize` and `parse` directly.
    pub fn new(function: &str) -> (r: Option<Self>)
        ensures
            match r {
                Some(f) => spec_compile(function@) == Some(f@),
                None => spec_compile(function@) is None,
            },
    {
        let tokens = match tokenize(function) {
            Ok(ts) => ts,
            Err(_) => {
                return None;
            },
        };
        match parse(tokens) {
            Ok(head) => Some(Function { ast_head: head }),
            Err(_) => None,
        }
    }

    /// The root of the compiled tree.
    pub fn ast(&self) -> (r: &Value)
        ensures
            r@ == self@,
    {
        &self.ast_head
    }
}

} // verus!
