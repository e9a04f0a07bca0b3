//! Lexical tokens and the operator wrapper the parser's stack works with.

use vstd::prelude::*;
use crate::ast::{BinaryOperator, UnaryOperator};

verus! {

/// Either kind of operator, as it occurs in a token stream.
#[derive(Clone, Copy, Debug, PartialEq, Eq, Structural)]
pub enum Operator {
    Unary(UnaryOperator),
    Binary(BinaryOperator),
}

impl Operator {
    pub open spec fn spec_precedence(self) -> u8 {
        match self {
            Operator::Unary(op) => op.spec_precedence(),
            Operator::Binary(op) => op.spec_precedence(),
        }
    }

    pub fn precedence(&self) -> (p: u8)
        ensures
            p == self.spec_precedence(),
    {
        match self {
            Operator::Unary(op) => op.precedence(),
            Operator::Binary(op) => op.precedence(),
        }
    }
}

/// One lexical unit. A constant carries the text of its numeric literal.
#[derive(Clone, Debug, PartialEq)]
pub enum Token {
    Constant(Vec<char>),
    Variable(u32),
    Operator(Operator),
    LeftGrouping,
    RightGrouping,
}

/// The mathematical model of a token: the same shape, with the literal seen
/// as a sequence of characters.
#[verifier::ext_equal]
pub enum TokenView {
    Constant(Seq<char>),
    Variable(u32),
    Operator(Operator),
    LeftGrouping,
    RightGrouping,
}

impl View for Token {
    type V = TokenView;

    open spec fn view(&self) -> TokenView {
        match self {
            Token::Constant(lit) => TokenView::Constant(lit@),
            Token::Variable(i) => TokenView::Variable(*i),
            Token::Operator(op) => TokenView::Operator(*op),
            Token::LeftGrouping => TokenView::LeftGrouping,
            Token::RightGrouping => TokenView::RightGrouping,
        }
    }
}

/// The model of a whole token sequence.
pub open spec fn tokens_view(ts: Seq<Token>) -> Seq<TokenView> {
    ts.map_values(|t: Token| t@)
}

} // verus!
