//! The abstract syntax tree and its operator vocabulary.

use vstd::prelude::*;
use crate::errors::EvalError;

verus! {

/// A unary operator. The lexer never produces one of these today (there is no
/// unary minus or function-call syntax), but the vocabulary is part of the
/// data model and binds tighter than every binary operator.
#[derive(Clone, Copy, Debug, PartialEq, Eq, Structural)]
pub enum UnaryOperator {
    Negation,
    AbsoluteValue,
    Sin,
    Factorial,
}

impl UnaryOperator {
    /// Every unary operator has the maximal precedence.
    pub open spec fn spec_precedence(self) -> u8 {
        u8::MAX
    }

    pub fn precedence(&self) -> (p: u8)
        ensures
            p == self.spec_precedence(),
    {
        u8::MAX
    }
}

/// A binary operator. All of them are applied left-associatively.
#[derive(Clone, Copy, Debug, PartialEq, Eq, Structural)]
pub enum BinaryOperator {
    Addition,
    Subtraction,
    Multiplication,
    Division,
    Exponentiation,
    Modulo,
}

impl BinaryOperator {
    /// Higher binds tighter: addition and subtraction at 0, multiplication,
    /// division and modulo at 1, exponentiation at 2.
    pub open spec fn spec_precedence(self) -> u8 {
        match self {
            BinaryOperator::Addition | BinaryOperator::Subtraction => 0,
            BinaryOperator::Multiplication | BinaryOperator::Division | BinaryOperator::Modulo => 1,
            BinaryOperator::Exponentiation => 2,
        }
    }

    pub fn precedence(&self) -> (p: u8)
        ensures
            p == self.spec_precedence(),
    {
        match self {
            BinaryOperator::Addition | BinaryOperator::Subtraction => 0,
            BinaryOperator::Multiplication | BinaryOperator::Division | BinaryOperator::Modulo => 1,
            BinaryOperator::Exponentiation => 2,
        }
    }
}

/// One node of the tree. A constant carries the text of its numeric literal;
/// each operator node exclusively owns its children, so the tree is finite
/// and acyclic, and it is never mutated after construction.
#[derive(Debug, PartialEq)]
pub enum Value {
    Constant(Vec<char>),
    Variable(u32),
    UnaryOperator { operator: UnaryOperator, operand: Box<Value> },
    BinaryOperator { operator: BinaryOperator, operands: (Box<Value>, Box<Value>) },
}

/// The mathematical model of a tree: the same shape, with each literal seen
/// as a sequence of characters.
#[verifier::ext_equal]
pub enum ValueView {
    Constant(Seq<char>),
    Variable(u32),
    UnaryOperator { operator: UnaryOperator, operand: Box<ValueView> },
    BinaryOperator { operator: BinaryOperator, operands: (Box<ValueView>, Box<ValueView>) },
}

pub open spec fn value_view(v: Value) -> ValueView
    decreases v,
{
    match v {
        Value::Constant(lit) => ValueView::Constant(lit@),
        Value::Variable(i) => ValueView::Variable(i),
        Value::UnaryOperator { operator, operand } => ValueView::UnaryOperator {
            operator,
            operand: Box::new(value_view(*operand)),
        },
        Value::BinaryOperator { operator, operands } => ValueView::BinaryOperator {
            operator,
            operands: (Box::new(value_view(*operands.0)), Box::new(value_view(*operands.1))),
        },
    }
}

impl View for Value {
    type V = ValueView;

    open spec fn view(&self) -> ValueView {
        value_view(*self)
    }
}

/// The first variable reference, in evaluation order (left operand before
/// right), whose index is not below `count` -- `None` when every variable
/// reference is in range.
pub open spec fn first_variable_error(v: ValueView, count: usize) -> Option<u32>
    decreases v,
{
    match v {
        ValueView::Constant(_) => None,
        ValueView::Variable(i) => if i >= count {
            Some(i)
        } else {
            None
        },
        ValueView::UnaryOperator { operator, operand } => first_variable_error(*operand, count),
        ValueView::BinaryOperator { operator, operands } => match first_variable_error(
            *operands.0,
            count,
        ) {
            Some(i) => Some(i),
            None => first_variable_error(*operands.1, count),
        },
    }
}

impl Value {
    /// The bounds-checking half of evaluation: decides, before any arithmetic
    /// is attempted, whether every `Variable(i)` in the tree is in range for a
    /// variable vector of length `count`. Evaluation over such a vector
    /// reaches no out-of-range index exactly when this returns `Ok`; the error
    /// names the first out-of-range index in evaluation order.
    pub fn check_variables(&self, count: usize) -> (r: Result<(), EvalError>)
        ensures
            match r {
                Ok(()) => first_variable_error(self@, count) is None,
                Err(EvalError::VariableOutOfRange(i)) => first_variable_error(self@, count)
                    == Some(i),
                Err(EvalError::DomainError) => false,
            },
        decreases *self,
    {
        match self {
            Value::Constant(_) => Ok(()),
            Value::Variable(i) => {
                if (*i as usize) < count {
                    Ok(())
                } else {
                    Err(EvalError::VariableOutOfRange(*i))
                }
            },
            Value::UnaryOperator { operator, operand } => operand.check_variables(count),
            Value::BinaryOperator { operator, operands } => {
                match operands.0.check_variables(count) {
                    Err(e) => Err(e),
                    Ok(()) => operands.1.check_variables(count),
                }
            },
        }
    }
}

} // verus!
