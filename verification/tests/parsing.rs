use grapher::ast::{BinaryOperator, UnaryOperator, Value};
use grapher::errors::ParseError;
use grapher::lexer::tokenize;
use grapher::parser::parse;
use grapher::token::{Operator, Token};

fn parse_str(s: &str) -> Result<Box<Value>, ParseError> {
    parse(tokenize(s).unwrap())
}

fn constant(s: &str) -> Value {
    Value::Constant(s.chars().collect())
}

fn binary(op: BinaryOperator, lhs: Value, rhs: Value) -> Value {
    Value::BinaryOperator {
        operator: op,
        operands: (Box::new(lhs), Box::new(rhs)),
    }
}

#[test]
fn parse_single_constant() {
    let tree = parse_str("42").unwrap();
    assert_eq!(*tree, constant("42"));
}

#[test]
fn parse_single_variable() {
    let tree = parse_str("x").unwrap();
    assert_eq!(*tree, Value::Variable(0));
}

#[test]
fn parse_precedence_shape() {
    // Multiplication binds before addition: 1*1+1 is (1*1)+1, seen in the
    // shape of the tree, not just in an evaluated number.
    let tree = parse_str("1*1+1").unwrap();
    let expected = binary(
        BinaryOperator::Addition,
        binary(
            BinaryOperator::Multiplication,
            constant("1"),
            constant("1"),
        ),
        constant("1"),
    );
    assert_eq!(*tree, expected);
}

#[test]
fn parse_precedence_shape_reversed() {
    // The lower-precedence addition waits for the multiplication after it:
    // 1+1*1 is 1+(1*1).
    let tree = parse_str("1+1*1").unwrap();
    let expected = binary(
        BinaryOperator::Addition,
        constant("1"),
        binary(
            BinaryOperator::Multiplication,
            constant("1"),
            constant("1"),
        ),
    );
    assert_eq!(*tree, expected);
}

#[test]
fn parse_grouping_shape() {
    let tree = parse_str("(3+4)*2").unwrap();
    let expected = binary(
        BinaryOperator::Multiplication,
        binary(BinaryOperator::Addition, constant("3"), constant("4")),
        constant("2"),
    );
    assert_eq!(*tree, expected);
}

#[test]
fn parse_left_associative_subtraction() {
    let tree = parse_str("1-2-3").unwrap();
    let expected = binary(
        BinaryOperator::Subtraction,
        binary(BinaryOperator::Subtraction, constant("1"), constant("2")),
        constant("3"),
    );
    assert_eq!(*tree, expected);
}

#[test]
fn parse_left_associative_exponentiation() {
    // As implemented, exponentiation is left-associative like everything
    // else: 2^3^2 is (2^3)^2.
    let tree = parse_str("2^3^2").unwrap();
    let expected = binary(
        BinaryOperator::Exponentiation,
        binary(
            BinaryOperator::Exponentiation,
            constant("2"),
            constant("3"),
        ),
        constant("2"),
    );
    assert_eq!(*tree, expected);
}

#[test]
fn parse_too_few_operands() {
    assert_eq!(parse_str("3+*4").unwrap_err(), ParseError::TooFewOperands);
}

#[test]
fn parse_unbalanced_open() {
    assert_eq!(
        parse_str("(3+4").unwrap_err(),
        ParseError::UnbalancedParentheses
    );
}

#[test]
fn parse_unbalanced_close() {
    assert_eq!(
        parse_str(")3").unwrap_err(),
        ParseError::UnbalancedParentheses
    );
}

#[test]
fn parse_empty_expression() {
    assert_eq!(parse_str("").unwrap_err(), ParseError::EmptyExpression);
}

#[test]
fn parse_too_many_operands() {
    assert_eq!(parse_str("3 4").unwrap_err(), ParseError::TooManyOperands);
}

#[test]
fn parse_unary_operator_token() {
    // The lexer never produces unary operators, but the parser reduces a
    // hand-built one with a single operand.
    let tokens = vec![
        Token::Constant(vec!['2']),
        Token::Operator(Operator::Unary(UnaryOperator::Negation)),
    ];
    let tree = parse(tokens).unwrap();
    assert_eq!(
        *tree,
        Value::UnaryOperator {
            operator: UnaryOperator::Negation,
            operand: Box::new(constant("2")),
        }
    );
}

#[test]
fn parse_unary_operator_without_operand() {
    let tokens = vec![Token::Operator(Operator::Unary(UnaryOperator::Sin))];
    assert_eq!(parse(tokens).unwrap_err(), ParseError::TooFewOperands);
}

#[test]
fn precedence_table() {
    assert_eq!(BinaryOperator::Addition.precedence(), 0);
    assert_eq!(BinaryOperator::Subtraction.precedence(), 0);
    assert_eq!(BinaryOperator::Multiplication.precedence(), 1);
    assert_eq!(BinaryOperator::Division.precedence(), 1);
    assert_eq!(BinaryOperator::Modulo.precedence(), 1);
    assert_eq!(BinaryOperator::Exponentiation.precedence(), 2);
    assert_eq!(UnaryOperator::Negation.precedence(), u8::MAX);
    assert_eq!(UnaryOperator::AbsoluteValue.precedence(), u8::MAX);
    assert_eq!(UnaryOperator::Sin.precedence(), u8::MAX);
    assert_eq!(UnaryOperator::Factorial.precedence(), u8::MAX);
    assert_eq!(
        Operator::Binary(BinaryOperator::Exponentiation).precedence(),
        2
    );
    assert_eq!(Operator::Unary(UnaryOperator::Negation).precedence(), u8::MAX);
}
