use grapher::ast::BinaryOperator;
use grapher::errors::LexError;
use grapher::lexer::tokenize;
use grapher::token::{Operator, Token};

fn add() -> Token {
    Token::Operator(Operator::Binary(BinaryOperator::Addition))
}

fn mul() -> Token {
    Token::Operator(Operator::Binary(BinaryOperator::Multiplication))
}

#[test]
fn tokenize_simple() {
    let tokens = tokenize("3+4*2").unwrap();
    assert_eq!(
        tokens,
        vec![
            Token::Constant(vec!['3']),
            add(),
            Token::Constant(vec!['4']),
            mul(),
            Token::Constant(vec!['2']),
        ]
    );
}

#[test]
fn tokenize_decimal_and_variable() {
    let tokens = tokenize("3.5+x").unwrap();
    assert_eq!(
        tokens,
        vec![
            Token::Constant(vec!['3', '.', '5']),
            add(),
            Token::Variable(0),
        ]
    );
}

#[test]
fn tokenize_all_operators() {
    let tokens = tokenize("1-2/3%4^5").unwrap();
    assert_eq!(
        tokens,
        vec![
            Token::Constant(vec!['1']),
            Token::Operator(Operator::Binary(BinaryOperator::Subtraction)),
            Token::Constant(vec!['2']),
            Token::Operator(Operator::Binary(BinaryOperator::Division)),
            Token::Constant(vec!['3']),
            Token::Operator(Operator::Binary(BinaryOperator::Modulo)),
            Token::Constant(vec!['4']),
            Token::Operator(Operator::Binary(BinaryOperator::Exponentiation)),
            Token::Constant(vec!['5']),
        ]
    );
}

#[test]
fn tokenize_groupings() {
    let tokens = tokenize("(x)").unwrap();
    assert_eq!(
        tokens,
        vec![Token::LeftGrouping, Token::Variable(0), Token::RightGrouping]
    );
}

#[test]
fn tokenize_skips_unknown_characters() {
    let tokens = tokenize("3 + 4$y").unwrap();
    assert_eq!(
        tokens,
        vec![Token::Constant(vec!['3']), add(), Token::Constant(vec!['4'])]
    );
}

#[test]
fn tokenize_nine_is_a_digit() {
    let tokens = tokenize("39").unwrap();
    assert_eq!(tokens, vec![Token::Constant(vec!['3', '9'])]);
}

#[test]
fn tokenize_trailing_dot_is_accepted() {
    let tokens = tokenize("2.").unwrap();
    assert_eq!(tokens, vec![Token::Constant(vec!['2', '.'])]);
}

#[test]
fn tokenize_leading_dot_is_accepted() {
    let tokens = tokenize(".5").unwrap();
    assert_eq!(tokens, vec![Token::Constant(vec!['.', '5'])]);
}

#[test]
fn tokenize_empty_input() {
    let tokens = tokenize("").unwrap();
    assert_eq!(tokens, Vec::<Token>::new());
}

#[test]
fn tokenize_two_dots_is_malformed() {
    let err = tokenize("1.2.3").unwrap_err();
    assert_eq!(err, LexError::MalformedNumber(vec!['1', '.', '2', '.', '3']));
}

#[test]
fn tokenize_lone_dot_is_malformed() {
    let err = tokenize(".").unwrap_err();
    assert_eq!(err, LexError::MalformedNumber(vec!['.']));
}

#[test]
fn tokenize_malformed_before_operator() {
    let err = tokenize("1..2+3").unwrap_err();
    assert_eq!(err, LexError::MalformedNumber(vec!['1', '.', '.', '2']));
}
