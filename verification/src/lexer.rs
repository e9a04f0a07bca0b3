//! The lexer: character stream to flat token sequence.
//!
//! Characters are scanned left to right while a pending numeric literal is
//! accumulated. Digits and dots extend the literal; any other character first
//! flushes a non-empty literal into a `Constant` token (failing if the literal
//! is not a well-formed decimal number) and is then either mapped to its fixed
//! token or silently skipped. End of input flushes a remaining literal.

use vstd::prelude::*;
use vstd::string::StrSliceExecFns;
use crate::ast::BinaryOperator;
use crate::errors::LexError;
use crate::token::{tokens_view, Operator, Token, TokenView};

verus! {

pub open spec fn is_digit_char(c: char) -> bool {
    ('0' as u32) <= (c as u32) && (c as u32) <= ('9' as u32)
}

/// The characters that extend a pending numeric literal.
pub open spec fn is_numeric_char(c: char) -> bool {
    is_digit_char(c) || c == '.'
}

pub open spec fn digit_count(s: Seq<char>) -> nat
    decreases s.len(),
{
    if s.len() == 0 {
        0
    } else {
        digit_count(s.drop_last()) + if is_digit_char(s.last()) {
            1nat
        } else {
            0nat
        }
    }
}

pub open spec fn dot_count(s: Seq<char>) -> nat
    decreases s.len(),
{
    if s.len() == 0 {
        0
    } else {
        dot_count(s.drop_last()) + if s.last() == '.' {
            1nat
        } else {
            0nat
        }
    }
}

/// A run of digit and dot characters is a well-formed decimal number when it
/// holds at least one digit and at most one dot: exactly the runs accepted by
/// a decimal float conversion (so `3`, `3.5`, `3.` and `.5` pass, while `.`
/// and `1.2.3` fail).
pub open spec fn is_well_formed_number(s: Seq<char>) -> bool {
    digit_count(s) >= 1 && dot_count(s) <= 1
}

/// The fixed token for a single recognized character; `None` for characters
/// the lexer silently skips.
pub open spec fn char_token(c: char) -> Option<TokenView> {
    if c == 'x' {
        Some(TokenView::Variable(0))
    } else if c == '+' {
        Some(TokenView::Operator(Operator::Binary(BinaryOperator::Addition)))
    } else if c == '-' {
        Some(TokenView::Operator(Operator::Binary(BinaryOperator::Subtraction)))
    } else if c == '*' {
        Some(TokenView::Operator(Operator::Binary(BinaryOperator::Multiplication)))
    } else if c == '/' {
        Some(TokenView::Operator(Operator::Binary(BinaryOperator::Division)))
    } else if c == '%' {
        Some(TokenView::Operator(Operator::Binary(BinaryOperator::Modulo)))
    } else if c == '^' {
        Some(TokenView::Operator(Operator::Binary(BinaryOperator::Exponentiation)))
    } else if c == '(' {
        Some(TokenView::LeftGrouping)
    } else if c == ')' {
        Some(TokenView::RightGrouping)
    } else {
        None
    }
}

pub open spec fn char_token_seq(c: char) -> Seq<TokenView> {
    match char_token(c) {
        Some(t) => seq![t],
        None => Seq::empty(),
    }
}

/// Flushing the pending literal: nothing to do when it is empty, a single
/// `Constant` token when it is well formed, and the lexing error otherwise.
pub open spec fn flush_buffer(buf: Seq<char>) -> Result<Seq<TokenView>, Seq<char>> {
    if buf.len() == 0 {
        Ok(Seq::empty())
    } else if is_well_formed_number(buf) {
        Ok(seq![TokenView::Constant(buf)])
    } else {
        Err(buf)
    }
}

/// The tokens produced from position `i` onward, given the pending literal
/// `buf` accumulated so far.
pub open spec fn spec_tokenize_from(s: Seq<char>, i: int, buf: Seq<char>) -> Result<
    Seq<TokenView>,
    Seq<char>,
>
    decreases s.len() - i,
{
    if i < 0 || i >= s.len() {
        flush_buffer(buf)
    } else if is_numeric_char(s[i]) {
        spec_tokenize_from(s, i + 1, buf.push(s[i]))
    } else {
        match flush_buffer(buf) {
            Err(e) => Err(e),
            Ok(pre) => match spec_tokenize_from(s, i + 1, Seq::empty()) {
                Err(e) => Err(e),
                Ok(rest) => Ok(pre + char_token_seq(s[i]) + rest),
            },
        }
    }
}

/// What `tokenize` returns: the token sequence of `s`, or the first
/// malformed numeric literal.
pub open spec fn spec_tokenize(s: Seq<char>) -> Result<Seq<TokenView>, Seq<char>> {
    spec_tokenize_from(s, 0, Seq::empty())
}

fn char_is_numeric(c: char) -> (b: bool)
    ensures
        b == is_numeric_char(c),
{
    let n = c as u32;
    (('0' as u32) <= n && n <= ('9' as u32)) || c == '.'
}

fn char_is_digit(c: char) -> (b: bool)
    ensures
        b == is_digit_char(c),
{
    let n = c as u32;
    ('0' as u32) <= n && n <= ('9' as u32)
}

fn number_is_well_formed(s: &Vec<char>) -> (b: bool)
    ensures
        b == is_well_formed_number(s@),
{
    let mut digits: usize = 0;
    let mut dots: usize = 0;
    let n = s.len();
    let mut i: usize = 0;
    while i < n
        invariant
            i <= n,
            n == s@.len(),
            digits == digit_count(s@.take(i as int)),
            dots == dot_count(s@.take(i as int)),
            digits <= i,
            dots <= i,
        decreases n - i,
    {
        let ghost prefix = s@.take(i as int);
        let c = s[i];
        assert(s@.take(i + 1).drop_last() =~= prefix);
        assert(s@.take(i + 1).last() == c);
        if char_is_digit(c) {
            digits = digits + 1;
        }
        if c == '.' {
            dots = dots + 1;
        }
        i = i + 1;
    }
    assert(s@.take(n as int) =~= s@);
    digits >= 1 && dots <= 1
}

fn token_for_char(c: char) -> (r: Option<Token>)
    ensures
        match r {
            Some(t) => char_token(c) == Some(t@),
            None => char_token(c) is None,
        },
{
    if c == 'x' {
        Some(Token::Variable(0))
    } else if c == '+' {
        Some(Token::Operator(Operator::Binary(BinaryOperator::Addition)))
    } else if c == '-' {
        Some(Token::Operator(Operator::Binary(BinaryOperator::Subtraction)))
    } else if c == '*' {
        Some(Token::Operator(Operator::Binary(BinaryOperator::Multiplication)))
    } else if c == '/' {
        Some(Token::Operator(Operator::Binary(BinaryOperator::Division)))
    } else if c == '%' {
        Some(Token::Operator(Operator::Binary(BinaryOperator::Modulo)))
    } else if c == '^' {
        Some(Token::Operator(Operator::Binary(BinaryOperator::Exponentiation)))
    } else if c == '(' {
        Some(Token::LeftGrouping)
    } else if c == ')' {
        Some(Token::RightGrouping)
    } else {
        None
    }
}

/// Flushes the pending literal `buf` into `tokens`, leaving `buf` empty, or
/// returns the lexing error for a malformed literal.
fn flush_number(tokens: &mut Vec<Token>, buf: &mut Vec<char>) -> (r: Result<(), LexError>)
    ensures
        match r {
            Ok(()) => {
                &&& flush_buffer(old(buf)@) matches Ok(pre) && tokens_view(final(tokens)@)
                    == tokens_view(old(tokens)@) + pre
                &&& final(buf)@ == Seq::<char>::empty()
            },
            Err(LexError::MalformedNumber(lit)) => flush_buffer(old(buf)@) == Err::<
                Seq<TokenView>,
                Seq<char>,
            >(lit@),
        },
{
    if buf.len() == 0 {
        assert(buf@ =~= Seq::<char>::empty());
        assert(tokens_view(tokens@) + Seq::<TokenView>::empty() =~= tokens_view(tokens@));
        return Ok(());
    }
    if !number_is_well_formed(buf) {
        let mut lit: Vec<char> = Vec::new();
        core::mem::swap(&mut lit, buf);
        return Err(LexError::MalformedNumber(lit));
    }
    let ghost old_tokens = tokens@;
    let ghost lit_view = buf@;
    let mut lit: Vec<char> = Vec::new();
    core::mem::swap(&mut lit, buf);
    tokens.push(Token::Constant(lit));
    assert(tokens_view(tokens@) =~= tokens_view(old_tokens) + seq![
        TokenView::Constant(lit_view),
    ]);
    Ok(())
}

/// Lexes `string` into its token sequence, or reports the first malformed
/// numeric literal. Every character other than digits, dots and the nine
/// recognized characters is silently skipped.
pub fn tokenize(string: &str) -> (r: Result<Vec<Token>, LexError>)
    ensures
        match r {
            Ok(ts) => spec_tokenize(string@) == Ok::<Seq<TokenView>, Seq<char>>(tokens_view(ts@)),
            Err(LexError::MalformedNumber(lit)) => spec_tokenize(string@) == Err::<
                Seq<TokenView>,
                Seq<char>,
            >(lit@),
        },
{
    let n = string.unicode_len();
    let mut tokens: Vec<Token> = Vec::new();
    let mut buf: Vec<char> = Vec::new();
    let mut i: usize = 0;
    while i < n
        invariant
            i <= n,
            n == string@.len(),
            spec_tokenize(string@) == (match spec_tokenize_from(string@, i as int, buf@) {
                Ok(rest) => Ok::<Seq<TokenView>, Seq<char>>(tokens_view(tokens@) + rest),
                Err(e) => Err::<Seq<TokenView>, Seq<char>>(e),
            }),
        decreases n - i,
    {
        let ghost tokens_before = tokens@;
        let ghost buf_before = buf@;
        let c = string.get_char(i);
        if char_is_numeric(c) {
            buf.push(c);
        } else {
            match flush_number(&mut tokens, &mut buf) {
                Ok(()) => {},
                Err(e) => {
                    return Err(e);
                },
            }
            let ghost flushed = tokens@;
            match token_for_char(c) {
                Some(t) => {
                    tokens.push(t);
                    assert(tokens_view(tokens@) =~= tokens_view(flushed) + char_token_seq(c));
                },
                None => {
                    assert(tokens_view(tokens@) =~= tokens_view(flushed) + char_token_seq(c));
                },
            }
            proof {
                match flush_buffer(buf_before) {
                    Ok(pre) => {
                        match spec_tokenize_from(string@, i as int + 1, Seq::empty()) {
                            Ok(rest) => {
                                assert(tokens_view(tokens_before) + ((pre + char_token_seq(c))
                                    + rest) =~= tokens_view(tokens@) + rest);
                            },
                            Err(_) => {},
                        }
                    },
                    Err(_) => {
                        // flush_number returned Ok, so the buffer flushed.
                        assert(false);
                    },
                }
            }
        }
        i = i + 1;
    }
    match flush_number(&mut tokens, &mut buf) {
        Ok(()) => Ok(tokens),
        Err(e) => Err(e),
    }
}

} // verus!
