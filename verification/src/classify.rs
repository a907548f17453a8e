//! Executable classification of single characters.

use crate::grammar;
use crate::grammar::Run;
use crate::token::Token;
use vstd::prelude::*;

verus! {

/// Whether `c` is an ASCII decimal digit.
pub fn is_digit(c: char) -> (b: bool)
    ensures
        b == grammar::is_digit(c),
{
    '0' <= c && c <= '9'
}

/// Whether `c` is an ASCII letter or the underscore.
pub fn is_alpha(c: char) -> (b: bool)
    ensures
        b == grammar::is_alpha(c),
{
    ('a' <= c && c <= 'z') || ('A' <= c && c <= 'Z') || c == '_'
}

/// Whether `c` separates tokens without yielding one.
pub fn is_blank(c: char) -> (b: bool)
    ensures
        b == grammar::is_blank(c),
{
    c == ' ' || c == '\r' || c == '\t' || c == '\n'
}

/// Whether a run of kind `run` may go on with `c`.
pub fn admits(run: Run, c: char) -> (b: bool)
    ensures
        b == run.admits(c),
{
    match run {
        Run::Comment => c != '\n',
        Run::Text => c != '"',
        Run::Number => is_digit(c) || c == '.',
        Run::Word => is_alpha(c) || is_digit(c),
    }
}

/// The token of a punctuation character that always stands alone.
pub fn punctuation<'a>(c: char) -> (found: Option<Token<'a>>)
    ensures
        match found {
            Some(token) => grammar::punctuation(c) == Some(token@),
            None => grammar::punctuation(c) is None,
        },
{
    match c {
        '(' => Some(Token::LeftParen),
        ')' => Some(Token::RightParen),
        '{' => Some(Token::LeftBrace),
        '}' => Some(Token::RightBrace),
        ',' => Some(Token::Comma),
        ';' => Some(Token::Semicolon),
        '.' => Some(Token::Dot),
        '-' => Some(Token::Minus),
        '+' => Some(Token::Plus),
        '*' => Some(Token::Star),
        _ => None,
    }
}

/// For a character that begins an operator of one or two characters, the
/// token of the character alone and the token of the character followed
/// by `=`.
pub fn operator<'a>(c: char) -> (found: Option<(Token<'a>, Token<'a>)>)
    ensures
        match found {
            Some((alone, with_equal)) => grammar::operator(c) == Some((alone@, with_equal@)),
            None => grammar::operator(c) is None,
        },
{
    match c {
        '!' => Some((Token::Bang, Token::BangEqual)),
        '=' => Some((Token::Equal, Token::EqualEqual)),
        '>' => Some((Token::Greater, Token::GreaterEqual)),
        '<' => Some((Token::Less, Token::LessEqual)),
        _ => None,
    }
}

} // verus!
