//! Tokens, and the mathematical value that each one stands for.

use vstd::prelude::*;

verus! {

/// One lexical unit of the source text.
///
/// The three literal variants borrow their text from the source; all others
/// are fully described by their tag.
#[derive(Clone, Copy, Debug, PartialEq, Eq)]
pub enum Token<'a> {
    // Single-character punctuation.
    LeftParen,
    RightParen,
    LeftBrace,
    RightBrace,
    Comma,
    Dot,
    Minus,
    Plus,
    Semicolon,
    Slash,
    Star,
    // One or two character operators.
    Bang,
    BangEqual,
    Equal,
    EqualEqual,
    Greater,
    GreaterEqual,
    Less,
    LessEqual,
    // Literals.
    /// A name that is not a reserved word, with its spelling.
    Identifier(&'a str),
    /// A string literal, with the text between its quotes.
    String(&'a str),
    /// A numeric literal, with its text as written: one or more digits,
    /// optionally followed by a dot and further digits. The token carries
    /// the text rather than a value so that no precision is lost here; the
    /// text always parses as a floating-point number.
    Number(&'a str),
    // Reserved words.
    And,
    Class,
    Else,
    False,
    Fun,
    For,
    If,
    Nil,
    Or,
    Print,
    Return,
    Super,
    This,
    True,
    Var,
    While,
    /// The end of the input; always the last token of a scan.
    Eof,
}

/// The mathematical value of a [`Token`]: the same tag, with the literal text
/// as a sequence of characters.
pub enum SpecToken {
    LeftParen,
    RightParen,
    LeftBrace,
    RightBrace,
    Comma,
    Dot,
    Minus,
    Plus,
    Semicolon,
    Slash,
    Star,
    Bang,
    BangEqual,
    Equal,
    EqualEqual,
    Greater,
    GreaterEqual,
    Less,
    LessEqual,
    Identifier(Seq<char>),
    String(Seq<char>),
    Number(Seq<char>),
    And,
    Class,
    Else,
    False,
    Fun,
    For,
    If,
    Nil,
    Or,
    Print,
    Return,
    Super,
    This,
    True,
    Var,
    While,
    Eof,
}

impl<'a> View for Token<'a> {
    type V = SpecToken;

    open spec fn view(&self) -> SpecToken {
        match *self {
            Token::LeftParen => SpecToken::LeftParen,
            Token::RightParen => SpecToken::RightParen,
            Token::LeftBrace => SpecToken::LeftBrace,
            Token::RightBrace => SpecToken::RightBrace,
            Token::Comma => SpecToken::Comma,
            Token::Dot => SpecToken::Dot,
            Token::Minus => SpecToken::Minus,
            Token::Plus => SpecToken::Plus,
            Token::Semicolon => SpecToken::Semicolon,
            Token::Slash => SpecToken::Slash,
            Token::Star => SpecToken::Star,
            Token::Bang => SpecToken::Bang,
            Token::BangEqual => SpecToken::BangEqual,
            Token::Equal => SpecToken::Equal,
            Token::EqualEqual => SpecToken::EqualEqual,
            Token::Greater => SpecToken::Greater,
            Token::GreaterEqual => SpecToken::GreaterEqual,
            Token::Less => SpecToken::Less,
            Token::LessEqual => SpecToken::LessEqual,
            Token::Identifier(text) => SpecToken::Identifier(text@),
            Token::String(text) => SpecToken::String(text@),
            Token::Number(text) => SpecToken::Number(text@),
            Token::And => SpecToken::And,
            Token::Class => SpecToken::Class,
            Token::Else => SpecToken::Else,
            Token::False => SpecToken::False,
            Token::Fun => SpecToken::Fun,
            Token::For => SpecToken::For,
            Token::If => SpecToken::If,
            Token::Nil => SpecToken::Nil,
            Token::Or => SpecToken::Or,
            Token::Print => SpecToken::Print,
            Token::Return => SpecToken::Return,
            Token::Super => SpecToken::Super,
            Token::This => SpecToken::This,
            Token::True => SpecToken::True,
            Token::Var => SpecToken::Var,
            Token::While => SpecToken::While,
            Token::Eof => SpecToken::Eof,
        }
    }
}

} // verus!
