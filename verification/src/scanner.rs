//! The scanner: one forward pass over the source text.

use crate::classify::{is_alpha, is_blank, is_digit, operator, punctuation};
use crate::error::{ErrorKind, ScanError};
use crate::grammar::{
    lemma_line_unchanged, lemma_occurrences_bound, lemma_occurrences_subrange,
    lemma_prepend_nothing, lemma_prepend_twice, lemma_run_end_maximal, lemma_step_advances,
    line_of, prepend, scan, scan_from, step, word_token, Failure, Run, Step,
};
use crate::laws::{
    lemma_scan_ends_with_end_marker, lemma_scan_yields_well_formed, well_formed,
};
use crate::source::Source;
use crate::text::{same_text, split_chars};
use crate::token::{SpecToken, Token};
use vstd::prelude::*;

verus! {

/// Where the scanner stands: a position in the text, the line of that
/// position, and the text from there on.
#[derive(Clone, Copy, Debug)]
pub struct Cursor<'a> {
    pos: usize,
    line: usize,
    rest: &'a str,
}

impl<'a> Cursor<'a> {
    /// The position: how many characters lie before the cursor.
    pub closed spec fn spec_pos(&self) -> usize {
        self.pos
    }

    /// The line of the position, counted from zero.
    pub closed spec fn spec_line(&self) -> usize {
        self.line
    }

    /// The text from the position on.
    pub closed spec fn rest(&self) -> Seq<char> {
        self.rest@
    }

    /// Whether this cursor is a position of `src` together with its line and
    /// with what follows it.
    pub open spec fn wf(&self, src: Seq<char>) -> bool {
        &&& self.pos() <= src.len()
        &&& self.line() == line_of(src, self.pos() as int)
        &&& self.rest() == src.subrange(self.pos() as int, src.len() as int)
    }

    /// The cursor at the start of `source`.
    pub fn start(source: &Source<'a>) -> (cur: Self)
        ensures
            cur.wf(source@),
            cur.pos() == 0,
            cur.line() == 0,
    {
        let rest = source.text();
        assert(rest@ =~= source@.subrange(0, source@.len() as int));
        Cursor { pos: 0, line: 0, rest }
    }

    /// The position: how many characters lie before the cursor.
    #[verifier::when_used_as_spec(spec_pos)]
    pub fn pos(&self) -> (pos: usize)
        ensures
            pos == self.pos(),
    {
        self.pos
    }

    /// The line of the position, counted from zero.
    #[verifier::when_used_as_spec(spec_line)]
    pub fn line(&self) -> (line: usize)
        ensures
            line == self.line(),
    {
        self.line
    }

    /// Moves on to position `to`, which is on line `line`, and returns the
    /// characters passed with the cursor behind them. Takes time
    /// proportional to their number.
    fn advance(self, to: usize, line: usize, Ghost(src): Ghost<Seq<char>>) -> (moved: (
        &'a str,
        Self,
    ))
        requires
            self.wf(src),
            self.pos() <= to <= src.len(),
            line == line_of(src, to as int),
        ensures
            moved.0@ == src.subrange(self.pos() as int, to as int),
            moved.1.wf(src),
            moved.1.pos() == to,
            moved.1.line() == line,
    {
        let (passed, rest) = split_chars(self.rest, to - self.pos);
        proof {
            assert(passed@ =~= src.subrange(self.pos as int, to as int));
            assert(rest@ =~= src.subrange(to as int, src.len() as int));
        }
        (passed, Cursor { pos: to, line, rest })
    }
}

/// The token of a word: its reserved word, or else an identifier with the
/// word as its name.
pub fn word<'a>(text: &'a str) -> (token: Token<'a>)
    ensures
        token@ == word_token(text@),
{
    if same_text(text, "and") {
        Token::And
    } else if same_text(text, "class") {
        Token::Class
    } else if same_text(text, "else") {
        Token::Else
    } else if same_text(text, "false") {
        Token::False
    } else if same_text(text, "fun") {
        Token::Fun
    } else if same_text(text, "for") {
        Token::For
    } else if same_text(text, "if") {
        Token::If
    } else if same_text(text, "nil") {
        Token::Nil
    } else if same_text(text, "or") {
        Token::Or
    } else if same_text(text, "print") {
        Token::Print
    } else if same_text(text, "return") {
        Token::Return
    } else if same_text(text, "super") {
        Token::Super
    } else if same_text(text, "this") {
        Token::This
    } else if same_text(text, "true") {
        Token::True
    } else if same_text(text, "var") {
        Token::Var
    } else if same_text(text, "while") {
        Token::While
    } else {
        Token::Identifier(text)
    }
}

/// Takes one step: reads what begins under the cursor and returns the token
/// it yields, if any, with the cursor behind it, or the error that ends the
/// scan.
pub fn next_token<'a>(source: &Source<'a>, cur: Cursor<'a>) -> (result: Result<
    (Option<Token<'a>>, Cursor<'a>),
    ScanError,
>)
    requires
        cur.wf(source@),
        cur.pos() < source@.len(),
    ensures
        match result {
            Ok((Some(token), after)) => {
                &&& step(source@, cur.pos() as int) == Step::Emit {
                    token: token@,
                    next: after.pos() as int,
                }
                &&& after.wf(source@)
            },
            Ok((None, after)) => {
                &&& step(source@, cur.pos() as int) == Step::Skip { next: after.pos() as int }
                &&& after.wf(source@)
            },
            Err(e) => {
                &&& step(source@, cur.pos() as int) matches Step::Fail { kind, at }
                &&& e.kind == kind
                &&& e.line == line_of(source@, at)
            },
        },
{
    let n = source.len();
    let pos = cur.pos;
    let line = cur.line;
    let c = source.at(pos);
    proof {
        lemma_step_advances(source@, pos as int);
        lemma_occurrences_bound(source@, '\n', pos as int);
    }
    if is_blank(c) {
        let line = if c == '\n' {
            line + 1
        } else {
            line
        };
        Ok((None, cur.advance(pos + 1, line, Ghost(source@)).1))
    } else if let Some(token) = punctuation(c) {
        Ok((Some(token), cur.advance(pos + 1, line, Ghost(source@)).1))
    } else if let Some((alone, with_equal)) = operator(c) {
        if pos + 1 < n && source.at(pos + 1) == '=' {
            proof {
                lemma_line_unchanged(source@, pos as int, pos + 2);
            }
            Ok((Some(with_equal), cur.advance(pos + 2, line, Ghost(source@)).1))
        } else {
            Ok((Some(alone), cur.advance(pos + 1, line, Ghost(source@)).1))
        }
    } else if c == '/' {
        if pos + 1 < n && source.at(pos + 1) == '/' {
            let end = source.run_end(pos + 2, Run::Comment);
            proof {
                lemma_run_end_maximal(source@, pos + 2, Run::Comment);
                lemma_line_unchanged(source@, pos as int, end as int);
            }
            Ok((None, cur.advance(end, line, Ghost(source@)).1))
        } else {
            Ok((Some(Token::Slash), cur.advance(pos + 1, line, Ghost(source@)).1))
        }
    } else if c == '"' {
        let close = source.run_end(pos + 1, Run::Text);
        let inside = source.count('\n', pos + 1, close);
        proof {
            lemma_occurrences_bound(source@, '\n', close as int);
            lemma_run_end_maximal(source@, pos + 1, Run::Text);
        }
        let line = line + inside;
        if close < n {
            let (literal, after) = cur.advance(close + 1, line, Ghost(source@));
            let text = literal.substring_char(1, close - pos);
            assert(text@ =~= source@.subrange(pos + 1, close as int));
            Ok((Some(Token::String(text)), after))
        } else {
            Err(ScanError::new(ErrorKind::UnterminatedString, line))
        }
    } else if is_digit(c) {
        let end = source.run_end(pos, Run::Number);
        let dots = source.count('.', pos, end);
        proof {
            lemma_run_end_maximal(source@, pos as int, Run::Number);
            lemma_line_unchanged(source@, pos as int, end as int);
            lemma_occurrences_subrange(source@, '.', pos as int, end as int);
        }
        if dots <= 1 {
            let (digits, after) = cur.advance(end, line, Ghost(source@));
            Ok((Some(Token::Number(digits)), after))
        } else {
            Err(ScanError::new(ErrorKind::InvalidNumberLiteral, line))
        }
    } else if is_alpha(c) {
        let end = source.run_end(pos, Run::Word);
        proof {
            lemma_run_end_maximal(source@, pos as int, Run::Word);
            lemma_line_unchanged(source@, pos as int, end as int);
        }
        let (text, after) = cur.advance(end, line, Ghost(source@));
        Ok((Some(word(text)), after))
    } else {
        Err(ScanError::new(ErrorKind::UnexpectedCharacter, line))
    }
}

/// A scanner for one source text.
#[derive(Clone, Copy, Debug)]
pub struct Tokenizer<'a> {
    script: &'a str,
}

impl<'a> View for Tokenizer<'a> {
    type V = Seq<char>;

    /// The text that this tokenizer scans.
    closed spec fn view(&self) -> Seq<char> {
        self.script@
    }
}

impl<'a> Tokenizer<'a> {
    /// A tokenizer for `script`.
    pub fn new(script: &'a str) -> (tokenizer: Self)
        ensures
            tokenizer@ == script@,
    {
        Self { script }
    }

    /// Scans the whole text.
    ///
    /// Returns the tokens that the text spells, in the order of the text and
    /// closed by [`Token::Eof`], or the first error: its kind, and the line
    /// that the scanner had reached when it detected it. The end marker
    /// occurs once, and every literal token carries a text that its kind
    /// allows.
    ///
    /// Takes time proportional to the length of the text.
    pub fn tokenize(&self) -> (result: Result<Vec<Token<'a>>, ScanError>)
        ensures
            match result {
                Ok(tokens) => {
                    &&& scan(self@) matches Ok(expected)
                    &&& tokens@.len() == expected.len()
                    &&& forall|i: int|
                        0 <= i < tokens@.len() ==> (#[trigger] tokens@[i])@ == expected[i]
                },
                Err(e) => {
                    &&& scan(self@) matches Err(failure)
                    &&& e.kind == failure.kind
                    &&& e.line == line_of(self@, failure.at)
                },
            },
            result matches Ok(tokens) ==> {
                &&& tokens@.len() > 0
                &&& tokens@.last() == Token::Eof
                &&& forall|i: int| 0 <= i < tokens@.len() - 1 ==> tokens@[i] != Token::Eof
                &&& forall|i: int| 0 <= i < tokens@.len() ==> well_formed((#[trigger] tokens@[i])@)
            },
    {
        let source = Source::new(self.script);
        let n = source.len();
        let mut tokens: Vec<Token<'a>> = Vec::new();
        let mut cur = Cursor::start(&source);
        let ghost mut emitted: Seq<SpecToken> = Seq::empty();
        proof {
            lemma_prepend_nothing(scan(source@));
        }
        while cur.pos() < n
            invariant
                source@ == self@,
                n == source@.len(),
                cur.wf(source@),
                tokens@.len() == emitted.len(),
                forall|i: int| 0 <= i < tokens@.len() ==> (#[trigger] tokens@[i])@ == emitted[i],
                scan(source@) == prepend(emitted, scan_from(source@, cur.pos() as int)),
            decreases n - cur.pos(),
        {
            proof {
                lemma_step_advances(source@, cur.pos() as int);
            }
            match next_token(&source, cur) {
                Ok((Some(token), after)) => {
                    tokens.push(token);
                    proof {
                        lemma_prepend_twice(
                            emitted,
                            seq![token@],
                            scan_from(source@, after.pos() as int),
                        );
                        emitted = emitted + seq![token@];
                    }
                    cur = after;
                },
                Ok((None, after)) => {
                    cur = after;
                },
                Err(e) => {
                    return Err(e);
                },
            }
        }
        tokens.push(Token::Eof);
        proof {
            let expected = emitted + seq![SpecToken::Eof];
            assert(scan(self@) == Ok::<Seq<SpecToken>, Failure>(expected));
            lemma_scan_ends_with_end_marker(self@);
            lemma_scan_yields_well_formed(self@);
            assert forall|i: int| 0 <= i < tokens@.len() - 1 implies tokens@[i] != Token::Eof by {
                assert(tokens@[i]@ == expected[i]);
            }
            assert forall|i: int| 0 <= i < tokens@.len() implies well_formed(
                (#[trigger] tokens@[i])@,
            ) by {
                assert(tokens@[i]@ == expected[i]);
            }
        }
        Ok(tokens)
    }
}

} // verus!
