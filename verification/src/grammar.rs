//! The grammar: what a scan of a given text yields.
//!
//! Everything here is specification. A source text is a `Seq<char>`, a
//! position is an index into it, and [`scan`] maps a text to the tokens it
//! spells or to the first failure in it. The text is read left to right, one
//! [`step`] at a time; a step looks at the character under the cursor and
//! never further ahead than the end of the token that starts there.

use crate::error::ErrorKind;
use crate::token::SpecToken;
use vstd::prelude::*;

verus! {

/// An ASCII decimal digit.
pub open spec fn is_digit(c: char) -> bool {
    '0' <= c <= '9'
}

/// An ASCII letter or the underscore: what a word may begin with.
pub open spec fn is_alpha(c: char) -> bool {
    'a' <= c <= 'z' || 'A' <= c <= 'Z' || c == '_'
}

/// A character that separates tokens and yields none: space, carriage return,
/// tab or newline.
pub open spec fn is_blank(c: char) -> bool {
    c == ' ' || c == '\r' || c == '\t' || c == '\n'
}

/// The kinds of character run that make up the variable-length parts of the
/// grammar.
#[derive(Clone, Copy, Debug, PartialEq, Eq, Structural)]
pub enum Run {
    /// The rest of a line comment: anything but a newline.
    Comment,
    /// The body of a string literal: anything but a double quote.
    Text,
    /// A numeric literal: digits and dots.
    Number,
    /// A word: letters, digits and underscores.
    Word,
}

impl Run {
    /// Whether a run of this kind may go on with the character `c`.
    pub open spec fn admits(self, c: char) -> bool {
        match self {
            Run::Comment => c != '\n',
            Run::Text => c != '"',
            Run::Number => is_digit(c) || c == '.',
            Run::Word => is_alpha(c) || is_digit(c),
        }
    }
}

/// The position just past the longest run of the given kind that starts at
/// `from`: the first position at or after `from` whose character the run does
/// not admit, or the length of the text if there is none.
pub open spec fn run_end(src: Seq<char>, from: int, run: Run) -> int
    decreases src.len() - from,
{
    if 0 <= from < src.len() && run.admits(src[from]) {
        run_end(src, from + 1, run)
    } else {
        from
    }
}

/// How often `c` occurs among the first `upto` characters of `src`.
pub open spec fn occurrences(src: Seq<char>, c: char, upto: int) -> nat
    decreases upto,
{
    if 0 < upto <= src.len() {
        occurrences(src, c, upto - 1) + if src[upto - 1] == c {
            1nat
        } else {
            0nat
        }
    } else {
        0
    }
}

/// The line of position `pos`: the number of newline characters before it.
/// The first line is line zero.
pub open spec fn line_of(src: Seq<char>, pos: int) -> nat {
    occurrences(src, '\n', pos)
}

/// Whether a run of digits and dots spells a number: it holds at most one dot.
///
/// Of the runs that the scanner forms, which begin with a digit, these are
/// the ones made of digits, optionally followed by a dot and further digits.
/// They are also the ones that `str::parse` reads as a floating-point
/// number, so the text of a number token can always be converted.
pub open spec fn is_decimal(text: Seq<char>) -> bool {
    occurrences(text, '.', text.len() as int) <= 1
}

/// The token of a punctuation character that always stands alone.
pub open spec fn punctuation(c: char) -> Option<SpecToken> {
    if c == '(' {
        Some(SpecToken::LeftParen)
    } else if c == ')' {
        Some(SpecToken::RightParen)
    } else if c == '{' {
        Some(SpecToken::LeftBrace)
    } else if c == '}' {
        Some(SpecToken::RightBrace)
    } else if c == ',' {
        Some(SpecToken::Comma)
    } else if c == ';' {
        Some(SpecToken::Semicolon)
    } else if c == '.' {
        Some(SpecToken::Dot)
    } else if c == '-' {
        Some(SpecToken::Minus)
    } else if c == '+' {
        Some(SpecToken::Plus)
    } else if c == '*' {
        Some(SpecToken::Star)
    } else {
        None
    }
}

/// For a character that begins an operator of one or two characters, the
/// token of the character alone and the token of the character followed
/// by `=`.
pub open spec fn operator(c: char) -> Option<(SpecToken, SpecToken)> {
    if c == '!' {
        Some((SpecToken::Bang, SpecToken::BangEqual))
    } else if c == '=' {
        Some((SpecToken::Equal, SpecToken::EqualEqual))
    } else if c == '>' {
        Some((SpecToken::Greater, SpecToken::GreaterEqual))
    } else if c == '<' {
        Some((SpecToken::Less, SpecToken::LessEqual))
    } else {
        None
    }
}

/// The reserved word that `word` spells, if any. The comparison is exact:
/// reserved words are lower case.
pub open spec fn keyword(word: Seq<char>) -> Option<SpecToken> {
    if word == "and"@ {
        Some(SpecToken::And)
    } else if word == "class"@ {
        Some(SpecToken::Class)
    } else if word == "else"@ {
        Some(SpecToken::Else)
    } else if word == "false"@ {
        Some(SpecToken::False)
    } else if word == "fun"@ {
        Some(SpecToken::Fun)
    } else if word == "for"@ {
        Some(SpecToken::For)
    } else if word == "if"@ {
        Some(SpecToken::If)
    } else if word == "nil"@ {
        Some(SpecToken::Nil)
    } else if word == "or"@ {
        Some(SpecToken::Or)
    } else if word == "print"@ {
        Some(SpecToken::Print)
    } else if word == "return"@ {
        Some(SpecToken::Return)
    } else if word == "super"@ {
        Some(SpecToken::Super)
    } else if word == "this"@ {
        Some(SpecToken::This)
    } else if word == "true"@ {
        Some(SpecToken::True)
    } else if word == "var"@ {
        Some(SpecToken::Var)
    } else if word == "while"@ {
        Some(SpecToken::While)
    } else {
        None
    }
}

/// The token of a word: its reserved word, or else an identifier with the
/// word as its name.
pub open spec fn word_token(word: Seq<char>) -> SpecToken {
    match keyword(word) {
        Some(token) => token,
        None => SpecToken::Identifier(word),
    }
}

/// Whether the character at `pos` exists and is `c`.
pub open spec fn has_at(src: Seq<char>, pos: int, c: char) -> bool {
    0 <= pos < src.len() && src[pos] == c
}

/// What the scanner does at one position.
pub enum Step {
    /// Nothing is emitted; the scan goes on at `next`.
    Skip { next: int },
    /// `token` is emitted; the scan goes on at `next`.
    Emit { token: SpecToken, next: int },
    /// The scan fails; `at` is the position the scanner had reached when it
    /// found out.
    Fail { kind: ErrorKind, at: int },
}

/// The step taken at position `pos`, decided by the character there.
///
/// * A blank is skipped.
/// * Punctuation yields its token.
/// * `!`, `=`, `>` and `<` yield their two-character token if `=` follows,
///   and are otherwise taken alone, leaving the next character in place.
/// * `//` begins a comment that runs up to, not including, the next newline.
///   Any other `/` is a slash.
/// * `"` begins a string literal that runs to the next `"`. Its token
///   carries the text between the quotes, unchanged. Without a closing quote
///   the scan fails at the end of the text.
/// * A digit begins the longest run of digits and dots. The run is a number
///   if it holds at most one dot; otherwise the scan fails.
/// * A letter or underscore begins the longest run of letters, digits and
///   underscores: a reserved word or an identifier.
/// * Anything else fails the scan where it stands.
pub open spec fn step(src: Seq<char>, pos: int) -> Step
    recommends
        0 <= pos < src.len(),
{
    let c = src[pos];
    if is_blank(c) {
        Step::Skip { next: pos + 1 }
    } else if let Some(token) = punctuation(c) {
        Step::Emit { token, next: pos + 1 }
    } else if let Some((alone, with_equal)) = operator(c) {
        if has_at(src, pos + 1, '=') {
            Step::Emit { token: with_equal, next: pos + 2 }
        } else {
            Step::Emit { token: alone, next: pos + 1 }
        }
    } else if c == '/' {
        if has_at(src, pos + 1, '/') {
            Step::Skip { next: run_end(src, pos + 2, Run::Comment) }
        } else {
            Step::Emit { token: SpecToken::Slash, next: pos + 1 }
        }
    } else if c == '"' {
        let close = run_end(src, pos + 1, Run::Text);
        if close < src.len() {
            Step::Emit { token: SpecToken::String(src.subrange(pos + 1, close)), next: close + 1 }
        } else {
            Step::Fail { kind: ErrorKind::UnterminatedString, at: src.len() as int }
        }
    } else if is_digit(c) {
        let end = run_end(src, pos, Run::Number);
        let text = src.subrange(pos, end);
        if is_decimal(text) {
            Step::Emit { token: SpecToken::Number(text), next: end }
        } else {
            Step::Fail { kind: ErrorKind::InvalidNumberLiteral, at: end }
        }
    } else if is_alpha(c) {
        let end = run_end(src, pos, Run::Word);
        Step::Emit { token: word_token(src.subrange(pos, end)), next: end }
    } else {
        Step::Fail { kind: ErrorKind::UnexpectedCharacter, at: pos }
    }
}

/// A failed scan: what went wrong, and the position the scanner had reached
/// when it found out. The line reported for it is [`line_of`] that position.
pub struct Failure {
    pub kind: ErrorKind,
    pub at: int,
}

/// The result of putting the tokens `emitted` in front of the outcome `rest`.
pub open spec fn prepend(emitted: Seq<SpecToken>, rest: Result<Seq<SpecToken>, Failure>) -> Result<
    Seq<SpecToken>,
    Failure,
> {
    match rest {
        Ok(tokens) => Ok(emitted + tokens),
        Err(failure) => Err(failure),
    }
}

/// The outcome of scanning `src` from position `pos` on: the tokens from
/// there to the end of the text, closed by the end marker, or the first
/// failure.
pub open spec fn scan_from(src: Seq<char>, pos: int) -> Result<Seq<SpecToken>, Failure>
    decreases src.len() - pos,
    via scan_from_decreases
{
    if 0 <= pos < src.len() {
        match step(src, pos) {
            Step::Skip { next } => scan_from(src, next),
            Step::Emit { token, next } => prepend(seq![token], scan_from(src, next)),
            Step::Fail { kind, at } => Err(Failure { kind, at }),
        }
    } else {
        Ok(seq![SpecToken::Eof])
    }
}

#[via_fn]
proof fn scan_from_decreases(src: Seq<char>, pos: int) {
    if 0 <= pos < src.len() {
        lemma_step_advances(src, pos);
    }
}

/// The outcome of scanning the whole of `src`.
pub open spec fn scan(src: Seq<char>) -> Result<Seq<SpecToken>, Failure> {
    scan_from(src, 0)
}

/// Putting no tokens in front of an outcome leaves it as it is.
pub proof fn lemma_prepend_nothing(rest: Result<Seq<SpecToken>, Failure>)
    ensures
        prepend(Seq::empty(), rest) == rest,
{
    if let Ok(tokens) = rest {
        assert(Seq::<SpecToken>::empty() + tokens =~= tokens);
    }
}

/// Putting `first` in front of the result of putting `second` in front is
/// putting both in front, in that order.
pub proof fn lemma_prepend_twice(
    first: Seq<SpecToken>,
    second: Seq<SpecToken>,
    rest: Result<Seq<SpecToken>, Failure>,
)
    ensures
        prepend(first, prepend(second, rest)) == prepend(first + second, rest),
{
    if let Ok(tokens) = rest {
        assert(first + (second + tokens) =~= first + second + tokens);
    }
}

/// A run ends at or after its start, and within the text if it starts there.
pub proof fn lemma_run_end_bounds(src: Seq<char>, from: int, run: Run)
    ensures
        from <= run_end(src, from, run),
        from <= src.len() ==> run_end(src, from, run) <= src.len(),
    decreases src.len() - from,
{
    if 0 <= from < src.len() && run.admits(src[from]) {
        lemma_run_end_bounds(src, from + 1, run);
    }
}

/// A run is made of characters that its kind admits, and it is the longest
/// such: the character after it, if there is one, is not admitted.
pub proof fn lemma_run_end_maximal(src: Seq<char>, from: int, run: Run)
    requires
        0 <= from <= src.len(),
    ensures
        forall|i: int| from <= i < run_end(src, from, run) ==> run.admits(#[trigger] src[i]),
        run_end(src, from, run) < src.len() ==> !run.admits(src[run_end(src, from, run)]),
    decreases src.len() - from,
{
    if from < src.len() && run.admits(src[from]) {
        lemma_run_end_maximal(src, from + 1, run);
    }
}

/// A stretch of admitted characters that cannot be extended is the run: if
/// the run admits every character from `from` up to `end`, and `end` is the
/// end of the text or holds a character that the run does not admit, then
/// the run that starts at `from` ends at `end`.
pub proof fn lemma_run_end_unique(src: Seq<char>, from: int, end: int, run: Run)
    requires
        0 <= from <= end <= src.len(),
        forall|i: int| from <= i < end ==> run.admits(#[trigger] src[i]),
        end < src.len() ==> !run.admits(src[end]),
    ensures
        run_end(src, from, run) == end,
    decreases end - from,
{
    if from < end {
        lemma_run_end_unique(src, from + 1, end, run);
    }
}

/// Positions with no newline between them are on the same line.
pub proof fn lemma_line_unchanged(src: Seq<char>, from: int, to: int)
    requires
        0 <= from <= to <= src.len(),
        forall|i: int| from <= i < to ==> #[trigger] src[i] != '\n',
    ensures
        line_of(src, to) == line_of(src, from),
    decreases to - from,
{
    if from < to {
        lemma_line_unchanged(src, from, to - 1);
    }
}

/// Every step moves forward and stays within the text.
pub proof fn lemma_step_advances(src: Seq<char>, pos: int)
    requires
        0 <= pos < src.len(),
    ensures
        match step(src, pos) {
            Step::Skip { next } => pos < next <= src.len(),
            Step::Emit { token, next } => pos < next <= src.len(),
            Step::Fail { kind, at } => pos <= at <= src.len(),
        },
{
    lemma_run_end_bounds(src, pos + 2, Run::Comment);
    lemma_run_end_bounds(src, pos + 1, Run::Text);
    lemma_run_end_bounds(src, pos + 1, Run::Number);
    lemma_run_end_bounds(src, pos + 1, Run::Word);
}

/// Among the first `upto` characters, no character occurs more than `upto`
/// times.
pub proof fn lemma_occurrences_bound(src: Seq<char>, c: char, upto: int)
    ensures
        occurrences(src, c, upto) <= if upto < 0 {
            0
        } else {
            upto
        },
    decreases upto,
{
    if 0 < upto <= src.len() {
        lemma_occurrences_bound(src, c, upto - 1);
    }
}

/// The occurrences of a character within a part of the text are those before
/// the part's end less those before its start.
pub proof fn lemma_occurrences_subrange(src: Seq<char>, c: char, from: int, to: int)
    requires
        0 <= from <= to <= src.len(),
    ensures
        occurrences(src.subrange(from, to), c, to - from) == occurrences(src, c, to) - occurrences(
            src,
            c,
            from,
        ),
    decreases to - from,
{
    if from < to {
        lemma_occurrences_subrange(src, c, from, to - 1);
        lemma_occurrences_prefix(
            src.subrange(from, to),
            src.subrange(from, to - 1),
            c,
            to - 1 - from,
        );
    }
}

/// How often a character occurs among the first `upto` characters depends on
/// those characters alone.
pub proof fn lemma_occurrences_prefix(a: Seq<char>, b: Seq<char>, c: char, upto: int)
    requires
        0 <= upto <= a.len(),
        upto <= b.len(),
        forall|i: int| 0 <= i < upto ==> a[i] == b[i],
    ensures
        occurrences(a, c, upto) == occurrences(b, c, upto),
    decreases upto,
{
    if 0 < upto {
        lemma_occurrences_prefix(a, b, c, upto - 1);
    }
}

} // verus!
