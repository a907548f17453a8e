//! Properties of the grammar that hold of every source text.

use crate::error::ErrorKind;
use crate::grammar::{
    has_at, is_alpha, is_blank, is_decimal, is_digit, keyword, lemma_occurrences_subrange,
    lemma_run_end_bounds, lemma_run_end_maximal, lemma_run_end_unique, lemma_step_advances,
    line_of, occurrences, run_end, scan, scan_from, step, word_token, Failure, Run, Step,
};
use crate::token::SpecToken;
use vstd::prelude::*;

verus! {

/// Whether `tokens` ends with the end marker and holds it nowhere else.
pub open spec fn closed_by_end_marker(tokens: Seq<SpecToken>) -> bool {
    &&& tokens.len() > 0
    &&& tokens.last() == SpecToken::Eof
    &&& forall|i: int| 0 <= i < tokens.len() - 1 ==> tokens[i] != SpecToken::Eof
}

/// No step emits the end marker.
pub proof fn lemma_step_never_emits_end_marker(src: Seq<char>, pos: int)
    requires
        0 <= pos < src.len(),
    ensures
        step(src, pos) matches Step::Emit { token, .. } ==> token != SpecToken::Eof,
{
}

/// The tokens of a successful scan, from whatever position it starts, end
/// with the end marker and hold it exactly once.
pub proof fn lemma_scan_from_ends_with_end_marker(src: Seq<char>, pos: int)
    ensures
        scan_from(src, pos) matches Ok(tokens) ==> closed_by_end_marker(tokens),
    decreases src.len() - pos,
{
    if 0 <= pos < src.len() {
        lemma_step_advances(src, pos);
        lemma_step_never_emits_end_marker(src, pos);
        match step(src, pos) {
            Step::Skip { next } => {
                lemma_scan_from_ends_with_end_marker(src, next);
            },
            Step::Emit { token, next } => {
                lemma_scan_from_ends_with_end_marker(src, next);
            },
            Step::Fail { .. } => {},
        }
    }
}

/// The tokens of a successful scan end with the end marker and hold it
/// exactly once.
pub proof fn lemma_scan_ends_with_end_marker(src: Seq<char>)
    ensures
        scan(src) matches Ok(tokens) ==> closed_by_end_marker(tokens),
{
    lemma_scan_from_ends_with_end_marker(src, 0);
}

/// The positions at which the tokens of a scan from `pos` begin, in the
/// order in which the scan meets them.
pub open spec fn token_starts(src: Seq<char>, pos: int) -> Seq<int>
    decreases src.len() - pos,
    via token_starts_decreases
{
    if 0 <= pos < src.len() {
        match step(src, pos) {
            Step::Skip { next } => token_starts(src, next),
            Step::Emit { token, next } => seq![pos] + token_starts(src, next),
            Step::Fail { .. } => Seq::empty(),
        }
    } else {
        Seq::empty()
    }
}

#[via_fn]
proof fn token_starts_decreases(src: Seq<char>, pos: int) {
    if 0 <= pos < src.len() {
        lemma_step_advances(src, pos);
    }
}

/// Whether the step at position `start` emits `token`.
pub open spec fn emits(src: Seq<char>, start: int, token: SpecToken) -> bool {
    &&& 0 <= start < src.len()
    &&& step(src, start) matches Step::Emit { token: emitted, .. }
    &&& emitted == token
}

/// The tokens of a successful scan stand in the order of the text: each
/// token but the end marker is what the step at its starting position
/// emits, and the starting positions increase from token to token.
pub proof fn lemma_tokens_follow_the_text(src: Seq<char>, pos: int)
    requires
        0 <= pos,
    ensures
        scan_from(src, pos) matches Ok(tokens) ==> {
            let starts = token_starts(src, pos);
            &&& tokens.len() == starts.len() + 1
            &&& forall|k: int|
                0 <= k < starts.len() ==> pos <= #[trigger] starts[k] && emits(
                    src,
                    starts[k],
                    tokens[k],
                )
            &&& forall|j: int, k: int|
                0 <= j < k < starts.len() ==> #[trigger] starts[j] < #[trigger] starts[k]
        },
    decreases src.len() - pos,
{
    if pos < src.len() {
        lemma_step_advances(src, pos);
        match step(src, pos) {
            Step::Skip { next } => {
                lemma_tokens_follow_the_text(src, next);
            },
            Step::Emit { token, next } => {
                lemma_tokens_follow_the_text(src, next);
                if let Ok(rest) = scan_from(src, next) {
                    let tokens = seq![token] + rest;
                    let later = token_starts(src, next);
                    let starts = seq![pos] + later;
                    assert forall|k: int| 0 <= k < starts.len() implies pos <= #[trigger] starts[k]
                        && emits(src, starts[k], tokens[k]) by {
                        if k > 0 {
                            assert(starts[k] == later[k - 1]);
                            assert(tokens[k] == rest[k - 1]);
                        }
                    }
                    assert forall|j: int, k: int|
                        0 <= j < k < starts.len() implies #[trigger] starts[j]
                        < #[trigger] starts[k] by {
                        assert(starts[k] == later[k - 1]);
                        if j > 0 {
                            assert(starts[j] == later[j - 1]);
                        }
                    }
                }
            },
            Step::Fail { .. } => {},
        }
    }
}

/// Whether the text that a literal token carries is what its kind allows.
///
/// * A number is one or more digits, optionally followed by a dot and
///   further digits: it begins with a digit, holds digits and dots only, and
///   at most one dot.
/// * A string holds no double quote.
/// * An identifier begins with a letter or underscore, holds letters, digits
///   and underscores only, and is not a reserved word.
///
/// Tokens without text are always well formed.
pub open spec fn well_formed(token: SpecToken) -> bool {
    match token {
        SpecToken::Number(text) => {
            &&& text.len() > 0
            &&& is_digit(text[0])
            &&& forall|i: int| 0 <= i < text.len() ==> Run::Number.admits(#[trigger] text[i])
            &&& is_decimal(text)
        },
        SpecToken::String(text) => forall|i: int| 0 <= i < text.len() ==> #[trigger] text[i] != '"',
        SpecToken::Identifier(text) => {
            &&& text.len() > 0
            &&& is_alpha(text[0])
            &&& forall|i: int| 0 <= i < text.len() ==> Run::Word.admits(#[trigger] text[i])
            &&& keyword(text) is None
        },
        _ => true,
    }
}

/// Every token that a step emits is well formed.
pub proof fn lemma_step_emits_well_formed(src: Seq<char>, pos: int)
    requires
        0 <= pos < src.len(),
    ensures
        step(src, pos) matches Step::Emit { token, .. } ==> well_formed(token),
{
    lemma_run_end_bounds(src, pos + 1, Run::Text);
    lemma_run_end_maximal(src, pos + 1, Run::Text);
    lemma_run_end_bounds(src, pos, Run::Number);
    lemma_run_end_maximal(src, pos, Run::Number);
    lemma_run_end_bounds(src, pos, Run::Word);
    lemma_run_end_maximal(src, pos, Run::Word);
}

/// Every token of a successful scan, from whatever position it starts, is
/// well formed.
pub proof fn lemma_scan_from_yields_well_formed(src: Seq<char>, pos: int)
    ensures
        scan_from(src, pos) matches Ok(tokens) ==> forall|i: int|
            0 <= i < tokens.len() ==> well_formed(#[trigger] tokens[i]),
    decreases src.len() - pos,
{
    if 0 <= pos < src.len() {
        lemma_step_advances(src, pos);
        lemma_step_emits_well_formed(src, pos);
        match step(src, pos) {
            Step::Skip { next } => {
                lemma_scan_from_yields_well_formed(src, next);
            },
            Step::Emit { token, next } => {
                lemma_scan_from_yields_well_formed(src, next);
            },
            Step::Fail { .. } => {},
        }
    }
}

/// Every token of a successful scan is well formed.
pub proof fn lemma_scan_yields_well_formed(src: Seq<char>)
    ensures
        scan(src) matches Ok(tokens) ==> forall|i: int|
            0 <= i < tokens.len() ==> well_formed(#[trigger] tokens[i]),
{
    lemma_scan_from_yields_well_formed(src, 0);
}

/// A text whose first step emits a token and ends behind the text scans to
/// that token and the end marker.
proof fn lemma_alone(src: Seq<char>, token: SpecToken)
    requires
        src.len() > 0,
        step(src, 0) == (Step::Emit { token, next: src.len() as int }),
    ensures
        scan(src) == Ok::<Seq<SpecToken>, Failure>(seq![token, SpecToken::Eof]),
{
    assert(scan_from(src, src.len() as int) == Ok::<Seq<SpecToken>, Failure>(
        seq![SpecToken::Eof],
    ));
    assert(seq![token] + seq![SpecToken::Eof] =~= seq![token, SpecToken::Eof]);
}

/// A text between double quotes scans to the string token that carries it,
/// whatever the text holds other than a double quote.
pub proof fn lemma_quoted_text_scans_to_its_string(text: Seq<char>)
    requires
        forall|i: int| 0 <= i < text.len() ==> #[trigger] text[i] != '"',
    ensures
        scan(seq!['"'] + text + seq!['"']) == Ok::<Seq<SpecToken>, Failure>(
            seq![SpecToken::String(text), SpecToken::Eof],
        ),
{
    let src = seq!['"'] + text + seq!['"'];
    let close = (text.len() + 1) as int;
    lemma_run_end_unique(src, 1, close, Run::Text);
    assert(src.subrange(1, close) =~= text);
    assert(step(src, 0) == Step::Emit { token: SpecToken::String(text), next: close + 1 });
    lemma_alone(src, SpecToken::String(text));
}

/// Digits, optionally followed by a dot and further digits, scan to the
/// number token that carries them.
pub proof fn lemma_decimal_scans_to_its_number(text: Seq<char>)
    requires
        well_formed(SpecToken::Number(text)),
    ensures
        scan(text) == Ok::<Seq<SpecToken>, Failure>(
            seq![SpecToken::Number(text), SpecToken::Eof],
        ),
{
    lemma_run_end_unique(text, 0, text.len() as int, Run::Number);
    assert(text.subrange(0, text.len() as int) =~= text);
    lemma_alone(text, SpecToken::Number(text));
}

/// A word (a letter or underscore, then letters, digits and underscores)
/// scans to its reserved word, or else to the identifier of that name.
pub proof fn lemma_word_scans_to_its_token(text: Seq<char>)
    requires
        text.len() > 0,
        is_alpha(text[0]),
        forall|i: int| 0 <= i < text.len() ==> Run::Word.admits(#[trigger] text[i]),
    ensures
        scan(text) == Ok::<Seq<SpecToken>, Failure>(seq![word_token(text), SpecToken::Eof]),
{
    lemma_run_end_unique(text, 0, text.len() as int, Run::Word);
    assert(text.subrange(0, text.len() as int) =~= text);
    lemma_alone(text, word_token(text));
}

/// A blank yields no token: the scan goes on behind it.
pub proof fn lemma_blank_is_skipped(src: Seq<char>, pos: int)
    requires
        0 <= pos < src.len(),
        is_blank(src[pos]),
    ensures
        scan_from(src, pos) == scan_from(src, pos + 1),
{
}

/// A line comment yields no token, whatever it holds: the scan goes on at
/// the newline that ends the comment, or at the end of the text if there is
/// none.
pub proof fn lemma_comment_is_skipped(src: Seq<char>, pos: int)
    requires
        has_at(src, pos, '/'),
        has_at(src, pos + 1, '/'),
    ensures
        ({
            let end = run_end(src, pos + 2, Run::Comment);
            &&& scan_from(src, pos) == scan_from(src, end)
            &&& pos + 2 <= end <= src.len()
            &&& forall|i: int| pos + 2 <= i < end ==> src[i] != '\n'
            &&& end < src.len() ==> src[end] == '\n'
        }),
{
    lemma_run_end_bounds(src, pos + 2, Run::Comment);
    lemma_run_end_maximal(src, pos + 2, Run::Comment);
}

/// A text that holds nothing but blanks from `pos` on yields, from there,
/// only the end marker.
pub proof fn lemma_blanks_yield_no_token(src: Seq<char>, pos: int)
    requires
        0 <= pos,
        forall|i: int| pos <= i < src.len() ==> is_blank(#[trigger] src[i]),
    ensures
        scan_from(src, pos) == Ok::<Seq<SpecToken>, Failure>(seq![SpecToken::Eof]),
    decreases src.len() - pos,
{
    if pos < src.len() {
        lemma_blanks_yield_no_token(src, pos + 1);
    }
}

/// A text of blanks alone yields only the end marker.
pub proof fn lemma_blank_text_yields_only_end_marker(src: Seq<char>)
    requires
        forall|i: int| 0 <= i < src.len() ==> is_blank(#[trigger] src[i]),
    ensures
        scan(src) == Ok::<Seq<SpecToken>, Failure>(seq![SpecToken::Eof]),
{
    lemma_blanks_yield_no_token(src, 0);
}

/// A string literal moves the scanner on by as many lines as there are
/// newlines in it, whether or not it is closed: behind a closed literal the
/// line is that of the opening quote plus the newlines of the literal's
/// text, and an unterminated literal is reported on the line of the opening
/// quote plus the newlines of all that follows the quote.
pub proof fn lemma_string_literal_counts_its_newlines(src: Seq<char>, pos: int)
    requires
        has_at(src, pos, '"'),
    ensures
        match step(src, pos) {
            Step::Emit { token, next } => {
                &&& token matches SpecToken::String(text)
                &&& line_of(src, next) == line_of(src, pos) + occurrences(
                    text,
                    '\n',
                    text.len() as int,
                )
            },
            Step::Fail { kind, at } => {
                &&& kind == ErrorKind::UnterminatedString
                &&& at == src.len()
                &&& line_of(src, at) == line_of(src, pos) + occurrences(
                    src.subrange(pos + 1, at),
                    '\n',
                    at - (pos + 1),
                )
            },
            Step::Skip { .. } => false,
        },
{
    let close = run_end(src, pos + 1, Run::Text);
    lemma_run_end_bounds(src, pos + 1, Run::Text);
    lemma_run_end_maximal(src, pos + 1, Run::Text);
    lemma_occurrences_subrange(src, '\n', pos + 1, close);
}

/// A scan that fails for an unterminated string fails at the end of the
/// text: the line reported for it counts every newline of the text.
pub proof fn lemma_unterminated_string_is_found_at_the_end(src: Seq<char>, pos: int)
    ensures
        scan_from(src, pos) matches Err(failure) ==> (failure.kind
            == ErrorKind::UnterminatedString ==> failure.at == src.len()),
    decreases src.len() - pos,
{
    if 0 <= pos < src.len() {
        lemma_step_advances(src, pos);
        match step(src, pos) {
            Step::Skip { next } => {
                lemma_unterminated_string_is_found_at_the_end(src, next);
            },
            Step::Emit { token, next } => {
                lemma_unterminated_string_is_found_at_the_end(src, next);
            },
            Step::Fail { .. } => {},
        }
    }
}

} // verus!
