use loxide::{ErrorKind, ScanError, Token, Tokenizer};

fn failure(script: &str) -> ScanError {
    Tokenizer::new(script).tokenize().unwrap_err()
}

#[test]
fn unterminated_string_is_fatal() {
    let result = Tokenizer::new("\"abc").tokenize();
    assert_eq!(result, Err(ScanError { kind: ErrorKind::UnterminatedString, line: 0 }));
    assert_eq!(failure("\"").kind, ErrorKind::UnterminatedString);
    assert_eq!(failure("+ - \"abc").kind, ErrorKind::UnterminatedString);
    assert_eq!(failure("\"a\" \"b").kind, ErrorKind::UnterminatedString);
}

#[test]
fn unexpected_character_is_fatal() {
    let result = Tokenizer::new("@").tokenize();
    assert_eq!(result, Err(ScanError { kind: ErrorKind::UnexpectedCharacter, line: 0 }));
    assert_eq!(failure("#").kind, ErrorKind::UnexpectedCharacter);
    assert_eq!(failure("a ? b").kind, ErrorKind::UnexpectedCharacter);
    assert_eq!(failure("'x'").kind, ErrorKind::UnexpectedCharacter);
    assert_eq!(failure("\u{e9}").kind, ErrorKind::UnexpectedCharacter);
    assert_eq!(failure("\u{0}").kind, ErrorKind::UnexpectedCharacter);
}

#[test]
fn number_with_two_dots_is_fatal() {
    let result = Tokenizer::new("1.2.3").tokenize();
    assert_eq!(result, Err(ScanError { kind: ErrorKind::InvalidNumberLiteral, line: 0 }));
    assert_eq!(failure("1..2").kind, ErrorKind::InvalidNumberLiteral);
    assert_eq!(failure("1..").kind, ErrorKind::InvalidNumberLiteral);
    assert_eq!(failure("x = 10.0.0;").kind, ErrorKind::InvalidNumberLiteral);
    assert!("1.2.3".parse::<f32>().is_err());
    assert!("1..".parse::<f32>().is_err());
}

#[test]
fn error_line_counts_the_newlines_before_it() {
    assert_eq!(failure("@"), ScanError::new(ErrorKind::UnexpectedCharacter, 0));
    assert_eq!(failure("\n@"), ScanError::new(ErrorKind::UnexpectedCharacter, 1));
    assert_eq!(failure("a\nb\nc @"), ScanError::new(ErrorKind::UnexpectedCharacter, 2));
    assert_eq!(failure("\r\n\r\n@"), ScanError::new(ErrorKind::UnexpectedCharacter, 2));
    assert_eq!(
        failure("// one\n// two\n1.2.3"),
        ScanError::new(ErrorKind::InvalidNumberLiteral, 2)
    );
    assert_eq!(failure("1.2.3\n"), ScanError::new(ErrorKind::InvalidNumberLiteral, 0));
    assert_eq!(failure("@\n\n"), ScanError::new(ErrorKind::UnexpectedCharacter, 0));
}

#[test]
fn newlines_inside_a_string_literal_count_as_lines() {
    assert_eq!(failure("\"one\ntwo\" @"), ScanError::new(ErrorKind::UnexpectedCharacter, 1));
    assert_eq!(failure("\"one\ntwo"), ScanError::new(ErrorKind::UnterminatedString, 1));
    assert_eq!(failure("\n\"a\n\nb"), ScanError::new(ErrorKind::UnterminatedString, 3));
    assert_eq!(failure("\"a\nb\"\n\"c\nd\ne"), ScanError::new(ErrorKind::UnterminatedString, 4));
}

#[test]
fn unterminated_string_reports_the_last_line() {
    assert_eq!(failure("\"abc\n"), ScanError::new(ErrorKind::UnterminatedString, 1));
    assert_eq!(
        failure("x\n\"abc\n// not a comment\n"),
        ScanError::new(ErrorKind::UnterminatedString, 3)
    );
}

#[test]
fn scan_stops_at_the_first_error() {
    assert_eq!(failure("@ \"abc"), ScanError::new(ErrorKind::UnexpectedCharacter, 0));
    assert_eq!(failure("1.2.3 @"), ScanError::new(ErrorKind::InvalidNumberLiteral, 0));
    assert_eq!(failure("\n\"abc\" 1..2 @"), ScanError::new(ErrorKind::InvalidNumberLiteral, 1));
}

#[test]
fn error_in_a_comment_or_string_is_none() {
    assert_eq!(Tokenizer::new("// @ 1.2.3 \"").tokenize(), Ok(vec![Token::Eof]));
    assert_eq!(
        Tokenizer::new("\"@ 1.2.3\"").tokenize(),
        Ok(vec![Token::String("@ 1.2.3"), Token::Eof])
    );
}

#[test]
fn error_carries_kind_and_line() {
    let error = ScanError::new(ErrorKind::InvalidNumberLiteral, 7);
    assert_eq!(error.kind, ErrorKind::InvalidNumberLiteral);
    assert_eq!(error.line, 7);
    assert_ne!(error, ScanError::new(ErrorKind::InvalidNumberLiteral, 8));
    assert_ne!(error, ScanError::new(ErrorKind::UnexpectedCharacter, 7));
}
