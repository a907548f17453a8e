use loxide::{Token, Tokenizer};

fn scan(script: &str) -> Vec<Token<'_>> {
    Tokenizer::new(script).tokenize().unwrap()
}

fn number(token: Option<Token<'_>>) -> f32 {
    match token {
        Some(Token::Number(digits)) => digits.parse::<f32>().unwrap(),
        other => panic!("expected a number, found {:?}", other),
    }
}

#[test]
fn tokenize() {
    let script = "// Comment test\n\
                       (( )){}                     // Grouping\n\
                       ! * + - / = < > == <= >= != // Operators\n\
                       \"Hello World!\"              // String\n\
                       1234                        // Number\n\
                       12.34                       // Number";

    println!("{}", script);
    let tokenizer = Tokenizer::new(script);
    let mut tokens = tokenizer.tokenize().unwrap().into_iter();

    assert_eq!(tokens.next(), Some(Token::LeftParen));
    assert_eq!(tokens.next(), Some(Token::LeftParen));
    assert_eq!(tokens.next(), Some(Token::RightParen));
    assert_eq!(tokens.next(), Some(Token::RightParen));
    assert_eq!(tokens.next(), Some(Token::LeftBrace));
    assert_eq!(tokens.next(), Some(Token::RightBrace));

    assert_eq!(tokens.next(), Some(Token::Bang));
    assert_eq!(tokens.next(), Some(Token::Star));
    assert_eq!(tokens.next(), Some(Token::Plus));
    assert_eq!(tokens.next(), Some(Token::Minus));
    assert_eq!(tokens.next(), Some(Token::Slash));
    assert_eq!(tokens.next(), Some(Token::Equal));
    assert_eq!(tokens.next(), Some(Token::Less));
    assert_eq!(tokens.next(), Some(Token::Greater));
    assert_eq!(tokens.next(), Some(Token::EqualEqual));
    assert_eq!(tokens.next(), Some(Token::LessEqual));
    assert_eq!(tokens.next(), Some(Token::GreaterEqual));
    assert_eq!(tokens.next(), Some(Token::BangEqual));

    assert_eq!(tokens.next(), Some(Token::String("Hello World!")));

    assert_eq!(number(tokens.next()), 1234.);

    assert_eq!(number(tokens.next()), 12.34);

    assert_eq!(tokens.next(), Some(Token::Eof));
    assert_eq!(tokens.next(), None);
}

#[test]
fn empty_input_yields_only_the_end_marker() {
    assert_eq!(scan(""), vec![Token::Eof]);
}

#[test]
fn blanks_and_comments_yield_no_token() {
    assert_eq!(scan("   \n\t// comment\n"), vec![Token::Eof]);
    assert_eq!(scan(" \r\n\t \n"), vec![Token::Eof]);
    assert_eq!(scan("// no newline after this comment"), vec![Token::Eof]);
    assert_eq!(scan("//"), vec![Token::Eof]);
}

#[test]
fn comment_ends_at_the_newline() {
    assert_eq!(scan("// one\n+ // two\n-"), vec![Token::Plus, Token::Minus, Token::Eof]);
    assert_eq!(scan("+//-\n*"), vec![Token::Plus, Token::Star, Token::Eof]);
}

#[test]
fn operators_are_told_apart() {
    assert_eq!(
        scan("! != = == > >= < <="),
        vec![
            Token::Bang,
            Token::BangEqual,
            Token::Equal,
            Token::EqualEqual,
            Token::Greater,
            Token::GreaterEqual,
            Token::Less,
            Token::LessEqual,
            Token::Eof,
        ]
    );
}

#[test]
fn operators_without_blanks_between_them() {
    assert_eq!(
        scan("!===<=>"),
        vec![Token::BangEqual, Token::EqualEqual, Token::LessEqual, Token::Greater, Token::Eof]
    );
    assert_eq!(scan("=("), vec![Token::Equal, Token::LeftParen, Token::Eof]);
    assert_eq!(scan("<)"), vec![Token::Less, Token::RightParen, Token::Eof]);
    assert_eq!(scan("!!="), vec![Token::Bang, Token::BangEqual, Token::Eof]);
}

#[test]
fn operator_at_the_end_of_the_input_stands_alone() {
    assert_eq!(scan("!"), vec![Token::Bang, Token::Eof]);
    assert_eq!(scan("="), vec![Token::Equal, Token::Eof]);
    assert_eq!(scan(">"), vec![Token::Greater, Token::Eof]);
    assert_eq!(scan("<"), vec![Token::Less, Token::Eof]);
    assert_eq!(scan("/"), vec![Token::Slash, Token::Eof]);
}

#[test]
fn slash_is_not_a_comment_unless_doubled() {
    assert_eq!(scan("/ /"), vec![Token::Slash, Token::Slash, Token::Eof]);
    assert_eq!(scan("/*"), vec![Token::Slash, Token::Star, Token::Eof]);
    assert_eq!(scan("///"), vec![Token::Eof]);
}

#[test]
fn punctuation_each_yields_its_token() {
    assert_eq!(
        scan("(){},.-+;*"),
        vec![
            Token::LeftParen,
            Token::RightParen,
            Token::LeftBrace,
            Token::RightBrace,
            Token::Comma,
            Token::Dot,
            Token::Minus,
            Token::Plus,
            Token::Semicolon,
            Token::Star,
            Token::Eof,
        ]
    );
}

#[test]
fn grouping() {
    assert_eq!(
        scan("(( )){}"),
        vec![
            Token::LeftParen,
            Token::LeftParen,
            Token::RightParen,
            Token::RightParen,
            Token::LeftBrace,
            Token::RightBrace,
            Token::Eof,
        ]
    );
}

#[test]
fn string_literal_carries_the_text_between_the_quotes() {
    assert_eq!(scan("\"Hello World!\""), vec![Token::String("Hello World!"), Token::Eof]);
    assert_eq!(scan("\"\""), vec![Token::String(""), Token::Eof]);
    assert_eq!(scan("\"a\"\"b\""), vec![Token::String("a"), Token::String("b"), Token::Eof]);
}

#[test]
fn string_literal_is_taken_as_written() {
    assert_eq!(scan("\"a\\nb\""), vec![Token::String("a\\nb"), Token::Eof]);
    assert_eq!(scan("\"// not a comment\""), vec![Token::String("// not a comment"), Token::Eof]);
    assert_eq!(scan("\"one\ntwo\""), vec![Token::String("one\ntwo"), Token::Eof]);
    assert_eq!(scan("\"\\\" +"), vec![Token::String("\\"), Token::Plus, Token::Eof]);
}

#[test]
fn string_literal_may_hold_any_character() {
    assert_eq!(
        scan("\"gr\u{fc}\u{df}e \u{4e16}\u{754c}\" + \"\u{1f980}\""),
        vec![
            Token::String("gr\u{fc}\u{df}e \u{4e16}\u{754c}"),
            Token::Plus,
            Token::String("\u{1f980}"),
            Token::Eof,
        ]
    );
    assert_eq!(scan("// caf\u{e9}\n\"x\""), vec![Token::String("x"), Token::Eof]);
}

#[test]
fn numeric_literals() {
    let mut tokens = scan("1234").into_iter();
    assert_eq!(number(tokens.next()), 1234.0);
    assert_eq!(tokens.next(), Some(Token::Eof));
    assert_eq!(tokens.next(), None);

    let mut tokens = scan("12.34").into_iter();
    assert_eq!(number(tokens.next()), 12.34);
    assert_eq!(tokens.next(), Some(Token::Eof));
    assert_eq!(tokens.next(), None);
}

#[test]
fn numeric_literal_carries_its_digits() {
    assert_eq!(scan("1234"), vec![Token::Number("1234"), Token::Eof]);
    assert_eq!(scan("12.34"), vec![Token::Number("12.34"), Token::Eof]);
    assert_eq!(scan("0"), vec![Token::Number("0"), Token::Eof]);
    assert_eq!(scan("007"), vec![Token::Number("007"), Token::Eof]);
}

#[test]
fn numeric_literal_is_the_longest_run_of_digits_and_dots() {
    assert_eq!(scan("12."), vec![Token::Number("12."), Token::Eof]);
    assert_eq!(scan("1.5)"), vec![Token::Number("1.5"), Token::RightParen, Token::Eof]);
    assert_eq!(scan("1+2"), vec![Token::Number("1"), Token::Plus, Token::Number("2"), Token::Eof]);
    assert_eq!(scan(".5"), vec![Token::Dot, Token::Number("5"), Token::Eof]);
    assert_eq!(scan("3\n4"), vec![Token::Number("3"), Token::Number("4"), Token::Eof]);
    assert_eq!(scan("12abc"), vec![Token::Number("12"), Token::Identifier("abc"), Token::Eof]);
}

#[test]
fn every_numeric_literal_parses() {
    for digits in ["0", "12.", "12.0", "0.125", "123456789012345678901234567890", "00.50"] {
        let mut tokens = scan(digits).into_iter();
        assert_eq!(number(tokens.next()), digits.parse::<f32>().unwrap());
        assert_eq!(tokens.next(), Some(Token::Eof));
    }
    let mut tokens = scan("12.").into_iter();
    assert_eq!(number(tokens.next()), 12.0);
    let mut tokens = scan("0.125").into_iter();
    assert_eq!(number(tokens.next()), 0.125);
}

#[test]
fn end_marker_comes_last_and_once() {
    for script in ["", "+", "var x = 1;", "\"text\" // note", "a.b(c)\n", " \t\n"] {
        let tokens = scan(script);
        assert_eq!(tokens.last(), Some(&Token::Eof));
        assert_eq!(tokens.iter().filter(|token| **token == Token::Eof).count(), 1);
    }
}

#[test]
fn tokens_come_in_the_order_of_the_text() {
    assert_eq!(
        scan("var answer = (40 + 2) * 1.0; // done\nprint \"ok\";"),
        vec![
            Token::Var,
            Token::Identifier("answer"),
            Token::Equal,
            Token::LeftParen,
            Token::Number("40"),
            Token::Plus,
            Token::Number("2"),
            Token::RightParen,
            Token::Star,
            Token::Number("1.0"),
            Token::Semicolon,
            Token::Print,
            Token::String("ok"),
            Token::Semicolon,
            Token::Eof,
        ]
    );
}

#[test]
fn scanning_twice_gives_the_same_tokens() {
    let tokenizer = Tokenizer::new("if (a >= b) { return a; }");
    assert_eq!(tokenizer.tokenize(), tokenizer.tokenize());
}

#[test]
fn long_text() {
    let lines = 20_000;
    let mut script = String::from("// caf\u{e9}\n");
    for _ in 0..lines {
        script.push_str("total = total + \"\u{e4}\" * 12.5; // \u{4e16}\u{754c}\n");
    }
    let tokens = scan(&script);
    assert_eq!(tokens.len(), 8 * lines + 1);
    assert_eq!(tokens[0], Token::Identifier("total"));
    assert_eq!(tokens[4], Token::String("\u{e4}"));
    assert_eq!(tokens[8 * lines - 2], Token::Number("12.5"));
    assert_eq!(tokens[8 * lines - 1], Token::Semicolon);
    assert_eq!(tokens[8 * lines], Token::Eof);

    script.push('?');
    let error = Tokenizer::new(&script).tokenize().unwrap_err();
    assert_eq!(error.line, lines + 1);
}
