use rust_crafting_interpreters::error::ScannerErrorKind;
use rust_crafting_interpreters::scanner::Scanner;
use rust_crafting_interpreters::token::{Token, TokenType};

fn scan(source: &str) -> Vec<Token> {
    Scanner::new().scan(source)
}

fn kinds(tokens: &[Token]) -> Vec<TokenType> {
    tokens.iter().map(|token| token.token_type().clone()).collect()
}

fn lexemes(tokens: &[Token]) -> Vec<String> {
    tokens.iter().map(|token| token.lexeme().clone()).collect()
}

fn lines(tokens: &[Token]) -> Vec<usize> {
    tokens.iter().map(|token| token.line()).collect()
}

#[test]
fn empty_source_gives_only_the_end_marker() {
    let tokens = scan("");
    assert_eq!(tokens, vec![Token::new(TokenType::Eof, String::new(), 1)]);
}

#[test]
fn punctuation_scans_one_character_at_a_time() {
    let tokens = scan("(){},.-+;*/");
    assert_eq!(
        kinds(&tokens),
        vec![
            TokenType::LeftParen,
            TokenType::RightParen,
            TokenType::LeftBrace,
            TokenType::RightBrace,
            TokenType::Comma,
            TokenType::Dot,
            TokenType::Minus,
            TokenType::Plus,
            TokenType::Semicolon,
            TokenType::Star,
            TokenType::Slash,
            TokenType::Eof,
        ]
    );
    assert_eq!(
        lexemes(&tokens),
        vec!["(", ")", "{", "}", ",", ".", "-", "+", ";", "*", "/", ""]
    );
}

#[test]
fn operators_take_a_following_equals_sign() {
    let tokens = scan("! != = == < <= > >=");
    assert_eq!(
        kinds(&tokens),
        vec![
            TokenType::Bang,
            TokenType::BangEqual,
            TokenType::Equal,
            TokenType::EqualEqual,
            TokenType::Less,
            TokenType::LessEqual,
            TokenType::Greater,
            TokenType::GreaterEqual,
            TokenType::Eof,
        ]
    );
    assert_eq!(
        lexemes(&tokens),
        vec!["!", "!=", "=", "==", "<", "<=", ">", ">=", ""]
    );
}

#[test]
fn less_equal_is_one_token() {
    let tokens = scan("a <= b");
    assert_eq!(
        tokens,
        vec![
            Token::new(TokenType::Identifier, String::from("a"), 1),
            Token::new(TokenType::LessEqual, String::from("<="), 1),
            Token::new(TokenType::Identifier, String::from("b"), 1),
            Token::new(TokenType::Eof, String::new(), 1),
        ]
    );
}

#[test]
fn less_before_another_character_stands_alone() {
    let tokens = scan("a<b");
    assert_eq!(
        kinds(&tokens),
        vec![
            TokenType::Identifier,
            TokenType::Less,
            TokenType::Identifier,
            TokenType::Eof,
        ]
    );
    let tokens = scan("<");
    assert_eq!(kinds(&tokens), vec![TokenType::Less, TokenType::Eof]);
}

#[test]
fn three_equals_signs_are_two_tokens() {
    let tokens = scan("===");
    assert_eq!(
        kinds(&tokens),
        vec![TokenType::EqualEqual, TokenType::Equal, TokenType::Eof]
    );
}

#[test]
fn comment_gives_no_token_but_its_newline_counts() {
    let mut scanner = Scanner::new();
    let tokens = scanner.scan("// comment\n123");
    assert_eq!(
        tokens,
        vec![
            Token::new(TokenType::Number, String::from("123"), 2),
            Token::new(TokenType::Eof, String::new(), 2),
        ]
    );
    assert_eq!(tokens[0].lexeme().parse::<f64>(), Ok(123.0));
    assert!(scanner.errors().is_empty());
}

#[test]
fn comment_runs_to_the_end_of_the_input() {
    let tokens = scan("1 // the rest");
    assert_eq!(kinds(&tokens), vec![TokenType::Number, TokenType::Eof]);
    let tokens = scan("//");
    assert_eq!(kinds(&tokens), vec![TokenType::Eof]);
}

#[test]
fn slash_alone_is_a_token() {
    let tokens = scan("a / b");
    assert_eq!(
        kinds(&tokens),
        vec![
            TokenType::Identifier,
            TokenType::Slash,
            TokenType::Identifier,
            TokenType::Eof,
        ]
    );
}

#[test]
fn unterminated_string_gives_a_diagnostic_and_no_token() {
    let mut scanner = Scanner::new();
    let tokens = scanner.scan("\"open string");
    assert_eq!(tokens, vec![Token::new(TokenType::Eof, String::new(), 1)]);
    let errors = scanner.errors();
    assert_eq!(errors.len(), 1);
    assert_eq!(errors[0].kind(), ScannerErrorKind::UnterminatedString);
    assert_eq!(errors[0].line(), 1);
}

#[test]
fn unterminated_string_is_reported_at_its_first_line() {
    let mut scanner = Scanner::new();
    let tokens = scanner.scan("x\n\"open\nstring\n");
    assert_eq!(
        tokens,
        vec![
            Token::new(TokenType::Identifier, String::from("x"), 1),
            Token::new(TokenType::Eof, String::new(), 4),
        ]
    );
    let errors = scanner.errors();
    assert_eq!(errors.len(), 1);
    assert_eq!(errors[0].kind(), ScannerErrorKind::UnterminatedString);
    assert_eq!(errors[0].line(), 2);
}

#[test]
fn trailing_dot_is_not_part_of_a_number() {
    let tokens = scan("3.14.foo");
    assert_eq!(
        tokens,
        vec![
            Token::new(TokenType::Number, String::from("3.14"), 1),
            Token::new(TokenType::Dot, String::from("."), 1),
            Token::new(TokenType::Identifier, String::from("foo"), 1),
            Token::new(TokenType::Eof, String::new(), 1),
        ]
    );
    assert_eq!(tokens[0].lexeme().parse::<f64>(), Ok(3.14));
}

#[test]
fn dot_without_a_digit_after_it_ends_the_number() {
    let tokens = scan("12.");
    assert_eq!(
        tokens,
        vec![
            Token::new(TokenType::Number, String::from("12"), 1),
            Token::new(TokenType::Dot, String::from("."), 1),
            Token::new(TokenType::Eof, String::new(), 1),
        ]
    );
    let tokens = scan("1.x");
    assert_eq!(
        lexemes(&tokens),
        vec!["1", ".", "x", ""]
    );
}

#[test]
fn leading_dot_is_not_part_of_a_number() {
    let tokens = scan(".5");
    assert_eq!(
        tokens,
        vec![
            Token::new(TokenType::Dot, String::from("."), 1),
            Token::new(TokenType::Number, String::from("5"), 1),
            Token::new(TokenType::Eof, String::new(), 1),
        ]
    );
}

#[test]
fn number_lexemes_parse_as_floats() {
    let tokens = scan("0 007 1234567890.0987654321 99999999999999999999999999");
    let values: Vec<f64> = tokens
        .iter()
        .filter(|token| *token.token_type() == TokenType::Number)
        .map(|token| token.lexeme().parse::<f64>().unwrap())
        .collect();
    assert_eq!(
        values,
        vec![0.0, 7.0, 1234567890.0987654321, 99999999999999999999999999.0]
    );
}

#[test]
fn keyword_matching_is_by_whole_word() {
    let tokens = scan("and android");
    assert_eq!(
        tokens,
        vec![
            Token::new(TokenType::And, String::from("and"), 1),
            Token::new(TokenType::Identifier, String::from("android"), 1),
            Token::new(TokenType::Eof, String::new(), 1),
        ]
    );
}

#[test]
fn keywords_are_case_sensitive() {
    let tokens = scan("And AND nil Nil");
    assert_eq!(
        kinds(&tokens),
        vec![
            TokenType::Identifier,
            TokenType::Identifier,
            TokenType::Nil,
            TokenType::Identifier,
            TokenType::Eof,
        ]
    );
}

#[test]
fn identifiers_take_letters_digits_and_underscores() {
    let tokens = scan("_a1 b_2c __ x9");
    assert_eq!(lexemes(&tokens), vec!["_a1", "b_2c", "__", "x9", ""]);
    assert_eq!(
        kinds(&tokens),
        vec![
            TokenType::Identifier,
            TokenType::Identifier,
            TokenType::Identifier,
            TokenType::Identifier,
            TokenType::Eof,
        ]
    );
}

#[test]
fn identifier_cannot_start_with_a_digit() {
    let tokens = scan("1abc");
    assert_eq!(
        tokens,
        vec![
            Token::new(TokenType::Number, String::from("1"), 1),
            Token::new(TokenType::Identifier, String::from("abc"), 1),
            Token::new(TokenType::Eof, String::new(), 1),
        ]
    );
}

#[test]
fn string_literal_carries_the_text_between_its_quotes() {
    let tokens = scan("\"hello world\"");
    assert_eq!(
        tokens,
        vec![
            Token::new(
                TokenType::String(String::from("hello world")),
                String::from("\"hello world\""),
                1
            ),
            Token::new(TokenType::Eof, String::new(), 1),
        ]
    );
}

#[test]
fn empty_string_literal() {
    let tokens = scan("\"\"");
    assert_eq!(
        tokens,
        vec![
            Token::new(TokenType::String(String::new()), String::from("\"\""), 1),
            Token::new(TokenType::Eof, String::new(), 1),
        ]
    );
}

#[test]
fn string_literal_has_no_escapes() {
    let tokens = scan("\"a\\\"b");
    assert_eq!(
        tokens,
        vec![
            Token::new(
                TokenType::String(String::from("a\\")),
                String::from("\"a\\\""),
                1
            ),
            Token::new(TokenType::Identifier, String::from("b"), 1),
            Token::new(TokenType::Eof, String::new(), 1),
        ]
    );
}

#[test]
fn string_literal_may_span_lines() {
    let tokens = scan("\"one\ntwo\" x");
    assert_eq!(
        tokens,
        vec![
            Token::new(
                TokenType::String(String::from("one\ntwo")),
                String::from("\"one\ntwo\""),
                1
            ),
            Token::new(TokenType::Identifier, String::from("x"), 2),
            Token::new(TokenType::Eof, String::new(), 2),
        ]
    );
}

#[test]
fn string_literal_may_hold_any_character() {
    let tokens = scan("\"// é @ \0\"");
    assert_eq!(
        kinds(&tokens),
        vec![TokenType::String(String::from("// é @ \0")), TokenType::Eof]
    );
}

#[test]
fn unexpected_character_is_skipped_and_reported() {
    let mut scanner = Scanner::new();
    let tokens = scanner.scan("a @ b");
    assert_eq!(
        tokens,
        vec![
            Token::new(TokenType::Identifier, String::from("a"), 1),
            Token::new(TokenType::Identifier, String::from("b"), 1),
            Token::new(TokenType::Eof, String::new(), 1),
        ]
    );
    let errors = scanner.errors();
    assert_eq!(errors.len(), 1);
    assert_eq!(errors[0].kind(), ScannerErrorKind::UnexpectedCharacter);
    assert_eq!(errors[0].line(), 1);
    assert_eq!(errors[0].message(), "Unexpected character");
}

#[test]
fn every_unexpected_character_is_reported_on_its_line() {
    let mut scanner = Scanner::new();
    let tokens = scanner.scan("#\n1 $\n\n^ x");
    assert_eq!(
        tokens,
        vec![
            Token::new(TokenType::Number, String::from("1"), 2),
            Token::new(TokenType::Identifier, String::from("x"), 4),
            Token::new(TokenType::Eof, String::new(), 4),
        ]
    );
    let reported: Vec<(ScannerErrorKind, usize)> = scanner
        .errors()
        .iter()
        .map(|error| (error.kind(), error.line()))
        .collect();
    assert_eq!(
        reported,
        vec![
            (ScannerErrorKind::UnexpectedCharacter, 1),
            (ScannerErrorKind::UnexpectedCharacter, 2),
            (ScannerErrorKind::UnexpectedCharacter, 4),
        ]
    );
}

#[test]
fn letters_outside_ascii_are_rejected() {
    let mut scanner = Scanner::new();
    let tokens = scanner.scan("é x ü1 ٣");
    assert_eq!(
        tokens,
        vec![
            Token::new(TokenType::Identifier, String::from("x"), 1),
            Token::new(TokenType::Number, String::from("1"), 1),
            Token::new(TokenType::Eof, String::new(), 1),
        ]
    );
    assert_eq!(scanner.errors().len(), 3);
    assert!(scanner
        .errors()
        .iter()
        .all(|error| error.kind() == ScannerErrorKind::UnexpectedCharacter));
}

#[test]
fn letter_outside_ascii_ends_an_identifier() {
    let mut scanner = Scanner::new();
    let tokens = scanner.scan("caf\u{e9}s");
    assert_eq!(
        tokens,
        vec![
            Token::new(TokenType::Identifier, String::from("caf"), 1),
            Token::new(TokenType::Identifier, String::from("s"), 1),
            Token::new(TokenType::Eof, String::new(), 1),
        ]
    );
    assert_eq!(scanner.errors().len(), 1);
}

#[test]
fn nul_in_the_source_is_an_unexpected_character() {
    let mut scanner = Scanner::new();
    let tokens = scanner.scan("a\0b");
    assert_eq!(lexemes(&tokens), vec!["a", "b", ""]);
    assert_eq!(scanner.errors().len(), 1);
    assert_eq!(
        scanner.errors()[0].kind(),
        ScannerErrorKind::UnexpectedCharacter
    );
}

#[test]
fn whitespace_gives_no_token() {
    let tokens = scan(" \t\r\n \t");
    assert_eq!(tokens, vec![Token::new(TokenType::Eof, String::new(), 2)]);
}

#[test]
fn end_marker_stands_on_the_last_line() {
    assert_eq!(lines(&scan("a")), vec![1, 1]);
    assert_eq!(lines(&scan("a\n")), vec![1, 2]);
    assert_eq!(lines(&scan("a\n\n\n")), vec![1, 4]);
    assert_eq!(lines(&scan("\n\na\n// c\n\"s\n\"\n")), vec![3, 5, 7]);
}

#[test]
fn end_marker_comes_once_and_last() {
    for source in ["", "a b c", "\"open", "@@@", "1.5 // x\n\n", "var x = \"s\";"] {
        let tokens = scan(source);
        let markers = tokens
            .iter()
            .filter(|token| *token.token_type() == TokenType::Eof)
            .count();
        assert_eq!(markers, 1);
        let last = tokens.last().unwrap();
        assert_eq!(*last.token_type(), TokenType::Eof);
        assert_eq!(last.lexeme(), "");
        let newlines = source.chars().filter(|c| *c == '\n').count();
        assert_eq!(last.line(), 1 + newlines);
    }
}

#[test]
fn tokens_carry_the_line_on_which_they_start() {
    let tokens = scan("var a = 1;\nprint a;\n\nreturn");
    assert_eq!(lines(&tokens), vec![1, 1, 1, 1, 1, 2, 2, 2, 4, 4]);
}

#[test]
fn small_program() {
    let tokens = scan("fun add(a, b) {\n  return a + b; // sum\n}\n");
    assert_eq!(
        tokens,
        vec![
            Token::new(TokenType::Fun, String::from("fun"), 1),
            Token::new(TokenType::Identifier, String::from("add"), 1),
            Token::new(TokenType::LeftParen, String::from("("), 1),
            Token::new(TokenType::Identifier, String::from("a"), 1),
            Token::new(TokenType::Comma, String::from(","), 1),
            Token::new(TokenType::Identifier, String::from("b"), 1),
            Token::new(TokenType::RightParen, String::from(")"), 1),
            Token::new(TokenType::LeftBrace, String::from("{"), 1),
            Token::new(TokenType::Return, String::from("return"), 2),
            Token::new(TokenType::Identifier, String::from("a"), 2),
            Token::new(TokenType::Plus, String::from("+"), 2),
            Token::new(TokenType::Identifier, String::from("b"), 2),
            Token::new(TokenType::Semicolon, String::from(";"), 2),
            Token::new(TokenType::RightBrace, String::from("}"), 3),
            Token::new(TokenType::Eof, String::new(), 4),
        ]
    );
}

#[test]
fn scanner_starts_afresh_with_each_scan() {
    let mut scanner = Scanner::new();
    assert!(scanner.errors().is_empty());
    let first = scanner.scan("a @\n\"open");
    assert_eq!(kinds(&first), vec![TokenType::Identifier, TokenType::Eof]);
    assert_eq!(scanner.errors().len(), 2);
    let second = scanner.scan("b");
    assert_eq!(
        second,
        vec![
            Token::new(TokenType::Identifier, String::from("b"), 1),
            Token::new(TokenType::Eof, String::new(), 1),
        ]
    );
    assert!(scanner.errors().is_empty());
}

#[test]
fn scanning_the_same_text_twice_gives_the_same_tokens() {
    let source = "while (x >= 10) { x = x - 1.5; } // done\n\"s\" ?";
    let mut one = Scanner::new();
    let mut other = Scanner::new();
    assert_eq!(one.scan(source), other.scan(source));
    assert_eq!(one.errors(), other.errors());
    assert_eq!(one.scan(source), other.scan(source));
}
