use rust_crafting_interpreters::error::{ScannerError, ScannerErrorKind};
use rust_crafting_interpreters::keywords::Keywords;
use rust_crafting_interpreters::scanner::Scanner;
use rust_crafting_interpreters::token::{Token, TokenType};
use rust_crafting_interpreters::{is_alpha, is_alpha_numeric, is_digit};

#[test]
fn token_keeps_what_it_was_made_of() {
    let token = Token::new(TokenType::Identifier, String::from("name"), 7);
    assert_eq!(*token.token_type(), TokenType::Identifier);
    assert_eq!(token.lexeme(), "name");
    assert_eq!(token.line(), 7);
}

#[test]
fn token_clone_is_equal() {
    let token = Token::new(
        TokenType::String(String::from("text")),
        String::from("\"text\""),
        3,
    );
    assert_eq!(token.clone(), token);
    assert_ne!(
        token,
        Token::new(TokenType::String(String::from("text")), String::from("\"text\""), 4)
    );
    assert_ne!(
        token,
        Token::new(TokenType::String(String::from("tex")), String::from("\"text\""), 3)
    );
}

#[test]
fn token_type_clone_is_equal() {
    let kinds = vec![
        TokenType::LeftParen,
        TokenType::RightParen,
        TokenType::LeftBrace,
        TokenType::RightBrace,
        TokenType::Semicolon,
        TokenType::Comma,
        TokenType::Dot,
        TokenType::Minus,
        TokenType::Plus,
        TokenType::Slash,
        TokenType::Star,
        TokenType::Bang,
        TokenType::BangEqual,
        TokenType::EqualEqual,
        TokenType::Equal,
        TokenType::Greater,
        TokenType::GreaterEqual,
        TokenType::Less,
        TokenType::LessEqual,
        TokenType::Identifier,
        TokenType::Number,
        TokenType::String(String::from("payload")),
        TokenType::And,
        TokenType::Else,
        TokenType::False,
        TokenType::Fun,
        TokenType::Class,
        TokenType::Var,
        TokenType::For,
        TokenType::If,
        TokenType::Nil,
        TokenType::Or,
        TokenType::Print,
        TokenType::Return,
        TokenType::Super,
        TokenType::This,
        TokenType::True,
        TokenType::While,
        TokenType::Eof,
    ];
    for (i, kind) in kinds.iter().enumerate() {
        assert_eq!(kind.clone(), *kind);
        for (j, other) in kinds.iter().enumerate() {
            assert_eq!(i == j, kind == other);
        }
    }
}

#[test]
fn error_keeps_what_it_was_made_of() {
    let error = ScannerError::new(ScannerErrorKind::UnterminatedString, 12);
    assert_eq!(error.kind(), ScannerErrorKind::UnterminatedString);
    assert_eq!(error.line(), 12);
}

#[test]
fn error_messages() {
    assert_eq!(
        ScannerError::new(ScannerErrorKind::UnexpectedCharacter, 1).message(),
        "Unexpected character"
    );
    assert_eq!(
        ScannerError::new(ScannerErrorKind::UnterminatedString, 1).message(),
        "Unterminated string"
    );
}

#[test]
fn letters_and_underscore_are_alpha() {
    for c in ['a', 'm', 'z', 'A', 'M', 'Z', '_'] {
        assert!(is_alpha(c));
        assert!(is_alpha_numeric(c));
        assert!(!is_digit(c));
    }
}

#[test]
fn digits_are_digits() {
    for c in ['0', '5', '9'] {
        assert!(is_digit(c));
        assert!(is_alpha_numeric(c));
        assert!(!is_alpha(c));
    }
}

#[test]
fn neighbours_of_the_ascii_ranges_are_neither() {
    for c in ['`', '{', '@', '[', '/', ':', ' ', '\0', '-', '.', '"', '\n'] {
        assert!(!is_alpha(c));
        assert!(!is_digit(c));
        assert!(!is_alpha_numeric(c));
    }
}

#[test]
fn characters_outside_ascii_are_neither() {
    for c in ['é', 'ß', 'λ', 'Ж', '٣', '९', '名', '\u{ff11}', '\u{ff41}'] {
        assert!(!is_alpha(c));
        assert!(!is_digit(c));
        assert!(!is_alpha_numeric(c));
    }
}

fn reserved() -> Vec<(&'static str, TokenType)> {
    vec![
        ("and", TokenType::And),
        ("class", TokenType::Class),
        ("else", TokenType::Else),
        ("false", TokenType::False),
        ("fun", TokenType::Fun),
        ("for", TokenType::For),
        ("if", TokenType::If),
        ("nil", TokenType::Nil),
        ("or", TokenType::Or),
        ("print", TokenType::Print),
        ("return", TokenType::Return),
        ("super", TokenType::Super),
        ("this", TokenType::This),
        ("true", TokenType::True),
        ("var", TokenType::Var),
        ("while", TokenType::While),
    ]
}

#[test]
fn table_finds_every_reserved_word() {
    let table = Keywords::new();
    for (word, kind) in reserved() {
        assert_eq!(table.get(&String::from(word)), Some(kind));
    }
}

#[test]
fn table_finds_nothing_else() {
    let table = Keywords::new();
    for word in ["", "a", "an", "andy", "And", "WHILE", "whil", "_if", "if_", "nul", "function"] {
        assert_eq!(table.get(&String::from(word)), None);
    }
}

#[test]
fn every_reserved_word_scans_alone_as_its_kind() {
    for (word, kind) in reserved() {
        let mut scanner = Scanner::new();
        let tokens = scanner.scan(word);
        assert_eq!(
            tokens,
            vec![
                Token::new(kind, String::from(word), 1),
                Token::new(TokenType::Eof, String::new(), 1),
            ]
        );
        assert!(scanner.errors().is_empty());
    }
}

#[test]
fn reserved_word_with_more_letters_is_an_identifier() {
    for (word, _) in reserved() {
        for text in [format!("{}x", word), format!("x{}", word), format!("{}_", word), format!("{}1", word)] {
            let tokens = Scanner::new().scan(&text);
            assert_eq!(
                tokens,
                vec![
                    Token::new(TokenType::Identifier, text.clone(), 1),
                    Token::new(TokenType::Eof, String::new(), 1),
                ]
            );
        }
    }
}
