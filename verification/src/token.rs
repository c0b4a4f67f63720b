//! Tokens and their kinds.
//!
//! Each executable type comes with a mathematical view: a `TokenType` is seen
//! as a `TokenKind`, a `Token` as a `TokenView`. The contracts of the scanner
//! are stated over the views.

use vstd::prelude::*;

verus! {

/// The kind of a token as a mathematical value. A string literal carries the
/// text between its quotes as a sequence of characters.
pub enum TokenKind {
    LeftParen,
    RightParen,
    LeftBrace,
    RightBrace,
    Semicolon,
    Comma,
    Dot,
    Minus,
    Plus,
    Slash,
    Star,
    Bang,
    BangEqual,
    EqualEqual,
    Equal,
    Greater,
    GreaterEqual,
    Less,
    LessEqual,
    Identifier,
    Number,
    String(Seq<char>),
    And,
    Else,
    False,
    Fun,
    Class,
    Var,
    For,
    If,
    Nil,
    Or,
    Print,
    Return,
    Super,
    This,
    True,
    While,
    Eof,
}

/// The kind of a token.
///
/// An identifier and a number carry their text in the lexeme of the token
/// that holds them; a string literal carries the text between its quotes,
/// taken as it stands in the source.
#[derive(Debug, PartialEq, Eq)]
pub enum TokenType {
    LeftParen,
    RightParen,
    LeftBrace,
    RightBrace,
    Semicolon,
    Comma,
    Dot,
    Minus,
    Plus,
    Slash,
    Star,
    Bang,
    BangEqual,
    EqualEqual,
    Equal,
    Greater,
    GreaterEqual,
    Less,
    LessEqual,
    Identifier,
    Number,
    String(String),
    And,
    Else,
    False,
    Fun,
    Class,
    Var,
    For,
    If,
    Nil,
    Or,
    Print,
    Return,
    Super,
    This,
    True,
    While,
    Eof,
}

impl View for TokenType {
    type V = TokenKind;

    open spec fn view(&self) -> TokenKind {
        match *self {
            TokenType::LeftParen => TokenKind::LeftParen,
            TokenType::RightParen => TokenKind::RightParen,
            TokenType::LeftBrace => TokenKind::LeftBrace,
            TokenType::RightBrace => TokenKind::RightBrace,
            TokenType::Semicolon => TokenKind::Semicolon,
            TokenType::Comma => TokenKind::Comma,
            TokenType::Dot => TokenKind::Dot,
            TokenType::Minus => TokenKind::Minus,
            TokenType::Plus => TokenKind::Plus,
            TokenType::Slash => TokenKind::Slash,
            TokenType::Star => TokenKind::Star,
            TokenType::Bang => TokenKind::Bang,
            TokenType::BangEqual => TokenKind::BangEqual,
            TokenType::EqualEqual => TokenKind::EqualEqual,
            TokenType::Equal => TokenKind::Equal,
            TokenType::Greater => TokenKind::Greater,
            TokenType::GreaterEqual => TokenKind::GreaterEqual,
            TokenType::Less => TokenKind::Less,
            TokenType::LessEqual => TokenKind::LessEqual,
            TokenType::Identifier => TokenKind::Identifier,
            TokenType::Number => TokenKind::Number,
            TokenType::String(text) => TokenKind::String(text@),
            TokenType::And => TokenKind::And,
            TokenType::Else => TokenKind::Else,
            TokenType::False => TokenKind::False,
            TokenType::Fun => TokenKind::Fun,
            TokenType::Class => TokenKind::Class,
            TokenType::Var => TokenKind::Var,
            TokenType::For => TokenKind::For,
            TokenType::If => TokenKind::If,
            TokenType::Nil => TokenKind::Nil,
            TokenType::Or => TokenKind::Or,
            TokenType::Print => TokenKind::Print,
            TokenType::Return => TokenKind::Return,
            TokenType::Super => TokenKind::Super,
            TokenType::This => TokenKind::This,
            TokenType::True => TokenKind::True,
            TokenType::While => TokenKind::While,
            TokenType::Eof => TokenKind::Eof,
        }
    }
}

impl DeepView for TokenType {
    type V = TokenKind;

    open spec fn deep_view(&self) -> TokenKind {
        self.view()
    }
}

impl Clone for TokenType {
    fn clone(&self) -> (copy: Self)
        ensures
            copy@ == self@,
    {
        match self {
            TokenType::LeftParen => TokenType::LeftParen,
            TokenType::RightParen => TokenType::RightParen,
            TokenType::LeftBrace => TokenType::LeftBrace,
            TokenType::RightBrace => TokenType::RightBrace,
            TokenType::Semicolon => TokenType::Semicolon,
            TokenType::Comma => TokenType::Comma,
            TokenType::Dot => TokenType::Dot,
            TokenType::Minus => TokenType::Minus,
            TokenType::Plus => TokenType::Plus,
            TokenType::Slash => TokenType::Slash,
            TokenType::Star => TokenType::Star,
            TokenType::Bang => TokenType::Bang,
            TokenType::BangEqual => TokenType::BangEqual,
            TokenType::EqualEqual => TokenType::EqualEqual,
            TokenType::Equal => TokenType::Equal,
            TokenType::Greater => TokenType::Greater,
            TokenType::GreaterEqual => TokenType::GreaterEqual,
            TokenType::Less => TokenType::Less,
            TokenType::LessEqual => TokenType::LessEqual,
            TokenType::Identifier => TokenType::Identifier,
            TokenType::Number => TokenType::Number,
            TokenType::String(text) => TokenType::String(text.clone()),
            TokenType::And => TokenType::And,
            TokenType::Else => TokenType::Else,
            TokenType::False => TokenType::False,
            TokenType::Fun => TokenType::Fun,
            TokenType::Class => TokenType::Class,
            TokenType::Var => TokenType::Var,
            TokenType::For => TokenType::For,
            TokenType::If => TokenType::If,
            TokenType::Nil => TokenType::Nil,
            TokenType::Or => TokenType::Or,
            TokenType::Print => TokenType::Print,
            TokenType::Return => TokenType::Return,
            TokenType::Super => TokenType::Super,
            TokenType::This => TokenType::This,
            TokenType::True => TokenType::True,
            TokenType::While => TokenType::While,
            TokenType::Eof => TokenType::Eof,
        }
    }
}

/// A token as a mathematical value: its kind, the source text that it was
/// matched from, and the line on which that text starts.
pub struct TokenView {
    pub kind: TokenKind,
    pub lexeme: Seq<char>,
    pub line: nat,
}

/// A token: a kind, the exact source text that was matched (empty for the
/// end-of-file marker) and the 1-based line on which that text starts.
#[derive(Debug, PartialEq, Eq)]
pub struct Token {
    token_type: TokenType,
    lexeme: String,
    line: usize,
}

impl View for Token {
    type V = TokenView;

    closed spec fn view(&self) -> TokenView {
        TokenView { kind: self.token_type@, lexeme: self.lexeme@, line: self.line as nat }
    }
}

impl DeepView for Token {
    type V = TokenView;

    open spec fn deep_view(&self) -> TokenView {
        self.view()
    }
}

impl Clone for Token {
    fn clone(&self) -> (copy: Self)
        ensures
            copy@ == self@,
    {
        Token {
            token_type: self.token_type.clone(),
            lexeme: self.lexeme.clone(),
            line: self.line,
        }
    }
}

impl Token {
    /// Makes a token of the given kind, lexeme and line.
    pub fn new(token_type: TokenType, lexeme: String, line: usize) -> (token: Self)
        ensures
            token@ == (TokenView { kind: token_type@, lexeme: lexeme@, line: line as nat }),
    {
        Token { token_type, lexeme, line }
    }

    /// The kind of the token.
    pub fn token_type(&self) -> (token_type: &TokenType)
        ensures
            token_type@ == self@.kind,
    {
        &self.token_type
    }

    /// The source text that the token was matched from.
    pub fn lexeme(&self) -> (lexeme: &String)
        ensures
            lexeme@ == self@.lexeme,
    {
        &self.lexeme
    }

    /// The 1-based line on which the token starts.
    pub fn line(&self) -> (line: usize)
        ensures
            line as nat == self@.line,
    {
        self.line
    }
}

} // verus!
