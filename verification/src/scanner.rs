//! The scanner: a single pass over a source text that gives its tokens and
//! the diagnostics for what it had to skip.

use vstd::prelude::*;
use crate::error::{ErrorView, ScannerError, ScannerErrorKind};
use crate::grammar::{
    char_at, digits_end, eof_token, error_at, errors_from, errors_of, lemma_run_end_maximal,
    lemma_step_advances, line_at, line_end, newlines_before, quote_pos, seq_of, step, token_at,
    tokens_from, tokens_of, word_end,
};
use crate::keywords::Keywords;
use crate::text::{chars_of, string_of};
use crate::theory::{
    is_numeral, lemma_end_marker, lemma_numbers_are_numerals, lemma_same_line,
};
use crate::token::{Token, TokenKind, TokenType, TokenView};
use crate::{is_alpha, is_alpha_numeric, is_digit};

verus! {

/// A scanner. It owns the table of reserved words, the text that it scans
/// and, after a scan, the diagnostics of that scan.
///
/// The text is held as a vector of characters with a NUL behind the last one,
/// so that a lookahead at the end of the input reads that NUL.
pub struct Scanner {
    source: Vec<char>,
    tokens: Vec<Token>,
    errors: Vec<ScannerError>,
    start: usize,
    current: usize,
    line: usize,
    keywords: Keywords,
}

/// No line ever holds more newlines before an index than there are
/// characters before it.
proof fn lemma_newlines_bounded(src: Seq<char>, pos: int)
    requires
        0 <= pos,
    ensures
        newlines_before(src, pos) <= pos,
    decreases pos,
{
    if pos > 0 {
        lemma_newlines_bounded(src, pos - 1);
    }
}

impl Scanner {
    /// The text that the scanner holds: that of its last scan.
    pub closed spec fn text(&self) -> Seq<char> {
        self.source@.drop_last()
    }

    /// The diagnostics that the scanner holds: those of its last scan.
    pub closed spec fn diagnostics(&self) -> Seq<ErrorView> {
        self.errors.deep_view()
    }

    /// The buffer ends in its NUL and the cursor lies within the text, at or
    /// after the start of the current lexeme.
    spec fn inv(&self) -> bool {
        &&& 0 < self.source@.len() <= usize::MAX
        &&& self.source@.last() == '\0'
        &&& self.start <= self.current <= self.text().len()
    }

    /// Whether `after` is `before` with the cursor moved to `current` and
    /// nothing else changed.
    spec fn moved_to(before: Scanner, after: Scanner, current: int) -> bool {
        &&& after.current == current
        &&& after.source == before.source
        &&& after.tokens == before.tokens
        &&& after.errors == before.errors
        &&& after.start == before.start
        &&& after.line == before.line
    }

    /// Whether `after` is `before` with the step at `before.start` taken: the
    /// cursor stands at the end of the step, the line is that of the cursor,
    /// and what the step gives has been added to the tokens and diagnostics.
    spec fn stepped(before: Scanner, after: Scanner) -> bool {
        let text = before.text();
        let pos = before.start as int;
        &&& after.inv()
        &&& after.source == before.source
        &&& after.current == step(text, pos).end
        &&& after.line == line_at(text, after.current as int)
        &&& after.tokens.deep_view() == before.tokens.deep_view() + seq_of(token_at(text, pos))
        &&& after.errors.deep_view() == before.errors.deep_view() + seq_of(error_at(text, pos))
    }

    /// Makes a scanner that holds no text yet.
    pub fn new() -> (scanner: Self)
        ensures
            scanner.text() == Seq::<char>::empty(),
            scanner.diagnostics() == Seq::<ErrorView>::empty(),
    {
        let mut source: Vec<char> = Vec::new();
        source.push('\0');
        assert(source@.len() == 1);
        let scanner = Scanner {
            source,
            start: 0,
            current: 0,
            line: 1,
            tokens: Vec::new(),
            errors: Vec::new(),
            keywords: Keywords::new(),
        };
        assert(scanner.text() =~= Seq::<char>::empty());
        assert(scanner.diagnostics() =~= Seq::<ErrorView>::empty());
        scanner
    }

    /// Scans `source` from its first character to its last and returns its
    /// tokens in source order. The diagnostics for the input that was skipped
    /// are kept in the scanner, in source order, until the next scan.
    ///
    /// The last token is the end-of-file marker, on the line that the end of
    /// the source is on, and no token before it is one. The lexeme of every
    /// number is a numeral, so that it can be parsed as a number.
    pub fn scan(&mut self, source: &str) -> (tokens: Vec<Token>)
        ensures
            tokens.deep_view() == tokens_of(source@),
            final(self).diagnostics() == errors_of(source@),
            final(self).text() == source@,
            tokens@.len() >= 1,
            tokens.deep_view().last() == eof_token(source@),
            forall|i: int|
                0 <= i < tokens@.len() - 1 ==> (#[trigger] tokens.deep_view()[i]).kind
                    != TokenKind::Eof,
            forall|i: int|
                0 <= i < tokens@.len() && (#[trigger] tokens.deep_view()[i]).kind
                    == TokenKind::Number ==> is_numeral(tokens.deep_view()[i].lexeme),
    {
        proof {
            lemma_end_marker(source@);
            lemma_numbers_are_numerals(source@);
        }
        let mut buffer = chars_of(source);
        buffer.push('\0');
        assert(buffer@.len() == buffer.len());
        self.source = buffer;
        self.tokens = Vec::new();
        self.errors = Vec::new();
        self.start = 0;
        self.current = 0;
        self.line = 1;
        assert(self.text() =~= source@);
        assert(self.tokens.deep_view() =~= Seq::<TokenView>::empty());
        assert(self.errors.deep_view() =~= Seq::<ErrorView>::empty());
        let tokens = self.scan_tokens();
        assert(tokens.deep_view() =~= tokens_of(source@));
        assert(self.errors.deep_view() =~= errors_of(source@));
        tokens
    }

    /// The diagnostics of the last scan, in source order.
    pub fn errors(&self) -> (errors: &Vec<ScannerError>)
        ensures
            errors.deep_view() == self.diagnostics(),
    {
        &self.errors
    }

    /// Scans the text from the cursor to its end, adds the end-of-file
    /// marker, and hands the tokens over.
    fn scan_tokens(&mut self) -> (tokens: Vec<Token>)
        requires
            old(self).inv(),
            old(self).line == line_at(old(self).text(), old(self).current as int),
        ensures
            final(self).inv(),
            final(self).source == old(self).source,
            tokens.deep_view() == old(self).tokens.deep_view() + tokens_from(
                old(self).text(),
                old(self).current as int,
            ),
            final(self).errors.deep_view() == old(self).errors.deep_view() + errors_from(
                old(self).text(),
                old(self).current as int,
            ),
    {
        let ghost text = self.text();
        let ghost all_tokens = self.tokens.deep_view() + tokens_from(text, self.current as int);
        let ghost all_errors = self.errors.deep_view() + errors_from(text, self.current as int);
        while !self.is_at_end()
            invariant
                self.inv(),
                self.source == old(self).source,
                text == self.text(),
                self.line == line_at(text, self.current as int),
                self.tokens.deep_view() + tokens_from(text, self.current as int) == all_tokens,
                self.errors.deep_view() + errors_from(text, self.current as int) == all_errors,
            decreases text.len() - self.current,
        {
            self.start = self.current;
            let ghost before = *self;
            self.scan_token();
            proof {
                let pos = before.current as int;
                lemma_step_advances(text, pos);
                assert(self.tokens.deep_view() + tokens_from(text, self.current as int)
                    =~= before.tokens.deep_view() + tokens_from(text, pos));
                assert(self.errors.deep_view() + errors_from(text, self.current as int)
                    =~= before.errors.deep_view() + errors_from(text, pos));
            }
        }
        let ghost scanned = self.tokens.deep_view();
        self.tokens.push(Token::new(TokenType::Eof, String::new(), self.line));
        assert(self.tokens.deep_view() =~= scanned + tokens_from(text, self.current as int));
        assert(self.errors.deep_view() + errors_from(text, self.current as int)
            =~= self.errors.deep_view());
        let mut tokens: Vec<Token> = Vec::new();
        std::mem::swap(&mut tokens, &mut self.tokens);
        tokens
    }

    /// Whether the cursor has reached the end of the text.
    fn is_at_end(&self) -> (at_end: bool)
        requires
            self.inv(),
        ensures
            at_end == (self.current >= self.text().len()),
    {
        self.current + 1 >= self.source.len()
    }

    /// Consumes the character at the cursor and returns it.
    fn advance(&mut self) -> (c: char)
        requires
            old(self).inv(),
            old(self).current < old(self).text().len(),
        ensures
            final(self).inv(),
            Self::moved_to(*old(self), *final(self), old(self).current + 1),
            c == old(self).text()[old(self).current as int],
    {
        let c = self.source[self.current];
        self.current += 1;
        c
    }

    /// Adds a token of the given kind: its lexeme is the text from the start
    /// of the current lexeme to the cursor, its line the current line.
    fn add_token(&mut self, token_type: TokenType)
        requires
            old(self).inv(),
        ensures
            final(self).inv(),
            final(self).source == old(self).source,
            final(self).errors == old(self).errors,
            final(self).start == old(self).start,
            final(self).current == old(self).current,
            final(self).line == old(self).line,
            final(self).tokens.deep_view() == old(self).tokens.deep_view().push(
                TokenView {
                    kind: token_type@,
                    lexeme: old(self).text().subrange(
                        old(self).start as int,
                        old(self).current as int,
                    ),
                    line: old(self).line as nat,
                },
            ),
    {
        let lexeme = string_of(&self.source, self.start, self.current);
        assert(lexeme@ =~= self.text().subrange(self.start as int, self.current as int));
        let ghost scanned = self.tokens.deep_view();
        let token = Token::new(token_type, lexeme, self.line);
        self.tokens.push(token);
        assert(self.tokens.deep_view() =~= scanned.push(token@));
    }

    /// Adds a diagnostic of the given kind for the current line.
    fn add_error(&mut self, kind: ScannerErrorKind)
        requires
            old(self).inv(),
        ensures
            final(self).inv(),
            final(self).source == old(self).source,
            final(self).tokens == old(self).tokens,
            final(self).start == old(self).start,
            final(self).current == old(self).current,
            final(self).line == old(self).line,
            final(self).errors.deep_view() == old(self).errors.deep_view().push(
                ErrorView { kind, line: old(self).line as nat },
            ),
    {
        let ghost reported = self.errors.deep_view();
        let error = ScannerError::new(kind, self.line);
        self.errors.push(error);
        assert(self.errors.deep_view() =~= reported.push(error@));
    }

    /// The character at the cursor, or NUL at the end of the text. Nothing is
    /// consumed.
    fn peek(&self) -> (c: char)
        requires
            self.inv(),
        ensures
            c == char_at(self.text(), self.current as int),
    {
        self.source[self.current]
    }

    /// The character after the one at the cursor, or NUL where the text has
    /// none. Nothing is consumed.
    fn peek_next(&self) -> (c: char)
        requires
            self.inv(),
        ensures
            c == char_at(self.text(), self.current + 1),
    {
        if self.is_at_end() {
            return '\0';
        }
        self.source[self.current + 1]
    }

    /// Consumes the character at the cursor if it is `expected`, and tells
    /// whether it did. At the end of the text nothing is expected.
    fn is_expected(&mut self, expected: char) -> (found: bool)
        requires
            old(self).inv(),
        ensures
            final(self).inv(),
            found == (old(self).current < old(self).text().len() && old(self).text()[old(
                self,
            ).current as int] == expected),
            Self::moved_to(
                *old(self),
                *final(self),
                if found {
                    old(self).current + 1
                } else {
                    old(self).current as int
                },
            ),
    {
        if self.is_at_end() {
            return false;
        }
        if self.source[self.current] != expected {
            return false;
        }
        self.current += 1;
        true
    }

    /// Takes one step: consumes the input at the cursor that makes one token,
    /// one stretch of whitespace or comment, or one piece of rejected input,
    /// and records what it gives.
    fn scan_token(&mut self)
        requires
            old(self).inv(),
            old(self).start == old(self).current,
            old(self).current < old(self).text().len(),
            old(self).line == line_at(old(self).text(), old(self).current as int),
        ensures
            Self::stepped(*old(self), *final(self)),
    {
        let ghost text = self.text();
        let ghost pos = self.start as int;
        proof {
            lemma_newlines_bounded(text, pos);
        }
        let c = self.advance();
        if c == '(' {
            self.add_token(TokenType::LeftParen);
        } else if c == ')' {
            self.add_token(TokenType::RightParen);
        } else if c == '{' {
            self.add_token(TokenType::LeftBrace);
        } else if c == '}' {
            self.add_token(TokenType::RightBrace);
        } else if c == ',' {
            self.add_token(TokenType::Comma);
        } else if c == '.' {
            self.add_token(TokenType::Dot);
        } else if c == '-' {
            self.add_token(TokenType::Minus);
        } else if c == '+' {
            self.add_token(TokenType::Plus);
        } else if c == ';' {
            self.add_token(TokenType::Semicolon);
        } else if c == '*' {
            self.add_token(TokenType::Star);
        } else if c == '!' {
            let token = if self.is_expected('=') {
                TokenType::BangEqual
            } else {
                TokenType::Bang
            };
            self.add_token(token);
        } else if c == '=' {
            let token = if self.is_expected('=') {
                TokenType::EqualEqual
            } else {
                TokenType::Equal
            };
            self.add_token(token);
        } else if c == '<' {
            let token = if self.is_expected('=') {
                TokenType::LessEqual
            } else {
                TokenType::Less
            };
            self.add_token(token);
        } else if c == '>' {
            let token = if self.is_expected('=') {
                TokenType::GreaterEqual
            } else {
                TokenType::Greater
            };
            self.add_token(token);
        } else if c == '/' {
            if self.is_expected('/') {
                while self.peek() != '\n' && !self.is_at_end()
                    invariant
                        self.inv(),
                        Self::moved_to(*old(self), *self, self.current as int),
                        text == self.text(),
                        pos == self.start,
                    text == self.text(),
                    pos == self.start,
                text == self.text(),
                pos == self.start,
                        pos + 2 <= self.current,
                        line_end(text, self.current as int) == line_end(text, pos + 2),
                    decreases text.len() - self.current,
                {
                    self.advance();
                }
                proof {
                    lemma_run_end_maximal(text, pos + 2, |c: char| c != '\n');
                    assert forall|k: int| pos <= k < self.current implies #[trigger] text[k]
                        != '\n' by {}
                    lemma_same_line(text, pos, self.current as int);
                }
            } else {
                self.add_token(TokenType::Slash);
            }
        } else if c == ' ' || c == '\t' || c == '\r' {
        } else if c == '\n' {
            self.line += 1;
        } else if c == '"' {
            self.scan_string();
        } else if is_digit(c) {
            self.scan_number();
        } else if is_alpha(c) {
            self.scan_identifier();
        } else {
            self.add_error(ScannerErrorKind::UnexpectedCharacter);
        }
        proof {
            if c != '\n' && c != '"' && !is_digit(c) && !is_alpha(c) && !(c == '/' && char_at(
                text,
                pos + 1,
            ) == '/') {
                assert forall|k: int| pos <= k < self.current implies #[trigger] text[k]
                    != '\n' by {}
                lemma_same_line(text, pos, self.current as int);
            }
            assert(self.tokens.deep_view() =~= old(self).tokens.deep_view() + seq_of(
                token_at(text, pos),
            ));
            assert(self.errors.deep_view() =~= old(self).errors.deep_view() + seq_of(
                error_at(text, pos),
            ));
        }
    }

    /// Scans the rest of an identifier or reserved word, whose first
    /// character has been consumed.
    fn scan_identifier(&mut self)
        requires
            old(self).inv(),
            old(self).start + 1 == old(self).current,
            is_alpha(old(self).text()[old(self).start as int]),
            old(self).line == line_at(old(self).text(), old(self).start as int),
        ensures
            Self::stepped(*old(self), *final(self)),
    {
        let ghost text = self.text();
        let ghost pos = self.start as int;
        while is_alpha_numeric(self.peek())
            invariant
                self.inv(),
                Self::moved_to(*old(self), *self, self.current as int),
                text == self.text(),
                pos == self.start,
                pos < self.current,
                word_end(text, self.current as int) == word_end(text, pos),
            decreases text.len() - self.current,
        {
            self.advance();
        }
        proof {
            lemma_run_end_maximal(text, pos, |c: char| is_alpha_numeric(c));
            assert forall|k: int| pos <= k < self.current implies #[trigger] text[k] != '\n' by {}
            lemma_same_line(text, pos, self.current as int);
        }
        let key = string_of(&self.source, self.start, self.current);
        assert(key@ =~= text.subrange(pos, self.current as int));
        match self.keywords.get(&key) {
            Some(token_type) => {
                self.add_token(token_type);
            },
            None => {
                self.add_token(TokenType::Identifier);
            },
        }
        proof {
            assert(self.tokens.deep_view() =~= old(self).tokens.deep_view() + seq_of(
                token_at(text, pos),
            ));
            assert(self.errors.deep_view() =~= old(self).errors.deep_view() + seq_of(
                error_at(text, pos),
            ));
        }
    }

    /// Scans the rest of a number, whose first digit has been consumed: the
    /// digits that follow, and a fraction if a dot and a digit come next.
    fn scan_number(&mut self)
        requires
            old(self).inv(),
            old(self).start + 1 == old(self).current,
            is_digit(old(self).text()[old(self).start as int]),
            old(self).line == line_at(old(self).text(), old(self).start as int),
        ensures
            Self::stepped(*old(self), *final(self)),
    {
        let ghost text = self.text();
        let ghost pos = self.start as int;
        while is_digit(self.peek())
            invariant
                self.inv(),
                Self::moved_to(*old(self), *self, self.current as int),
                text == self.text(),
                pos == self.start,
                pos < self.current,
                digits_end(text, self.current as int) == digits_end(text, pos),
            decreases text.len() - self.current,
        {
            self.advance();
        }
        let ghost whole = self.current as int;
        proof {
            lemma_run_end_maximal(text, pos, |c: char| is_digit(c));
        }
        if self.peek() == '.' && is_digit(self.peek_next()) {
            self.advance();
            while is_digit(self.peek())
                invariant
                    self.inv(),
                    Self::moved_to(*old(self), *self, self.current as int),
                    text == self.text(),
                    pos == self.start,
                text == self.text(),
                pos == self.start,
                    whole < self.current,
                    digits_end(text, self.current as int) == digits_end(text, whole + 1),
                decreases text.len() - self.current,
            {
                self.advance();
            }
            proof {
                lemma_run_end_maximal(text, whole + 1, |c: char| is_digit(c));
            }
        }
        proof {
            assert forall|k: int| pos <= k < self.current implies #[trigger] text[k] != '\n' by {}
            lemma_same_line(text, pos, self.current as int);
        }
        self.add_token(TokenType::Number);
        proof {
            assert(self.tokens.deep_view() =~= old(self).tokens.deep_view() + seq_of(
                token_at(text, pos),
            ));
            assert(self.errors.deep_view() =~= old(self).errors.deep_view() + seq_of(
                error_at(text, pos),
            ));
        }
    }

    /// Scans the rest of a string literal, whose opening quote has been
    /// consumed: everything up to the closing quote, newlines included. Where
    /// the text ends before a closing quote, the literal gives no token but a
    /// diagnostic for the line on which it starts.
    fn scan_string(&mut self)
        requires
            old(self).inv(),
            old(self).start + 1 == old(self).current,
            old(self).text()[old(self).start as int] == '"',
            old(self).line == line_at(old(self).text(), old(self).start as int),
        ensures
            Self::stepped(*old(self), *final(self)),
    {
        let ghost text = self.text();
        let ghost pos = self.start as int;
        let mut newlines: usize = 0;
        proof {
            lemma_newlines_bounded(text, pos);
        }
        while self.peek() != '"' && !self.is_at_end()
            invariant
                self.inv(),
                Self::moved_to(*old(self), *self, self.current as int),
                text == self.text(),
                pos == self.start,
                pos < self.current,
                quote_pos(text, self.current as int) == quote_pos(text, pos + 1),
                self.line + newlines == line_at(text, self.current as int),
            decreases text.len() - self.current,
        {
            proof {
                lemma_newlines_bounded(text, self.current + 1);
            }
            if self.peek() == '\n' {
                newlines += 1;
            }
            self.advance();
        }
        if self.is_at_end() {
            self.add_error(ScannerErrorKind::UnterminatedString);
        } else {
            proof {
                lemma_newlines_bounded(text, self.current + 1);
            }
            self.advance();
            let literal = string_of(&self.source, self.start + 1, self.current - 1);
            assert(literal@ =~= text.subrange(pos + 1, self.current - 1));
            self.add_token(TokenType::String(literal));
        }
        proof {
            lemma_newlines_bounded(text, self.current as int);
        }
        self.line += newlines;
        proof {
            assert(self.tokens.deep_view() =~= old(self).tokens.deep_view() + seq_of(
                token_at(text, pos),
            ));
            assert(self.errors.deep_view() =~= old(self).errors.deep_view() + seq_of(
                error_at(text, pos),
            ));
        }
    }
}

} // verus!
