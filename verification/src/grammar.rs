//! The lexical grammar: what stands at each position of a source text, and
//! the tokens and diagnostics that a whole text gives.
//!
//! Everything here is mathematics over sequences of characters. The scanner
//! is proved to compute `tokens_of` and `errors_of`.

use vstd::prelude::*;
use crate::error::{ErrorView, ScannerErrorKind};
use crate::keywords::keyword_kind;
use crate::token::{TokenKind, TokenView};
use crate::{is_alpha, is_alpha_numeric, is_digit};

verus! {

/// The character at index `i`, or NUL where the text has none: what a
/// lookahead sees.
pub open spec fn char_at(src: Seq<char>, i: int) -> char {
    if 0 <= i < src.len() {
        src[i]
    } else {
        '\0'
    }
}

/// The end of the longest run of accepted characters that starts at `from`:
/// the index of the first character at or after `from` that is not accepted,
/// or the length of the text if there is none.
pub open spec fn run_end(src: Seq<char>, from: int, accepts: spec_fn(char) -> bool) -> int
    decreases src.len() - from,
{
    if 0 <= from < src.len() && accepts(src[from]) {
        run_end(src, from + 1, accepts)
    } else {
        from
    }
}

/// The end of the run of digits that starts at `from`.
pub open spec fn digits_end(src: Seq<char>, from: int) -> int {
    run_end(src, from, |c: char| is_digit(c))
}

/// The end of the run of letters, digits and underscores that starts at `from`.
pub open spec fn word_end(src: Seq<char>, from: int) -> int {
    run_end(src, from, |c: char| is_alpha_numeric(c))
}

/// The end of the line that `from` is on: the index of the next newline, or
/// the length of the text.
pub open spec fn line_end(src: Seq<char>, from: int) -> int {
    run_end(src, from, |c: char| c != '\n')
}

/// The index of the next double quote at or after `from`, or the length of
/// the text if there is none.
pub open spec fn quote_pos(src: Seq<char>, from: int) -> int {
    run_end(src, from, |c: char| c != '"')
}

/// The end of the number that starts at `pos`: a run of digits, and then, if
/// a dot and a digit follow, the dot and a second run of digits. A dot that no
/// digit follows is not part of the number.
pub open spec fn number_end(src: Seq<char>, pos: int) -> int {
    let whole = digits_end(src, pos);
    if char_at(src, whole) == '.' && is_digit(char_at(src, whole + 1)) {
        digits_end(src, whole + 1)
    } else {
        whole
    }
}

/// The number of newlines before index `pos`.
pub open spec fn newlines_before(src: Seq<char>, pos: int) -> nat
    decreases pos,
{
    if pos <= 0 {
        0
    } else {
        newlines_before(src, pos - 1) + if char_at(src, pos - 1) == '\n' {
            1nat
        } else {
            0nat
        }
    }
}

/// The 1-based line that index `pos` is on.
pub open spec fn line_at(src: Seq<char>, pos: int) -> nat {
    1 + newlines_before(src, pos)
}

/// The token that a punctuation character makes on its own.
pub open spec fn punctuation_kind(c: char) -> Option<TokenKind> {
    if c == '(' {
        Some(TokenKind::LeftParen)
    } else if c == ')' {
        Some(TokenKind::RightParen)
    } else if c == '{' {
        Some(TokenKind::LeftBrace)
    } else if c == '}' {
        Some(TokenKind::RightBrace)
    } else if c == ',' {
        Some(TokenKind::Comma)
    } else if c == '.' {
        Some(TokenKind::Dot)
    } else if c == '-' {
        Some(TokenKind::Minus)
    } else if c == '+' {
        Some(TokenKind::Plus)
    } else if c == ';' {
        Some(TokenKind::Semicolon)
    } else if c == '*' {
        Some(TokenKind::Star)
    } else {
        None
    }
}

/// The token that an operator character makes: the two-character operator
/// where an equals sign follows it, the one-character operator where none
/// does.
pub open spec fn operator_kind(c: char, equal_follows: bool) -> Option<TokenKind> {
    if c == '!' {
        Some(if equal_follows { TokenKind::BangEqual } else { TokenKind::Bang })
    } else if c == '=' {
        Some(if equal_follows { TokenKind::EqualEqual } else { TokenKind::Equal })
    } else if c == '<' {
        Some(if equal_follows { TokenKind::LessEqual } else { TokenKind::Less })
    } else if c == '>' {
        Some(if equal_follows { TokenKind::GreaterEqual } else { TokenKind::Greater })
    } else {
        None
    }
}

/// Space, tab, carriage return and newline.
pub open spec fn is_blank(c: char) -> bool {
    c == ' ' || c == '\t' || c == '\r' || c == '\n'
}

/// The kind of a word: that of the reserved word if it is one, an identifier
/// if it is not.
pub open spec fn word_kind(word: Seq<char>) -> TokenKind {
    match keyword_kind(word) {
        Some(kind) => kind,
        None => TokenKind::Identifier,
    }
}

/// What the scanner makes of the input at one position.
pub enum Outcome {
    /// A token of this kind.
    Token(TokenKind),
    /// Whitespace or a comment: nothing is reported.
    Skipped,
    /// Input that begins no token: a diagnostic of this kind is reported.
    Rejected(ScannerErrorKind),
}

/// One step of the scanner: what it makes of the input at a position, and
/// the position at which it goes on.
pub struct Step {
    pub outcome: Outcome,
    pub end: int,
}

/// The step that the scanner takes at `pos`, decided by the character there
/// and at most two characters of lookahead.
pub open spec fn step(src: Seq<char>, pos: int) -> Step
    recommends
        0 <= pos < src.len(),
{
    let c = src[pos];
    let next = char_at(src, pos + 1);
    if punctuation_kind(c) is Some {
        Step { outcome: Outcome::Token(punctuation_kind(c).unwrap()), end: pos + 1 }
    } else if operator_kind(c, next == '=') is Some {
        Step {
            outcome: Outcome::Token(operator_kind(c, next == '=').unwrap()),
            end: if next == '=' {
                pos + 2
            } else {
                pos + 1
            },
        }
    } else if c == '/' {
        if next == '/' {
            Step { outcome: Outcome::Skipped, end: line_end(src, pos + 2) }
        } else {
            Step { outcome: Outcome::Token(TokenKind::Slash), end: pos + 1 }
        }
    } else if is_blank(c) {
        Step { outcome: Outcome::Skipped, end: pos + 1 }
    } else if c == '"' {
        let close = quote_pos(src, pos + 1);
        if close < src.len() {
            Step {
                outcome: Outcome::Token(TokenKind::String(src.subrange(pos + 1, close))),
                end: close + 1,
            }
        } else {
            Step {
                outcome: Outcome::Rejected(ScannerErrorKind::UnterminatedString),
                end: src.len() as int,
            }
        }
    } else if is_digit(c) {
        Step { outcome: Outcome::Token(TokenKind::Number), end: number_end(src, pos) }
    } else if is_alpha(c) {
        let end = word_end(src, pos);
        Step { outcome: Outcome::Token(word_kind(src.subrange(pos, end))), end }
    } else {
        Step { outcome: Outcome::Rejected(ScannerErrorKind::UnexpectedCharacter), end: pos + 1 }
    }
}

/// The token that the step at `pos` gives, if it gives one: its lexeme is the
/// text that the step covers, its line the one that `pos` is on.
pub open spec fn token_at(src: Seq<char>, pos: int) -> Option<TokenView> {
    match step(src, pos).outcome {
        Outcome::Token(kind) => Some(
            TokenView {
                kind,
                lexeme: src.subrange(pos, step(src, pos).end),
                line: line_at(src, pos),
            },
        ),
        _ => None,
    }
}

/// The diagnostic that the step at `pos` gives, if it gives one: its line is
/// the one that `pos` is on.
pub open spec fn error_at(src: Seq<char>, pos: int) -> Option<ErrorView> {
    match step(src, pos).outcome {
        Outcome::Rejected(kind) => Some(ErrorView { kind, line: line_at(src, pos) }),
        _ => None,
    }
}

/// The marker that ends every token stream: it has no text, and its line is
/// the one that the end of the source is on.
pub open spec fn eof_token(src: Seq<char>) -> TokenView {
    TokenView {
        kind: TokenKind::Eof,
        lexeme: Seq::empty(),
        line: line_at(src, src.len() as int),
    }
}

/// A sequence of no element or of one.
pub open spec fn seq_of<A>(item: Option<A>) -> Seq<A> {
    match item {
        Some(a) => seq![a],
        None => Seq::empty(),
    }
}

/// The tokens that scanning gives from `pos` on, the end-of-file marker last.
pub open spec fn tokens_from(src: Seq<char>, pos: int) -> Seq<TokenView>
    decreases src.len() - pos,
    via tokens_from_decreases
{
    if 0 <= pos < src.len() {
        seq_of(token_at(src, pos)) + tokens_from(src, step(src, pos).end)
    } else {
        seq![eof_token(src)]
    }
}

/// The diagnostics that scanning gives from `pos` on.
pub open spec fn errors_from(src: Seq<char>, pos: int) -> Seq<ErrorView>
    decreases src.len() - pos,
    via errors_from_decreases
{
    if 0 <= pos < src.len() {
        seq_of(error_at(src, pos)) + errors_from(src, step(src, pos).end)
    } else {
        Seq::empty()
    }
}

/// The tokens of a source text.
pub open spec fn tokens_of(src: Seq<char>) -> Seq<TokenView> {
    tokens_from(src, 0)
}

/// The diagnostics of a source text.
pub open spec fn errors_of(src: Seq<char>) -> Seq<ErrorView> {
    errors_from(src, 0)
}

#[via_fn]
proof fn tokens_from_decreases(src: Seq<char>, pos: int) {
    if 0 <= pos < src.len() {
        lemma_step_advances(src, pos);
    }
}

#[via_fn]
proof fn errors_from_decreases(src: Seq<char>, pos: int) {
    if 0 <= pos < src.len() {
        lemma_step_advances(src, pos);
    }
}

/// A run ends at or after its start and within the text.
pub proof fn lemma_run_end_bounds(src: Seq<char>, from: int, accepts: spec_fn(char) -> bool)
    requires
        0 <= from <= src.len(),
    ensures
        from <= run_end(src, from, accepts) <= src.len(),
    decreases src.len() - from,
{
    if from < src.len() && accepts(src[from]) {
        lemma_run_end_bounds(src, from + 1, accepts);
    }
}

/// Every character of a run is accepted, and the character that follows the
/// run, if there is one, is not.
pub proof fn lemma_run_end_maximal(src: Seq<char>, from: int, accepts: spec_fn(char) -> bool)
    requires
        0 <= from <= src.len(),
    ensures
        forall|k: int| from <= k < run_end(src, from, accepts) ==> accepts(#[trigger] src[k]),
        run_end(src, from, accepts) < src.len() ==> !accepts(src[run_end(src, from, accepts)]),
    decreases src.len() - from,
{
    if from < src.len() && accepts(src[from]) {
        lemma_run_end_maximal(src, from + 1, accepts);
    }
}

/// A run is found by its two properties: an index `end` up to which every
/// character is accepted, and at which the text ends or a character is not
/// accepted, is the end of the run.
pub proof fn lemma_run_end_unique(
    src: Seq<char>,
    from: int,
    accepts: spec_fn(char) -> bool,
    end: int,
)
    requires
        0 <= from <= end <= src.len(),
        forall|k: int| from <= k < end ==> accepts(#[trigger] src[k]),
        end < src.len() ==> !accepts(src[end]),
    ensures
        run_end(src, from, accepts) == end,
    decreases end - from,
{
    if from < end {
        assert(accepts(src[from]));
        lemma_run_end_unique(src, from + 1, accepts, end);
    }
}

/// A number ends after its first digit or later, and within the text.
pub proof fn lemma_number_end_bounds(src: Seq<char>, pos: int)
    requires
        0 <= pos < src.len(),
        is_digit(src[pos]),
    ensures
        pos < number_end(src, pos) <= src.len(),
{
    let digit = |c: char| is_digit(c);
    lemma_run_end_bounds(src, pos + 1, digit);
    let whole = digits_end(src, pos);
    assert(whole == run_end(src, pos + 1, digit));
    if char_at(src, whole) == '.' && is_digit(char_at(src, whole + 1)) {
        lemma_run_end_bounds(src, whole + 1, digit);
    }
}

/// Every step covers at least one character and ends within the text.
pub proof fn lemma_step_advances(src: Seq<char>, pos: int)
    requires
        0 <= pos < src.len(),
    ensures
        pos < step(src, pos).end <= src.len(),
{
    let c = src[pos];
    let next = char_at(src, pos + 1);
    if punctuation_kind(c) is Some {
    } else if operator_kind(c, next == '=') is Some {
    } else if c == '/' {
        if next == '/' {
            lemma_run_end_bounds(src, pos + 2, |c: char| c != '\n');
        }
    } else if is_blank(c) {
    } else if c == '"' {
        lemma_run_end_bounds(src, pos + 1, |c: char| c != '"');
    } else if is_digit(c) {
        lemma_number_end_bounds(src, pos);
    } else if is_alpha(c) {
        lemma_run_end_bounds(src, pos + 1, |c: char| is_alpha_numeric(c));
        assert(word_end(src, pos) == run_end(src, pos + 1, |c: char| is_alpha_numeric(c)));
    } else {
    }
}

} // verus!
