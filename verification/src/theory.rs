//! Theorems about the lexical grammar: what holds of the tokens of every
//! source text.

use vstd::prelude::*;
use crate::error::ErrorView;
use crate::grammar::{
    char_at, digits_end, eof_token, errors_from, errors_of, lemma_run_end_bounds,
    lemma_run_end_maximal, lemma_run_end_unique, lemma_step_advances, line_at, newlines_before,
    number_end, seq_of, step, token_at, tokens_from, tokens_of, word_end, word_kind, Outcome,
    Step,
};
use crate::keywords::{is_reserved, lemma_keyword_kind_at, reserved_at, reserved_words};
use crate::token::{TokenKind, TokenView};
use crate::{is_alpha, is_alpha_numeric, is_digit};

verus! {

/// No reserved word scans as an identifier or as the end-of-file marker.
pub proof fn lemma_reserved_kinds()
    ensures
        forall|i: int|
            0 <= i < reserved_words().len() ==> {
                &&& (#[trigger] reserved_words()[i]).1 != TokenKind::Identifier
                &&& reserved_words()[i].1 != TokenKind::Eof
                &&& reserved_words()[i].1 != TokenKind::Number
                &&& !(reserved_words()[i].1 is String)
            },
{
}

/// A word never scans as the end-of-file marker.
pub proof fn lemma_word_kind_not_eof(word: Seq<char>)
    ensures
        word_kind(word) != TokenKind::Eof,
{
    lemma_reserved_kinds();
    if is_reserved(word) {
        let i = choose|i: int| reserved_at(word, i);
        assert(reserved_at(word, i));
    }
}

/// No step gives the end-of-file marker.
pub proof fn lemma_step_not_eof(src: Seq<char>, pos: int)
    requires
        0 <= pos < src.len(),
    ensures
        step(src, pos).outcome != Outcome::Token(TokenKind::Eof),
{
    lemma_word_kind_not_eof(src.subrange(pos, word_end(src, pos)));
}

/// The tokens from a position on end with the end-of-file marker, and each
/// token before it is the one that the step at some later position gives.
pub proof fn lemma_tokens_from_origin(src: Seq<char>, pos: int)
    requires
        0 <= pos <= src.len(),
    ensures
        tokens_from(src, pos).len() >= 1,
        tokens_from(src, pos).last() == eof_token(src),
        forall|i: int|
            0 <= i < tokens_from(src, pos).len() - 1 ==> exists|at: int|
                pos <= at < src.len() && #[trigger] token_at(src, at) == Some(
                    #[trigger] tokens_from(src, pos)[i],
                ),
    decreases src.len() - pos,
{
    if pos < src.len() {
        lemma_step_advances(src, pos);
        let end = step(src, pos).end;
        lemma_tokens_from_origin(src, end);
        let first = seq_of(token_at(src, pos));
        let rest = tokens_from(src, end);
        let all = tokens_from(src, pos);
        assert(all == first + rest);
        assert forall|i: int| 0 <= i < all.len() - 1 implies exists|at: int|
            pos <= at < src.len() && #[trigger] token_at(src, at) == Some(#[trigger] all[i]) by {
            if i < first.len() {
                assert(token_at(src, pos) == Some(all[i]));
            } else {
                let j = i - first.len();
                assert(all[i] == rest[j]);
                let at = choose|at: int|
                    end <= at < src.len() && #[trigger] token_at(src, at) == Some(rest[j]);
                assert(pos <= at < src.len() && token_at(src, at) == Some(all[i]));
            }
        }
    }
}

/// The tokens of every source text end with the end-of-file marker, which
/// stands on the line that the end of the text is on: line 1 plus one line
/// for each newline in the text. No other token is an end-of-file marker.
pub proof fn lemma_end_marker(src: Seq<char>)
    ensures
        tokens_of(src).len() >= 1,
        tokens_of(src).last() == (TokenView {
            kind: TokenKind::Eof,
            lexeme: Seq::empty(),
            line: 1 + newlines_before(src, src.len() as int),
        }),
        forall|i: int|
            0 <= i < tokens_of(src).len() - 1 ==> (#[trigger] tokens_of(src)[i]).kind
                != TokenKind::Eof,
{
    lemma_tokens_from_origin(src, 0);
    let all = tokens_of(src);
    assert forall|i: int| 0 <= i < all.len() - 1 implies (#[trigger] all[i]).kind
        != TokenKind::Eof by {
        let at = choose|at: int|
            0 <= at < src.len() && #[trigger] token_at(src, at) == Some(all[i]);
        lemma_step_not_eof(src, at);
    }
}

/// Over a stretch of text without a newline the line stays the same.
pub proof fn lemma_same_line(src: Seq<char>, from: int, to: int)
    requires
        0 <= from <= to <= src.len(),
        forall|k: int| from <= k < to ==> #[trigger] src[k] != '\n',
    ensures
        line_at(src, to) == line_at(src, from),
    decreases to - from,
{
    if from < to {
        lemma_same_line(src, from, to - 1);
        assert(src[to - 1] != '\n');
    }
}

/// A text that is one word (a letter or an underscore, then letters, digits
/// and underscores) gives one token, whose lexeme is the whole text, and no
/// diagnostic.
pub proof fn lemma_word_alone(word: Seq<char>)
    requires
        word.len() > 0,
        is_alpha(word[0]),
        forall|k: int| 0 <= k < word.len() ==> is_alpha_numeric(#[trigger] word[k]),
    ensures
        tokens_of(word) == seq![
            TokenView { kind: word_kind(word), lexeme: word, line: 1 },
            TokenView { kind: TokenKind::Eof, lexeme: Seq::empty(), line: 1 },
        ],
        errors_of(word) == Seq::<ErrorView>::empty(),
{
    let len = word.len() as int;
    lemma_run_end_unique(word, 0, |c: char| is_alpha_numeric(c), len);
    assert(word.subrange(0, len) =~= word);
    assert(step(word, 0) == Step { outcome: Outcome::Token(word_kind(word)), end: len });
    lemma_same_line(word, 0, len);
    assert(tokens_from(word, len) == seq![eof_token(word)]);
    assert(errors_from(word, len) == Seq::<ErrorView>::empty());
    assert(tokens_of(word) =~= seq![
        TokenView { kind: word_kind(word), lexeme: word, line: 1 },
        TokenView { kind: TokenKind::Eof, lexeme: Seq::empty(), line: 1 },
    ]);
    assert(errors_of(word) =~= Seq::<ErrorView>::empty());
}

/// Every reserved word is made of letters.
pub proof fn lemma_reserved_words_are_words()
    ensures
        forall|i: int|
            0 <= i < reserved_words().len() ==> (#[trigger] reserved_words()[i]).0.len() > 0,
        forall|i: int, k: int|
            0 <= i < reserved_words().len() && 0 <= k < reserved_words()[i].0.len() ==> is_alpha(
                #[trigger] reserved_words()[i].0[k],
            ),
{
    reveal_strlit("and");
    reveal_strlit("class");
    reveal_strlit("else");
    reveal_strlit("false");
    reveal_strlit("for");
    reveal_strlit("fun");
    reveal_strlit("if");
    reveal_strlit("nil");
    reveal_strlit("or");
    reveal_strlit("print");
    reveal_strlit("return");
    reveal_strlit("super");
    reveal_strlit("this");
    reveal_strlit("true");
    reveal_strlit("var");
    reveal_strlit("while");
}

/// Every reserved word, scanned alone, gives exactly one token before the
/// end-of-file marker: one of the kind listed for the word, which is never
/// that of an identifier. It gives no diagnostic.
pub proof fn lemma_reserved_word_alone(i: int)
    requires
        0 <= i < reserved_words().len(),
    ensures
        tokens_of(reserved_words()[i].0) == seq![
            TokenView { kind: reserved_words()[i].1, lexeme: reserved_words()[i].0, line: 1 },
            TokenView { kind: TokenKind::Eof, lexeme: Seq::empty(), line: 1 },
        ],
        reserved_words()[i].1 != TokenKind::Identifier,
        errors_of(reserved_words()[i].0) == Seq::<ErrorView>::empty(),
{
    let word = reserved_words()[i].0;
    lemma_reserved_words_are_words();
    lemma_reserved_kinds();
    lemma_keyword_kind_at(i);
    assert forall|k: int| 0 <= k < word.len() implies is_alpha_numeric(#[trigger] word[k]) by {
        assert(is_alpha(reserved_words()[i].0[k]));
    }
    assert(is_alpha(reserved_words()[i].0[0]));
    lemma_word_alone(word);
}

/// Whether `text` is a run of digits of length `whole`, and then either
/// nothing or a dot and one or more digits.
pub open spec fn is_numeral_with(text: Seq<char>, whole: int) -> bool {
    &&& 0 < whole <= text.len()
    &&& forall|k: int| 0 <= k < whole ==> is_digit(#[trigger] text[k])
    &&& whole < text.len() ==> {
        &&& text[whole] == '.'
        &&& whole + 1 < text.len()
        &&& forall|k: int| whole < k < text.len() ==> is_digit(#[trigger] text[k])
    }
}

/// A numeral: one or more digits, which a dot and one or more digits may
/// follow.
pub open spec fn is_numeral(text: Seq<char>) -> bool {
    exists|whole: int| is_numeral_with(text, whole)
}

/// The text of a number is a numeral.
pub proof fn lemma_number_is_numeral(src: Seq<char>, pos: int)
    requires
        0 <= pos < src.len(),
        step(src, pos).outcome == Outcome::Token(TokenKind::Number),
    ensures
        is_numeral(src.subrange(pos, step(src, pos).end)),
{
    lemma_reserved_kinds();
    let word = src.subrange(pos, word_end(src, pos));
    if is_reserved(word) {
        let i = choose|i: int| reserved_at(word, i);
        assert(reserved_at(word, i));
    }
    assert(is_digit(src[pos]));
    let digit = |c: char| is_digit(c);
    let whole = digits_end(src, pos);
    let end = number_end(src, pos);
    lemma_run_end_bounds(src, pos + 1, digit);
    lemma_run_end_maximal(src, pos, digit);
    if char_at(src, whole) == '.' && is_digit(char_at(src, whole + 1)) {
        lemma_run_end_bounds(src, whole + 2, digit);
        lemma_run_end_maximal(src, whole + 1, digit);
    }
    let text = src.subrange(pos, end);
    assert forall|k: int| 0 <= k < whole - pos implies is_digit(#[trigger] text[k]) by {
        assert(digit(src[pos + k]));
    }
    assert forall|k: int| whole - pos < k < text.len() implies is_digit(#[trigger] text[k]) by {
        assert(digit(src[pos + k]));
    }
    assert(is_numeral_with(text, whole - pos));
}

/// Every number among the tokens of a source text has a numeral for its
/// lexeme.
pub proof fn lemma_numbers_are_numerals(src: Seq<char>)
    ensures
        forall|i: int|
            0 <= i < tokens_of(src).len() && (#[trigger] tokens_of(src)[i]).kind
                == TokenKind::Number ==> is_numeral(tokens_of(src)[i].lexeme),
{
    lemma_tokens_from_origin(src, 0);
    let all = tokens_of(src);
    assert forall|i: int| 0 <= i < all.len() && (#[trigger] all[i]).kind
        == TokenKind::Number implies is_numeral(all[i].lexeme) by {
        if i < all.len() - 1 {
            let at = choose|at: int|
                0 <= at < src.len() && #[trigger] token_at(src, at) == Some(all[i]);
            lemma_number_is_numeral(src, at);
        }
    }
}

} // verus!
