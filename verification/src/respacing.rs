//! Scanning does not depend on what lies between the tokens: the lexemes of a
//! text, written out again with whitespace between them, scan to the same
//! tokens.

use vstd::prelude::*;
use crate::error::ErrorView;
use crate::grammar::{
    char_at, digits_end, eof_token, errors_from, errors_of, is_blank, lemma_run_end_bounds,
    lemma_run_end_maximal, lemma_run_end_unique, lemma_step_advances, number_end, operator_kind,
    punctuation_kind, quote_pos, run_end, seq_of, step, token_at, tokens_from, tokens_of, word_end,
    Outcome, Step,
};
use crate::theory::lemma_tokens_from_origin;
use crate::token::{TokenKind, TokenView};
use crate::{is_alpha, is_alpha_numeric, is_digit};

verus! {

/// What a token is apart from its line: its kind and its lexeme.
pub open spec fn shape(token: TokenView) -> (TokenKind, Seq<char>) {
    (token.kind, token.lexeme)
}

/// The shapes of a sequence of tokens.
pub open spec fn shapes(tokens: Seq<TokenView>) -> Seq<(TokenKind, Seq<char>)> {
    tokens.map_values(|token: TokenView| shape(token))
}

/// The lexemes of a token stream, without that of the end-of-file marker.
pub open spec fn lexemes(tokens: Seq<TokenView>) -> Seq<Seq<char>> {
    tokens.drop_last().map_values(|token: TokenView| token.lexeme)
}

/// A gap: one or more characters of whitespace.
pub open spec fn is_gap(gap: Seq<char>) -> bool {
    gap.len() > 0 && forall|i: int| 0 <= i < gap.len() ==> is_blank(#[trigger] gap[i])
}

/// The words written one after the other, each followed by the gap.
pub open spec fn spaced(words: Seq<Seq<char>>, gap: Seq<char>) -> Seq<char>
    decreases words.len(),
{
    if words.len() == 0 {
        Seq::empty()
    } else {
        words[0] + gap + spaced(words.drop_first(), gap)
    }
}

/// A run in a text that stands behind a prefix ends where it ends in the
/// text alone.
proof fn lemma_run_end_shift(
    prefix: Seq<char>,
    src: Seq<char>,
    from: int,
    accepts: spec_fn(char) -> bool,
)
    requires
        0 <= from <= src.len(),
    ensures
        run_end(prefix + src, prefix.len() + from, accepts) == prefix.len() + run_end(
            src,
            from,
            accepts,
        ),
    decreases src.len() - from,
{
    if from < src.len() && accepts(src[from]) {
        assert((prefix + src)[prefix.len() + from] == src[from]);
        lemma_run_end_shift(prefix, src, from + 1, accepts);
    } else if from < src.len() {
        assert((prefix + src)[prefix.len() + from] == src[from]);
    }
}

/// A lookahead in a text that stands behind a prefix sees what it sees in
/// the text alone.
proof fn lemma_char_at_shift(prefix: Seq<char>, src: Seq<char>, i: int)
    requires
        0 <= i,
    ensures
        char_at(prefix + src, prefix.len() + i) == char_at(src, i),
{
}

/// A number in a text that stands behind a prefix ends where it ends in the
/// text alone.
proof fn lemma_number_end_shift(prefix: Seq<char>, src: Seq<char>, pos: int)
    requires
        0 <= pos < src.len(),
    ensures
        number_end(prefix + src, prefix.len() + pos) == prefix.len() + number_end(src, pos),
{
    let digit = |c: char| is_digit(c);
    let whole = digits_end(src, pos);
    lemma_run_end_bounds(src, pos, digit);
    lemma_run_end_shift(prefix, src, pos, digit);
    lemma_char_at_shift(prefix, src, whole);
    lemma_char_at_shift(prefix, src, whole + 1);
    if char_at(src, whole) == '.' && is_digit(char_at(src, whole + 1)) {
        lemma_run_end_shift(prefix, src, whole + 1, digit);
    }
}

/// The step at a position of a text that stands behind a prefix is the step
/// at that position of the text alone.
proof fn lemma_step_shift(prefix: Seq<char>, src: Seq<char>, pos: int)
    requires
        0 <= pos < src.len(),
    ensures
        step(prefix + src, prefix.len() + pos) == (Step {
            outcome: step(src, pos).outcome,
            end: prefix.len() + step(src, pos).end,
        }),
{
    let whole = prefix + src;
    let at = prefix.len() + pos;
    let c = src[pos];
    let next = char_at(src, pos + 1);
    assert(whole[at] == c);
    lemma_char_at_shift(prefix, src, pos + 1);
    if punctuation_kind(c) is Some {
    } else if operator_kind(c, next == '=') is Some {
    } else if c == '/' {
        if next == '/' {
            lemma_run_end_shift(prefix, src, pos + 2, |c: char| c != '\n');
        }
    } else if is_blank(c) {
    } else if c == '"' {
        lemma_run_end_shift(prefix, src, pos + 1, |c: char| c != '"');
        lemma_run_end_bounds(src, pos + 1, |c: char| c != '"');
        let close = quote_pos(src, pos + 1);
        if close < src.len() {
            assert(whole.subrange(at + 1, prefix.len() + close) =~= src.subrange(pos + 1, close));
        }
    } else if is_digit(c) {
        lemma_number_end_shift(prefix, src, pos);
    } else if is_alpha(c) {
        lemma_run_end_shift(prefix, src, pos, |c: char| is_alpha_numeric(c));
        lemma_run_end_bounds(src, pos, |c: char| is_alpha_numeric(c));
        let end = word_end(src, pos);
        assert(whole.subrange(at, prefix.len() + end) =~= src.subrange(pos, end));
    } else {
    }
}

/// The tokens of a text that stands behind a prefix have, from the end of
/// the prefix on, the shapes of the tokens of the text alone, and there are
/// as many diagnostics.
proof fn lemma_tokens_shift(prefix: Seq<char>, src: Seq<char>, pos: int)
    requires
        0 <= pos <= src.len(),
    ensures
        shapes(tokens_from(prefix + src, prefix.len() + pos)) == shapes(tokens_from(src, pos)),
        errors_from(prefix + src, prefix.len() + pos).len() == errors_from(src, pos).len(),
    decreases src.len() - pos,
{
    let whole = prefix + src;
    let at = prefix.len() + pos;
    if pos < src.len() {
        lemma_step_advances(src, pos);
        lemma_step_shift(prefix, src, pos);
        let end = step(src, pos).end;
        lemma_tokens_shift(prefix, src, end);
        assert(whole.subrange(at, prefix.len() + end) =~= src.subrange(pos, end));
        assert(shapes(seq_of(token_at(whole, at))) =~= shapes(seq_of(token_at(src, pos))));
        assert(shapes(tokens_from(whole, at)) =~= shapes(seq_of(token_at(whole, at))) + shapes(
            tokens_from(whole, prefix.len() + end),
        ));
        assert(shapes(tokens_from(src, pos)) =~= shapes(seq_of(token_at(src, pos))) + shapes(
            tokens_from(src, end),
        ));
    } else {
        assert(shapes(tokens_from(whole, at)) =~= shapes(tokens_from(src, pos)));
    }
}

/// A stretch of whitespace gives no token and no diagnostic.
proof fn lemma_skip_blanks(src: Seq<char>, from: int, to: int)
    requires
        0 <= from <= to <= src.len(),
        forall|k: int| from <= k < to ==> is_blank(#[trigger] src[k]),
    ensures
        tokens_from(src, from) == tokens_from(src, to),
        errors_from(src, from) == errors_from(src, to),
    decreases to - from,
{
    if from < to {
        assert(is_blank(src[from]));
        assert(step(src, from) == Step { outcome: Outcome::Skipped, end: from + 1 });
        lemma_skip_blanks(src, from + 1, to);
        assert(tokens_from(src, from) =~= tokens_from(src, from + 1));
        assert(errors_from(src, from) =~= errors_from(src, from + 1));
    }
}

/// A number, written out before whitespace or the end of a text, ends where
/// its lexeme ends.
proof fn lemma_number_reproduced(src: Seq<char>, pos: int, tail: Seq<char>)
    requires
        0 <= pos < src.len(),
        is_digit(src[pos]),
        tail.len() == 0 || is_blank(tail[0]),
    ensures
        number_end(src.subrange(pos, number_end(src, pos)) + tail, 0) == number_end(src, pos)
            - pos,
{
    let digit = |c: char| is_digit(c);
    let end = number_end(src, pos);
    let whole = digits_end(src, pos);
    lemma_run_end_bounds(src, pos, digit);
    lemma_run_end_maximal(src, pos, digit);
    if char_at(src, whole) == '.' && is_digit(char_at(src, whole + 1)) {
        lemma_run_end_bounds(src, whole + 1, digit);
        lemma_run_end_maximal(src, whole + 1, digit);
    }
    let lexeme = src.subrange(pos, end);
    let text = lexeme + tail;
    assert forall|k: int| 0 <= k < whole - pos implies digit(#[trigger] text[k]) by {
        assert(text[k] == src[pos + k]);
    }
    if whole < end {
        assert(text[whole - pos] == src[whole]);
    }
    lemma_run_end_unique(text, 0, digit, whole - pos);
    if char_at(src, whole) == '.' && is_digit(char_at(src, whole + 1)) {
        assert(text[whole - pos] == '.');
        assert(text[whole + 1 - pos] == src[whole + 1]);
        assert forall|k: int| whole + 1 - pos <= k < end - pos implies digit(
            #[trigger] text[k],
        ) by {
            assert(text[k] == src[pos + k]);
        }
        lemma_run_end_unique(text, whole + 1 - pos, digit, end - pos);
    }
}

/// A token, written out before whitespace or the end of a text, scans as the
/// same token again.
proof fn lemma_token_reproduced(src: Seq<char>, pos: int, tail: Seq<char>)
    requires
        0 <= pos < src.len(),
        step(src, pos).outcome is Token,
        tail.len() == 0 || is_blank(tail[0]),
    ensures
        step(src.subrange(pos, step(src, pos).end) + tail, 0) == (Step {
            outcome: step(src, pos).outcome,
            end: step(src, pos).end - pos,
        }),
{
    lemma_step_advances(src, pos);
    let end = step(src, pos).end;
    let lexeme = src.subrange(pos, end);
    let text = lexeme + tail;
    let c = src[pos];
    let next = char_at(src, pos + 1);
    assert(text[0] == c);
    if punctuation_kind(c) is Some {
    } else if operator_kind(c, next == '=') is Some {
        if next == '=' {
            assert(text[1] == src[pos + 1]);
        }
    } else if c == '/' {
    } else if is_blank(c) {
    } else if c == '"' {
        let quoted = |c: char| c != '"';
        lemma_run_end_bounds(src, pos + 1, quoted);
        lemma_run_end_maximal(src, pos + 1, quoted);
        let close = quote_pos(src, pos + 1);
        assert forall|k: int| 1 <= k < close - pos implies quoted(#[trigger] text[k]) by {
            assert(text[k] == src[pos + k]);
        }
        assert(text[close - pos] == src[close]);
        lemma_run_end_unique(text, 1, quoted, close - pos);
        assert(text.subrange(1, close - pos) =~= src.subrange(pos + 1, close));
    } else if is_digit(c) {
        lemma_number_reproduced(src, pos, tail);
    } else if is_alpha(c) {
        let in_word = |c: char| is_alpha_numeric(c);
        lemma_run_end_bounds(src, pos, in_word);
        lemma_run_end_maximal(src, pos, in_word);
        assert forall|k: int| 0 <= k < end - pos implies in_word(#[trigger] text[k]) by {
            assert(text[k] == src[pos + k]);
        }
        lemma_run_end_unique(text, 0, in_word, end - pos);
        assert(text.subrange(0, end - pos) =~= lexeme);
    } else {
    }
}

/// The lexemes from a position on: that of the token at the position, if the
/// step there gives one, before those from the end of the step on.
proof fn lemma_lexemes_unfold(src: Seq<char>, pos: int)
    requires
        0 <= pos < src.len(),
    ensures
        lexemes(tokens_from(src, pos)) == match step(src, pos).outcome {
            Outcome::Token(_) => seq![src.subrange(pos, step(src, pos).end)],
            _ => Seq::empty(),
        } + lexemes(tokens_from(src, step(src, pos).end)),
{
    lemma_step_advances(src, pos);
    let end = step(src, pos).end;
    lemma_tokens_from_origin(src, end);
    let first = seq_of(token_at(src, pos));
    let rest = tokens_from(src, end);
    assert((first + rest).drop_last() =~= first + rest.drop_last());
    assert(lexemes(first + rest) =~= first.map_values(|token: TokenView| token.lexeme)
        + lexemes(rest));
    match step(src, pos).outcome {
        Outcome::Token(_) => {
            assert(first.map_values(|token: TokenView| token.lexeme) =~= seq![
                src.subrange(pos, end),
            ]);
        },
        _ => {
            assert(first.map_values(|token: TokenView| token.lexeme) =~= Seq::<
                Seq<char>,
            >::empty());
        },
    }
}

/// The lexemes from a position on, written out with a gap behind each, scan
/// to tokens of the same shapes as the tokens from that position on, and to
/// no diagnostic.
proof fn lemma_respaced_from(src: Seq<char>, pos: int, gap: Seq<char>)
    requires
        0 <= pos <= src.len(),
        is_gap(gap),
    ensures
        shapes(tokens_of(spaced(lexemes(tokens_from(src, pos)), gap))) == shapes(
            tokens_from(src, pos),
        ),
        errors_of(spaced(lexemes(tokens_from(src, pos)), gap)).len() == 0,
    decreases src.len() - pos,
{
    if pos < src.len() {
        lemma_step_advances(src, pos);
        lemma_lexemes_unfold(src, pos);
        let end = step(src, pos).end;
        lemma_respaced_from(src, end, gap);
        let rest = spaced(lexemes(tokens_from(src, end)), gap);
        match step(src, pos).outcome {
            Outcome::Token(kind) => {
                let lexeme = src.subrange(pos, end);
                let words = lexemes(tokens_from(src, pos));
                assert(words =~= seq![lexeme] + lexemes(tokens_from(src, end)));
                assert(words[0] == lexeme);
                assert(words.drop_first() =~= lexemes(tokens_from(src, end)));
                let text = spaced(words, gap);
                assert(text == lexeme + gap + rest);
                assert(text =~= lexeme + (gap + rest));
                assert(is_blank(gap[0]));
                assert((gap + rest)[0] == gap[0]);
                lemma_token_reproduced(src, pos, gap + rest);
                let cut = lexeme.len() as int;
                assert(step(text, 0) == Step { outcome: Outcome::Token(kind), end: cut });
                assert(text.subrange(0, cut) =~= lexeme);
                assert forall|k: int| cut <= k < cut + gap.len() implies is_blank(
                    #[trigger] text[k],
                ) by {
                    assert(text[k] == gap[k - cut]);
                }
                lemma_skip_blanks(text, cut, cut + gap.len());
                assert(text =~= (lexeme + gap) + rest);
                lemma_tokens_shift(lexeme + gap, rest, 0);
                assert(shapes(tokens_from(text, 0)) =~= shapes(seq_of(token_at(text, 0)))
                    + shapes(tokens_from(text, cut)));
                assert(shapes(tokens_from(src, pos)) =~= shapes(seq_of(token_at(src, pos)))
                    + shapes(tokens_from(src, end)));
                assert(shapes(seq_of(token_at(text, 0))) =~= shapes(seq_of(token_at(src, pos))));
                assert(errors_from(text, 0) =~= errors_from(text, cut));
            },
            _ => {
                assert(lexemes(tokens_from(src, pos)) =~= lexemes(tokens_from(src, end)));
                assert(shapes(tokens_from(src, pos)) =~= shapes(tokens_from(src, end)));
            },
        }
    } else {
        let words = lexemes(tokens_from(src, pos));
        assert(words =~= Seq::<Seq<char>>::empty());
        let text = spaced(words, gap);
        assert(text =~= Seq::<char>::empty());
        assert(shapes(tokens_of(text)) =~= shapes(tokens_from(src, pos)));
    }
}

/// The lexemes of a text, written out in order with whitespace behind each,
/// scan to the tokens of the text again: the same kinds and the same lexemes
/// in the same order, whatever stood between them in the text, and no
/// diagnostic. Only the lines may differ.
pub proof fn lemma_respaced(src: Seq<char>, gap: Seq<char>)
    requires
        is_gap(gap),
    ensures
        shapes(tokens_of(spaced(lexemes(tokens_of(src)), gap))) == shapes(tokens_of(src)),
        errors_of(spaced(lexemes(tokens_of(src)), gap)) == Seq::<ErrorView>::empty(),
{
    lemma_respaced_from(src, 0, gap);
    assert(errors_of(spaced(lexemes(tokens_of(src)), gap)) =~= Seq::<ErrorView>::empty());
}

/// The lexeme of every token of a text, scanned alone, gives that token
/// again, of the same kind and with the same lexeme, then the end-of-file
/// marker, and no diagnostic: the kind of a token depends on its lexeme
/// alone.
pub proof fn lemma_lexeme_alone(src: Seq<char>, i: int)
    requires
        0 <= i < tokens_of(src).len() - 1,
    ensures
        shapes(tokens_of(tokens_of(src)[i].lexeme)) == seq![
            shape(tokens_of(src)[i]),
            (TokenKind::Eof, Seq::<char>::empty()),
        ],
        errors_of(tokens_of(src)[i].lexeme) == Seq::<ErrorView>::empty(),
{
    lemma_tokens_from_origin(src, 0);
    let token = tokens_of(src)[i];
    let at = choose|at: int| 0 <= at < src.len() && #[trigger] token_at(src, at) == Some(token);
    lemma_step_advances(src, at);
    lemma_token_reproduced(src, at, Seq::empty());
    let lexeme = token.lexeme;
    let cut = lexeme.len() as int;
    assert(lexeme + Seq::<char>::empty() =~= lexeme);
    assert(lexeme.subrange(0, cut) =~= lexeme);
    assert(step(lexeme, 0).end == cut && step(lexeme, 0).outcome is Token);
    assert(tokens_from(lexeme, cut) == seq![eof_token(lexeme)]);
    assert(errors_from(lexeme, cut) == Seq::<ErrorView>::empty());
    assert(shapes(tokens_of(lexeme)) =~= seq![
        shape(token),
        (TokenKind::Eof, Seq::<char>::empty()),
    ]);
    assert(errors_of(lexeme) =~= Seq::<ErrorView>::empty());
}

} // verus!
