//! The reserved words of the language and the table that finds them.

use vstd::prelude::*;
use crate::token::{TokenKind, TokenType};

verus! {

/// The reserved words, each with the kind of token that it scans as.
pub open spec fn reserved_words() -> Seq<(Seq<char>, TokenKind)> {
    seq![
        ("and"@, TokenKind::And),
        ("class"@, TokenKind::Class),
        ("else"@, TokenKind::Else),
        ("false"@, TokenKind::False),
        ("for"@, TokenKind::For),
        ("fun"@, TokenKind::Fun),
        ("if"@, TokenKind::If),
        ("nil"@, TokenKind::Nil),
        ("or"@, TokenKind::Or),
        ("print"@, TokenKind::Print),
        ("return"@, TokenKind::Return),
        ("super"@, TokenKind::Super),
        ("this"@, TokenKind::This),
        ("true"@, TokenKind::True),
        ("var"@, TokenKind::Var),
        ("while"@, TokenKind::While),
    ]
}

/// Whether `word` stands at index `i` of the reserved words.
pub open spec fn reserved_at(word: Seq<char>, i: int) -> bool {
    0 <= i < reserved_words().len() && reserved_words()[i].0 == word
}

/// Whether `word` is reserved.
pub open spec fn is_reserved(word: Seq<char>) -> bool {
    exists|i: int| reserved_at(word, i)
}

/// The kind that a reserved word scans as; `None` for any other text.
pub open spec fn keyword_kind(word: Seq<char>) -> Option<TokenKind> {
    if is_reserved(word) {
        Some(reserved_words()[choose|i: int| reserved_at(word, i)].1)
    } else {
        None
    }
}

/// No word is listed twice among the reserved words.
pub proof fn lemma_reserved_words_distinct()
    ensures
        forall|i: int, j: int|
            0 <= i < j < reserved_words().len() ==> reserved_words()[i].0 != reserved_words()[j].0,
{
    reveal_strlit("and");
    reveal_strlit("class");
    reveal_strlit("else");
    reveal_strlit("false");
    reveal_strlit("for");
    reveal_strlit("fun");
    reveal_strlit("if");
    reveal_strlit("nil");
    reveal_strlit("or");
    reveal_strlit("print");
    reveal_strlit("return");
    reveal_strlit("super");
    reveal_strlit("this");
    reveal_strlit("true");
    reveal_strlit("var");
    reveal_strlit("while");
    let words = reserved_words();
    assert forall|i: int, j: int| 0 <= i < j < words.len() implies words[i].0 != words[j].0 by {
        let a = words[i].0;
        let b = words[j].0;
        if a.len() == b.len() {
            assert(a[0] != b[0] || a[1] != b[1] || a[2] != b[2]);
        }
    }
}

/// The word at index `i` of the reserved words scans as the kind listed with it.
pub proof fn lemma_keyword_kind_at(i: int)
    requires
        0 <= i < reserved_words().len(),
    ensures
        keyword_kind(reserved_words()[i].0) == Some(reserved_words()[i].1),
{
    lemma_reserved_words_distinct();
    let word = reserved_words()[i].0;
    assert(reserved_at(word, i));
}

/// The table of reserved words: a read-only value that a scanner owns.
pub struct Keywords {
    entries: Vec<(String, TokenType)>,
}

impl View for Keywords {
    type V = Seq<(Seq<char>, TokenKind)>;

    closed spec fn view(&self) -> Seq<(Seq<char>, TokenKind)> {
        self.entries.deep_view()
    }
}

impl Keywords {
    #[verifier::type_invariant]
    spec fn holds_reserved_words(self) -> bool {
        self.entries.deep_view() == reserved_words()
    }

    /// Builds the table of the reserved words.
    pub fn new() -> (table: Self)
        ensures
            table@ == reserved_words(),
    {
        let mut entries: Vec<(String, TokenType)> = Vec::new();
        entries.push(("and".to_owned(), TokenType::And));
        entries.push(("class".to_owned(), TokenType::Class));
        entries.push(("else".to_owned(), TokenType::Else));
        entries.push(("false".to_owned(), TokenType::False));
        entries.push(("for".to_owned(), TokenType::For));
        entries.push(("fun".to_owned(), TokenType::Fun));
        entries.push(("if".to_owned(), TokenType::If));
        entries.push(("nil".to_owned(), TokenType::Nil));
        entries.push(("or".to_owned(), TokenType::Or));
        entries.push(("print".to_owned(), TokenType::Print));
        entries.push(("return".to_owned(), TokenType::Return));
        entries.push(("super".to_owned(), TokenType::Super));
        entries.push(("this".to_owned(), TokenType::This));
        entries.push(("true".to_owned(), TokenType::True));
        entries.push(("var".to_owned(), TokenType::Var));
        entries.push(("while".to_owned(), TokenType::While));
        assert(entries.deep_view() =~= reserved_words());
        Keywords { entries }
    }

    /// Looks `word` up: the kind of token that it scans as if it is reserved,
    /// `None` if it is not.
    pub fn get(&self, word: &String) -> (found: Option<TokenType>)
        ensures
            found.deep_view() == keyword_kind(word@),
    {
        proof {
            use_type_invariant(self);
        }
        let mut i: usize = 0;
        while i < self.entries.len()
            invariant
                i <= self.entries.len(),
                self.entries.deep_view() == reserved_words(),
                forall|j: int| 0 <= j < i ==> !reserved_at(word@, j),
            decreases self.entries.len() - i,
        {
            assert(self.entries.deep_view()[i as int] == reserved_words()[i as int]);
            if *word == self.entries[i].0 {
                proof {
                    lemma_keyword_kind_at(i as int);
                }
                return Some(self.entries[i].1.clone());
            }
            i += 1;
        }
        None
    }
}

} // verus!
