//! Conversions between strings and vectors of characters.

use vstd::prelude::*;

verus! {

/// `std::string::String::push` appends the given character to the end of the
/// string and leaves the characters before it as they were.
pub assume_specification[ std::string::String::push ](buffer: &mut std::string::String, ch: char)
    ensures
        final(buffer)@ == old(buffer)@.push(ch),
;

/// The characters of `text`, in order.
pub fn chars_of(text: &str) -> (chars: Vec<char>)
    ensures
        chars@ == text@,
{
    let mut chars: Vec<char> = Vec::new();
    for c in it: text.chars()
        invariant
            it.seq() == text@,
            chars@ == it.seq().take(it.index() as int),
    {
        chars.push(c);
    }
    chars
}

/// The characters of `chars` from index `from` up to index `to`, as a string.
pub fn string_of(chars: &Vec<char>, from: usize, to: usize) -> (text: String)
    requires
        from <= to <= chars@.len(),
    ensures
        text@ == chars@.subrange(from as int, to as int),
{
    let mut text = String::new();
    let mut i: usize = from;
    while i < to
        invariant
            from <= i <= to <= chars@.len(),
            text@ == chars@.subrange(from as int, i as int),
        decreases to - i,
    {
        text.push(chars[i]);
        i += 1;
    }
    text
}

} // verus!
