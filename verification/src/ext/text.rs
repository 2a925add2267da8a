//! Strings and their characters.

use vstd::prelude::*;
use vstd::std_specs::iter::IteratorSpec;

verus! {

/// `String::push` of std appends one character to the string.
pub assume_specification[ String::push ](text: &mut String, ch: char)
    ensures
        final(text)@ == old(text)@.push(ch),
;

/// The characters of a text.
pub fn chars_of(text: &str) -> (chars: Vec<char>)
    ensures
        chars@ == text@,
{
    broadcast use vstd::string::group_string_axioms;

    let mut chars: Vec<char> = Vec::new();
    let mut rest = text.chars();
    loop
        invariant
            chars@ + rest.remaining() == text@,
            rest.decrease() is Some,
        ensures
            chars@ == text@,
        decreases rest.decrease()->0,
    {
        match rest.next() {
            None => {
                break ;
            },
            Some(ch) => {
                chars.push(ch);
            },
        }
    }
    chars
}

/// The characters from `start` to `end` as a string.
pub fn string_of(chars: &Vec<char>, start: usize, end: usize) -> (text: String)
    requires
        start <= end <= chars.len(),
    ensures
        text@ == chars@.subrange(start as int, end as int),
{
    let mut text: String = String::new();
    let mut at: usize = start;
    while at < end
        invariant
            start <= at <= end <= chars.len(),
            text@ == chars@.subrange(start as int, at as int),
        decreases end - at,
    {
        text.push(chars[at]);
        at += 1;
    }
    text
}

} // verus!
