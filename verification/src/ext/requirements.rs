//! The requirements pass: which lines of a requirements file name a
//! dependency, and the command that installs one.

use vstd::prelude::*;
use vstd::string::StringExecFns;
use crate::ext::text::{chars_of, string_of};

verus! {

/// The character that ends a line.
pub const NEWLINE: char = '\n';

/// The character that belongs to the end of a line where it stands directly
/// before the newline.
pub const CARRIAGE_RETURN: char = '\r';

/// The character that begins a comment.
pub const COMMENT_MARKER: char = '#';

/// The command that installs a dependency.
pub const INSTALLER: &'static str = "pip3";

/// The installer's first argument.
pub const INSTALL: &'static str = "install";

/// Whether a character is white space: one of those that Unicode gives the
/// property `White_Space`.
pub open spec fn is_whitespace(ch: char) -> bool {
    let code = ch as u32;
    ||| 0x09 <= code <= 0x0d
    ||| code == 0x20
    ||| code == 0x85
    ||| code == 0xa0
    ||| code == 0x1680
    ||| 0x2000 <= code <= 0x200a
    ||| code == 0x2028
    ||| code == 0x2029
    ||| code == 0x202f
    ||| code == 0x205f
    ||| code == 0x3000
}

/// How many characters stand before the first newline of a text, or in the
/// whole text where it has none.
pub open spec fn first_line_len(text: Seq<char>) -> nat
    decreases text.len(),
{
    if text.len() == 0 || text[0] == NEWLINE {
        0
    } else {
        1 + first_line_len(text.drop_first())
    }
}

/// A line without the carriage return at its end, if it has one there.
pub open spec fn without_carriage_return(line: Seq<char>) -> Seq<char> {
    if line.len() > 0 && line.last() == CARRIAGE_RETURN {
        line.drop_last()
    } else {
        line
    }
}

/// The lines of a text. A line ends with a newline, or with a carriage
/// return and a newline, and holds neither. What follows the last newline is
/// a line too, unless it is empty; a carriage return at its end belongs to
/// it.
pub open spec fn lines(text: Seq<char>) -> Seq<Seq<char>>
    decreases text.len(),
{
    let len = first_line_len(text);
    if text.len() == 0 {
        Seq::empty()
    } else if len >= text.len() {
        seq![text]
    } else {
        seq![without_carriage_return(text.take(len as int))] + lines(text.skip((len + 1) as int))
    }
}

/// Whether a line holds nothing but white space.
pub open spec fn is_blank(line: Seq<char>) -> bool {
    forall|i: int| 0 <= i < line.len() ==> is_whitespace(#[trigger] line[i])
}

/// Whether the first character of a line that is not white space begins a
/// comment.
pub open spec fn is_comment(line: Seq<char>) -> bool {
    exists|at: int|
        0 <= at < line.len() && #[trigger] line[at] == COMMENT_MARKER && is_blank(line.take(at))
}

/// Whether a line names a dependency: it is neither blank nor a comment.
pub open spec fn is_specifier(line: Seq<char>) -> bool {
    !is_blank(line) && !is_comment(line)
}

/// The lines of a requirements text that name a dependency, in the order of
/// the text, each as it stands there.
pub open spec fn specifiers_of(text: Seq<char>) -> Seq<Seq<char>> {
    lines(text).filter(|line: Seq<char>| is_specifier(line))
}

/// The first line of a text is as long as the stretch before its first
/// newline.
pub proof fn lemma_first_line_len(text: Seq<char>, len: int)
    requires
        0 <= len <= text.len(),
        forall|i: int| 0 <= i < len ==> text[i] != NEWLINE,
        len == text.len() || text[len] == NEWLINE,
    ensures
        first_line_len(text) == len,
    decreases len,
{
    if len > 0 {
        lemma_first_line_len(text.drop_first(), len - 1);
    }
}

/// Whether a character is white space.
pub fn is_white(ch: char) -> (yes: bool)
    ensures
        yes == is_whitespace(ch),
{
    let code: u32 = ch as u32;
    (0x09 <= code && code <= 0x0d) || code == 0x20 || code == 0x85 || code == 0xa0 || code
        == 0x1680 || (0x2000 <= code && code <= 0x200a) || code == 0x2028 || code == 0x2029
        || code == 0x202f || code == 0x205f || code == 0x3000
}

/// Where the line that begins at `start` ends: at the next newline, or at
/// the end of the text.
fn line_end(chars: &Vec<char>, start: usize) -> (end: usize)
    requires
        start <= chars.len(),
    ensures
        start <= end <= chars.len(),
        end - start == first_line_len(chars@.skip(start as int)),
{
    let mut end: usize = start;
    while end < chars.len() && chars[end] != NEWLINE
        invariant
            start <= end <= chars.len(),
            forall|i: int| start <= i < end ==> chars@[i] != NEWLINE,
        decreases chars.len() - end,
    {
        end += 1;
    }
    proof {
        lemma_first_line_len(chars@.skip(start as int), end - start);
    }
    end
}

/// Whether the characters from `start` to `end` make a line that names a
/// dependency.
fn names_dependency(chars: &Vec<char>, start: usize, end: usize) -> (yes: bool)
    requires
        start <= end <= chars.len(),
    ensures
        yes == is_specifier(chars@.subrange(start as int, end as int)),
{
    let ghost line = chars@.subrange(start as int, end as int);
    let mut at: usize = start;
    while at < end && is_white(chars[at])
        invariant
            start <= at <= end <= chars.len(),
            line == chars@.subrange(start as int, end as int),
            forall|i: int| 0 <= i < at - start ==> is_whitespace(#[trigger] line[i]),
        decreases end - at,
    {
        at += 1;
    }
    if at == end {
        return false;
    }
    let first: char = chars[at];
    let ghost offset = at - start;
    assert(line[offset] == first);
    if first == COMMENT_MARKER {
        assert(is_blank(line.take(offset)));
        false
    } else {
        assert(!is_comment(line)) by {
            if is_comment(line) {
                let other = choose|other: int|
                    0 <= other < line.len() && #[trigger] line[other] == COMMENT_MARKER
                        && is_blank(line.take(other));
                if other > offset {
                    assert(line.take(other)[offset] == line[offset]);
                }
            }
        }
        true
    }
}

/// The lines of a requirements text that name a dependency: every line but
/// the blank ones and the comments, in the order of the text, once each, and
/// each as it stands in the text.
pub fn requirement_specifiers(text: &str) -> (specifiers: Vec<String>)
    ensures
        specifiers.deep_view() == specifiers_of(text@),
{
    let chars: Vec<char> = chars_of(text);
    let ghost keep = |line: Seq<char>| is_specifier(line);
    let ghost mut done: Seq<Seq<char>> = Seq::empty();
    let mut specifiers: Vec<String> = Vec::new();
    let mut start: usize = 0;
    proof {
        reveal_with_fuel(Seq::filter, 1);
        assert(chars@.skip(0) =~= chars@);
    }
    while start < chars.len()
        invariant
            start <= chars.len(),
            keep == |line: Seq<char>| is_specifier(line),
            lines(chars@) == done + lines(chars@.skip(start as int)),
            specifiers.deep_view() == done.filter(keep),
        decreases chars.len() - start,
    {
        let ghost rest = chars@.skip(start as int);
        let end: usize = line_end(&chars, start);
        let stop: usize = if end < chars.len() && end > start && chars[end - 1]
            == CARRIAGE_RETURN {
            end - 1
        } else {
            end
        };
        let next: usize = if end < chars.len() {
            end + 1
        } else {
            end
        };
        let ghost line = chars@.subrange(start as int, stop as int);
        proof {
            if end < chars.len() {
                assert(rest.skip(end - start + 1) =~= chars@.skip(next as int));
                assert(line =~= without_carriage_return(rest.take(end - start)));
            }
            reveal_with_fuel(Seq::filter, 1);
            assert(done.push(line).drop_last() =~= done);
        }
        if names_dependency(&chars, start, stop) {
            let specifier: String = string_of(&chars, start, stop);
            specifiers.push(specifier);
        }
        proof {
            done = done.push(line);
        }
        start = next;
    }
    specifiers
}

/// The arguments with which the installer installs one dependency.
pub fn install_arguments(specifier: &str) -> (arguments: Vec<String>)
    ensures
        arguments.deep_view() == seq![INSTALL@, specifier@],
{
    let mut arguments: Vec<String> = Vec::new();
    arguments.push(String::from_str(INSTALL));
    arguments.push(String::from_str(specifier));
    arguments
}

} // verus!
