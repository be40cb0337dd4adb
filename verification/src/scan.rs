//! What a buffer of characters holds from a given position on: the
//! vocabulary in which the cursor and the evaluator are specified.
use vstd::prelude::*;
use crate::text::{alphanumeric, digit, is_alphanum, is_digit};

verus! {

/// The character at `pos`, or none past the end of the buffer.
pub open spec fn char_at(code: Seq<char>, pos: int) -> Option<char> {
    if 0 <= pos < code.len() {
        Some(code[pos])
    } else {
        None
    }
}

/// The classes of characters that are scanned in runs.
#[derive(Clone, Copy, Debug, PartialEq, Eq, Structural)]
pub enum Class {
    /// The space character.
    Space,
    /// A decimal digit.
    Digit,
    /// A character of an identifier.
    Word,
    /// Anything but the double quote that ends a string literal.
    Quoted,
    /// Anything but the brace that ends a function body.
    Body,
    /// Anything but a statement terminator: a semicolon or a newline.
    Line,
}

impl Class {
    /// Whether `c` belongs to the class.
    pub open spec fn has(self, c: char) -> bool {
        match self {
            Class::Space => c == ' ',
            Class::Digit => digit(c),
            Class::Word => alphanumeric(c),
            Class::Quoted => c != '"',
            Class::Body => c != '}',
            Class::Line => c != ';' && c != '\n',
        }
    }

    /// Whether `c` belongs to the class.
    pub fn holds(self, c: char) -> (r: bool)
        ensures
            r == self.has(c),
    {
        match self {
            Class::Space => c == ' ',
            Class::Digit => is_digit(c),
            Class::Word => is_alphanum(c),
            Class::Quoted => c != '"',
            Class::Body => c != '}',
            Class::Line => c != ';' && c != '\n',
        }
    }
}

/// The length of the longest run of characters of `class` that starts at `pos`.
pub open spec fn run(code: Seq<char>, pos: int, class: Class) -> nat
    decreases code.len() - pos,
{
    if 0 <= pos < code.len() && class.has(code[pos]) {
        1 + run(code, pos + 1, class)
    } else {
        0
    }
}

/// The text of `code` from `from` up to, not including, `to`.
pub open spec fn span(code: Seq<char>, from: int, to: int) -> Seq<char> {
    code.subrange(from, to)
}

/// The position at which the line that holds `pos` ends: that of the next
/// semicolon or newline, or the end of the buffer.
pub open spec fn line_end(code: Seq<char>, pos: int) -> int {
    pos + run(code, pos, Class::Line)
}

/// Whether `c` occurs in `code` at or after `from` and before `to`.
pub open spec fn occurs(code: Seq<char>, from: int, to: int, c: char) -> bool {
    exists|i: int| 0 <= from <= i < to && i < code.len() && code[i] == c
}

/// Whether the characters of `word` stand in `text` from place `i` on.
pub open spec fn word_at(text: Seq<char>, i: int, word: Seq<char>) -> bool {
    0 <= i && i + word.len() <= text.len() && text.subrange(i, i + word.len()) == word
}

/// Whether `word` occurs in `text` as a run of adjacent characters.
pub open spec fn contains_word(text: Seq<char>, word: Seq<char>) -> bool {
    exists|i: int| word_at(text, i, word)
}

/// A run stays inside the buffer, holds only characters of its class, and is
/// not followed by one.
pub proof fn lemma_run(code: Seq<char>, pos: int, class: Class)
    requires
        0 <= pos <= code.len(),
    ensures
        pos + run(code, pos, class) <= code.len(),
        forall|i: int| pos <= i < pos + run(code, pos, class) ==> class.has(#[trigger] code[i]),
        pos + run(code, pos, class) < code.len() ==> !class.has(
            code[pos + run(code, pos, class)],
        ),
    decreases code.len() - pos,
{
    if pos < code.len() && class.has(code[pos]) {
        lemma_run(code, pos + 1, class);
    }
}

/// The run that starts at `pos` is the only stretch with those properties.
pub proof fn lemma_run_is(code: Seq<char>, pos: int, class: Class, n: nat)
    requires
        0 <= pos,
        pos + n <= code.len(),
        forall|i: int| pos <= i < pos + n ==> class.has(#[trigger] code[i]),
        pos + n < code.len() ==> !class.has(code[pos + n]),
    ensures
        run(code, pos, class) == n,
    decreases n,
{
    if n > 0 {
        assert(class.has(code[pos]));
        lemma_run_is(code, pos + 1, class, (n - 1) as nat);
    }
}

} // verus!
