//! The cursor: a buffer of characters with a committed read position and a
//! speculative lookahead position.
use vstd::prelude::*;
use crate::scan::{
    char_at, contains_word, lemma_run, lemma_run_is, line_end, occurs, run, span, word_at, Class,
};
use crate::stop::{Halt, Stop};

verus! {

pub struct Cursor {
    code: Vec<char>,
    committed: usize,
    lookahead: usize,
}

/// Where the lookahead stands after `n` characters were committed: it moves
/// with the committed position, and never leaves the buffer.
pub open spec fn carried(lookahead: int, n: nat, len: nat) -> int {
    if lookahead + n <= len {
        lookahead + n
    } else {
        len as int
    }
}

impl Cursor {
    /// The buffer.
    pub closed spec fn code(&self) -> Seq<char> {
        self.code@
    }

    /// The committed read position.
    pub closed spec fn committed(&self) -> int {
        self.committed as int
    }

    /// The lookahead position.
    pub closed spec fn lookahead(&self) -> int {
        self.lookahead as int
    }

    /// The lookahead is at or after the committed position, and both are inside
    /// the buffer or at its end.
    pub open spec fn wf(&self) -> bool {
        0 <= self.committed() <= self.lookahead() <= self.code().len()
    }

    /// No speculative scan is under way.
    pub open spec fn settled(&self) -> bool {
        self.lookahead() == self.committed()
    }

    pub fn new(code: Vec<char>) -> (cursor: Cursor)
        ensures
            cursor.wf(),
            cursor.code() == code@,
            cursor.committed() == 0,
            cursor.lookahead() == 0,
    {
        Cursor { code, committed: 0, lookahead: 0 }
    }

    /// The committed read position.
    pub fn position(&self) -> (p: usize)
        ensures
            p == self.committed(),
    {
        self.committed
    }

    /// The length of the buffer.
    pub fn len(&self) -> (n: usize)
        ensures
            n == self.code().len(),
    {
        self.code.len()
    }

    /// Whether everything in the buffer has been committed.
    pub fn at_end(&self) -> (r: bool)
        requires
            self.wf(),
        ensures
            r == (self.committed() == self.code().len()),
    {
        self.committed >= self.code.len()
    }

    /// The character at the lookahead position, which stays where it is.
    pub fn peek(&self) -> (r: Option<char>)
        requires
            self.wf(),
        ensures
            r == char_at(self.code(), self.lookahead()),
    {
        if self.lookahead < self.code.len() {
            Some(self.code[self.lookahead])
        } else {
            None
        }
    }

    /// Commits the character at the committed position and returns it; the
    /// lookahead moves along. At the end of the buffer nothing moves.
    pub fn advance(&mut self) -> (r: Option<char>)
        requires
            old(self).wf(),
        ensures
            final(self).wf(),
            final(self).code() == old(self).code(),
            r == char_at(old(self).code(), old(self).committed()),
            r is Some ==> final(self).committed() == old(self).committed() + 1 && final(self).lookahead() == carried(old(self).lookahead(), 1, old(self).code().len()),
            r is None ==> final(self).committed() == old(self).committed() && final(self).lookahead() == old(self).lookahead(),
    {
        if self.committed < self.code.len() {
            let c = self.code[self.committed];
            self.committed += 1;
            if self.lookahead < self.code.len() {
                self.lookahead += 1;
            }
            Some(c)
        } else {
            None
        }
    }

    /// Commits one character and fails unless it is `c`.
    pub fn expect(&mut self, c: char) -> (r: Result<(), Stop>)
        requires
            old(self).wf(),
        ensures
            final(self).wf(),
            final(self).code() == old(self).code(),
            match char_at(old(self).code(), old(self).committed()) {
                Some(found) => final(self).committed() == old(self).committed() + 1 && final(self).lookahead() == carried(old(self).lookahead(), 1, old(self).code().len()),
                None => final(self).committed() == old(self).committed() && final(self).lookahead() == old(self).lookahead(),
            },
            char_at(old(self).code(), old(self).committed()) == Some(c) ==> r is Ok,
            char_at(old(self).code(), old(self).committed()) != Some(c) ==> (r matches Err(s)
                && s@ == (Halt::SyntaxError {
                expected: c,
                found: char_at(old(self).code(), old(self).committed()),
            })),
    {
        let found = self.advance();
        match found {
            Some(f) => {
                if f == c {
                    Ok(())
                } else {
                    Err(Stop::SyntaxError { expected: c, found })
                }
            },
            None => Err(Stop::SyntaxError { expected: c, found }),
        }
    }

    /// Whether the character at the lookahead position is `c`.
    pub fn check_ahead(&self, c: char) -> (r: bool)
        requires
            self.wf(),
        ensures
            r == (char_at(self.code(), self.lookahead()) == Some(c)),
    {
        match self.peek() {
            Some(l) => l == c,
            None => false,
        }
    }

    /// Whether the character at the lookahead position is one of `set`.
    pub fn check_any_ahead(&self, set: &[char]) -> (r: bool)
        requires
            self.wf(),
        ensures
            r == (match char_at(self.code(), self.lookahead()) {
                Some(l) => set@.contains(l),
                None => false,
            }),
    {
        match self.peek() {
            Some(l) => {
                let mut i: usize = 0;
                while i < set.len()
                    invariant
                        i <= set.len(),
                        char_at(self.code(), self.lookahead()) == Some(l),
                        forall|j: int| 0 <= j < i ==> set@[j] != l,
                    decreases set.len() - i,
                {
                    if set[i] == l {
                        assert(set@[i as int] == l);
                        return true;
                    }
                    i += 1;
                }
                false
            },
            None => false,
        }
    }

    /// Moves the lookahead back to the committed position.
    pub fn reset(&mut self)
        requires
            old(self).wf(),
        ensures
            final(self).wf(),
            final(self).code() == old(self).code(),
            final(self).committed() == old(self).committed(),
            final(self).settled(),
    {
        self.lookahead = self.committed;
    }

    /// Commits the longest run of characters of `class` that starts at the
    /// committed position, and returns its text.
    pub fn take(&mut self, class: Class) -> (text: Vec<char>)
        requires
            old(self).wf(),
        ensures
            final(self).wf(),
            final(self).code() == old(self).code(),
            final(self).committed() == old(self).committed() + run(
                old(self).code(),
                old(self).committed(),
                class,
            ),
            final(self).lookahead() == carried(
                old(self).lookahead(),
                run(old(self).code(), old(self).committed(), class),
                old(self).code().len(),
            ),
            text@ == span(old(self).code(), old(self).committed(), final(self).committed()),
    {
        let mut text: Vec<char> = Vec::new();
        let ghost start = self.committed as int;
        let ghost ahead = self.lookahead as int;
        while self.committed < self.code.len() && class.holds(self.code[self.committed])
            invariant
                self.wf(),
                self.code == old(self).code,
                start == old(self).committed,
                ahead == old(self).lookahead,
                start <= self.committed,
                forall|i: int| start <= i < self.committed ==> class.has(#[trigger] self.code@[i]),
                self.lookahead == carried(ahead, (self.committed - start) as nat, self.code@.len()),
                text@ == span(self.code@, start, self.committed as int),
            decreases self.code.len() - self.committed,
        {
            text.push(self.code[self.committed]);
            self.committed += 1;
            if self.lookahead < self.code.len() {
                self.lookahead += 1;
            }
        }
        proof {
            lemma_run_is(self.code@, start, class, (self.committed - start) as nat);
        }
        text
    }

    /// Commits the spaces at the committed position.
    pub fn skip_spaces(&mut self)
        requires
            old(self).wf(),
        ensures
            final(self).wf(),
            final(self).code() == old(self).code(),
            final(self).committed() == old(self).committed() + run(
                old(self).code(),
                old(self).committed(),
                Class::Space,
            ),
            final(self).lookahead() == carried(
                old(self).lookahead(),
                run(old(self).code(), old(self).committed(), Class::Space),
                old(self).code().len(),
            ),
    {
        let ghost start = self.committed as int;
        let ghost ahead = self.lookahead as int;
        while self.committed < self.code.len() && self.code[self.committed] == ' '
            invariant
                self.wf(),
                self.code == old(self).code,
                start == old(self).committed,
                ahead == old(self).lookahead,
                start <= self.committed,
                forall|i: int|
                    start <= i < self.committed ==> Class::Space.has(#[trigger] self.code@[i]),
                self.lookahead == carried(ahead, (self.committed - start) as nat, self.code@.len()),
            decreases self.code.len() - self.committed,
        {
            self.committed += 1;
            if self.lookahead < self.code.len() {
                self.lookahead += 1;
            }
        }
        proof {
            lemma_run_is(self.code@, start, Class::Space, (self.committed - start) as nat);
        }
    }

    /// Whether `c` occurs between the lookahead position and the end of its
    /// line. The lookahead scans the line and comes back to the committed
    /// position.
    pub fn found_in_line(&mut self, c: char) -> (r: bool)
        requires
            old(self).wf(),
        ensures
            final(self).wf(),
            final(self).code() == old(self).code(),
            final(self).committed() == old(self).committed(),
            final(self).settled(),
            r == occurs(
                old(self).code(),
                old(self).lookahead(),
                line_end(old(self).code(), old(self).lookahead()),
                c,
            ),
    {
        let ghost start = self.lookahead as int;
        let mut found = false;
        while self.lookahead < self.code.len() && Class::Line.holds(self.code[self.lookahead])
            && !found
            invariant
                self.wf(),
                self.code == old(self).code,
                self.committed == old(self).committed,
                start == old(self).lookahead,
                start <= self.lookahead,
                forall|i: int|
                    start <= i < self.lookahead ==> Class::Line.has(#[trigger] self.code@[i]),
                !found ==> forall|i: int| start <= i < self.lookahead ==> self.code@[i] != c,
                found ==> self.lookahead < self.code.len() && self.code@[self.lookahead as int]
                    == c && Class::Line.has(c),
            decreases self.code.len() - self.lookahead + (if found { 0int } else { 1int }),
        {
            if self.code[self.lookahead] == c {
                found = true;
            } else {
                self.lookahead += 1;
            }
        }
        proof {
            let code = self.code@;
            let end = line_end(code, start);
            lemma_run(code, start, Class::Line);
            if found {
                let at = self.lookahead as int;
                assert(at < end) by {
                    if at >= end {
                        assert(end < code.len());
                        assert(Class::Line.has(code[end]));
                    }
                }
                assert(start <= at < end && at < code.len() && code[at] == c);
            } else {
                lemma_run_is(code, start, Class::Line, (self.lookahead - start) as nat);
                assert(end == self.lookahead);
            }
        }
        self.lookahead = self.committed;
        found
    }

    /// Whether `word` occurs in the text between the lookahead position and the
    /// end of its line. The lookahead scans the line and comes back to the
    /// committed position.
    pub fn line_contains(&mut self, word: &Vec<char>) -> (r: bool)
        requires
            old(self).wf(),
        ensures
            final(self).wf(),
            final(self).code() == old(self).code(),
            final(self).committed() == old(self).committed(),
            final(self).settled(),
            r == contains_word(
                span(
                    old(self).code(),
                    old(self).lookahead(),
                    line_end(old(self).code(), old(self).lookahead()),
                ),
                word@,
            ),
    {
        let start = self.lookahead;
        while self.lookahead < self.code.len() && Class::Line.holds(self.code[self.lookahead])
            invariant
                self.wf(),
                self.code == old(self).code,
                self.committed == old(self).committed,
                start == old(self).lookahead,
                start <= self.lookahead,
                forall|i: int|
                    start <= i < self.lookahead ==> Class::Line.has(#[trigger] self.code@[i]),
            decreases self.code.len() - self.lookahead,
        {
            self.lookahead += 1;
        }
        let end = self.lookahead;
        proof {
            lemma_run_is(self.code@, start as int, Class::Line, (end - start) as nat);
        }
        self.lookahead = self.committed;
        let ghost line = span(self.code@, start as int, end as int);
        if word.len() > end - start {
            assert(!contains_word(line, word@));
            return false;
        }
        let last = end - word.len();
        let mut at: usize = start;
        while at <= last
            invariant
                self.wf(),
                self.code == old(self).code,
                self.committed == old(self).committed,
                self.settled(),
                start <= at <= last + 1,
                start == old(self).lookahead,
                end == line_end(self.code@, start as int),
                last + word.len() == end,
                start <= end <= self.code.len(),
                line == span(self.code@, start as int, end as int),
                forall|i: int| 0 <= i < at - start ==> !word_at(line, i, word@),
            decreases last + 1 - at,
        {
            let mut k: usize = 0;
            while k < word.len() && self.code[at + k] == word[k]
                invariant
                    at <= last,
                    last + word.len() == end,
                    end <= self.code.len(),
                    k <= word.len(),
                    forall|j: int| 0 <= j < k ==> self.code@[at + j] == word@[j],
                decreases word.len() - k,
            {
                k += 1;
            }
            let ghost piece = line.subrange(at - start, at - start + word.len());
            if k == word.len() {
                assert(piece =~= word@);
                assert(word_at(line, at - start, word@));
                return true;
            }
            assert(piece != word@) by {
                assert(piece[k as int] == self.code@[at + k]);
            }
            at += 1;
        }
        assert(!contains_word(line, word@));
        false
    }
}

} // verus!
