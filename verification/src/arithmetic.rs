//! The exchange with the host's arithmetic unit.
//!
//! Numbers are binary64 values held as their 64-bit patterns. The interpreter
//! decides which operations are due and in which order; the host carries them
//! out. An evaluation is a function of the source text and of the answers
//! received so far: it reads them in order, and stops with the next request
//! when they run out.
use vstd::prelude::*;
use crate::operators::Operator;
use crate::text::copy_text;

verus! {

/// An operation that the host is asked to carry out.
#[derive(Clone, Debug, PartialEq, Eq)]
pub enum Request {
    /// The number written by a run of decimal digits.
    Parse(Vec<char>),
    /// The result of a binary operation on two numbers.
    Compute(Operator, u64, u64),
    /// The decimal text of a number.
    Render(u64),
}

/// The host's answer to a request.
#[derive(Clone, Debug, PartialEq, Eq)]
pub enum Answer {
    Number(u64),
    Text(Vec<char>),
}

/// What a `Request` stands for.
pub enum Ask {
    Parse(Seq<char>),
    Compute(Operator, u64, u64),
    Render(u64),
}

/// What an `Answer` stands for.
pub enum Reply {
    Number(u64),
    Text(Seq<char>),
}

impl View for Request {
    type V = Ask;

    open spec fn view(&self) -> Ask {
        match self {
            Request::Parse(digits) => Ask::Parse(digits@),
            Request::Compute(op, a, b) => Ask::Compute(*op, *a, *b),
            Request::Render(a) => Ask::Render(*a),
        }
    }
}

impl View for Answer {
    type V = Reply;

    open spec fn view(&self) -> Reply {
        match self {
            Answer::Number(bits) => Reply::Number(*bits),
            Answer::Text(text) => Reply::Text(text@),
        }
    }
}

/// The number that answers the request at place `asked`, if the answers reach
/// that far and hold a number there.
pub open spec fn number_at(tape: Seq<Reply>, asked: nat) -> Option<u64> {
    if asked < tape.len() && tape[asked as int] is Number {
        Some(tape[asked as int]->Number_0)
    } else {
        None
    }
}

/// The text that answers the request at place `asked`, if the answers reach
/// that far and hold a text there.
pub open spec fn text_at(tape: Seq<Reply>, asked: nat) -> Option<Seq<char>> {
    if asked < tape.len() && tape[asked as int] is Text {
        Some(tape[asked as int]->Text_0)
    } else {
        None
    }
}

/// The answers received so far, and how many of them have been used.
pub struct Arithmetic {
    answers: Vec<Answer>,
    asked: usize,
}

impl Arithmetic {
    /// The answers, in the order in which they were given.
    pub closed spec fn tape(&self) -> Seq<Reply> {
        self.answers@.map_values(|a: Answer| a@)
    }

    /// How many answers have been used.
    pub closed spec fn asked(&self) -> nat {
        self.asked as nat
    }

    pub closed spec fn wf(&self) -> bool {
        self.asked <= self.answers.len()
    }

    /// A unit that holds `answers` and has used none of them.
    pub fn new(answers: Vec<Answer>) -> (unit: Arithmetic)
        ensures
            unit.wf(),
            unit.asked() == 0,
            unit.tape() == answers@.map_values(|a: Answer| a@),
    {
        Arithmetic { answers, asked: 0 }
    }

    /// How many answers have been used.
    pub fn used(&self) -> (n: usize)
        ensures
            n == self.asked(),
    {
        self.asked
    }

    fn next_number(&mut self) -> (r: Option<u64>)
        requires
            old(self).wf(),
        ensures
            final(self).wf(),
            final(self).tape() == old(self).tape(),
            r == number_at(old(self).tape(), old(self).asked()),
            final(self).asked() == old(self).asked() + (if r is Some { 1nat } else { 0nat }),
    {
        if self.asked < self.answers.len() {
            match &self.answers[self.asked] {
                Answer::Number(bits) => {
                    let b = *bits;
                    self.asked += 1;
                    Some(b)
                },
                Answer::Text(_) => None,
            }
        } else {
            None
        }
    }

    /// The number written by `digits`: the next answer, or the request for it.
    pub fn parse(&mut self, digits: &Vec<char>) -> (r: Result<u64, Request>)
        requires
            old(self).wf(),
        ensures
            final(self).wf(),
            final(self).tape() == old(self).tape(),
            match number_at(old(self).tape(), old(self).asked()) {
                Some(bits) => r == Ok::<u64, Request>(bits) && final(self).asked() == old(
                    self,
                ).asked() + 1,
                None => r matches Err(q) && q@ == Ask::Parse(digits@) && final(self).asked()
                    == old(self).asked(),
            },
    {
        match self.next_number() {
            Some(bits) => Ok(bits),
            None => Err(Request::Parse(copy_text(digits))),
        }
    }

    /// The result of `op` on `a` and `b`: the next answer, or the request for it.
    pub fn compute(&mut self, op: Operator, a: u64, b: u64) -> (r: Result<u64, Request>)
        requires
            old(self).wf(),
        ensures
            final(self).wf(),
            final(self).tape() == old(self).tape(),
            match number_at(old(self).tape(), old(self).asked()) {
                Some(bits) => r == Ok::<u64, Request>(bits) && final(self).asked() == old(
                    self,
                ).asked() + 1,
                None => r matches Err(q) && q@ == Ask::Compute(op, a, b) && final(self).asked()
                    == old(self).asked(),
            },
    {
        match self.next_number() {
            Some(bits) => Ok(bits),
            None => Err(Request::Compute(op, a, b)),
        }
    }

    /// The decimal text of `a`: the next answer, or the request for it.
    pub fn render(&mut self, a: u64) -> (r: Result<Vec<char>, Request>)
        requires
            old(self).wf(),
        ensures
            final(self).wf(),
            final(self).tape() == old(self).tape(),
            match text_at(old(self).tape(), old(self).asked()) {
                Some(text) => r matches Ok(t) && t@ == text && final(self).asked() == old(
                    self,
                ).asked() + 1,
                None => r matches Err(q) && q@ == Ask::Render(a) && final(self).asked() == old(
                    self,
                ).asked(),
            },
    {
        if self.asked < self.answers.len() {
            match &self.answers[self.asked] {
                Answer::Text(text) => {
                    let t = copy_text(text);
                    self.asked += 1;
                    Ok(t)
                },
                Answer::Number(_) => Err(Request::Render(a)),
            }
        } else {
            Err(Request::Render(a))
        }
    }
}

} // verus!
