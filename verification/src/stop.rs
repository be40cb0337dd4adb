//! The ways in which an evaluation ends without a value.
use vstd::prelude::*;
use crate::arithmetic::{Ask, Request};

verus! {

/// Why an evaluation stopped.
///
/// The first three are fatal: the program is at fault and the evaluation cannot
/// go on. `Pending` is none: the host owes the answer to an arithmetic request.
#[derive(Clone, Debug, PartialEq, Eq)]
pub enum Stop {
    /// The character `expected` was not found at the cursor.
    SyntaxError { expected: char, found: Option<char> },
    /// The current scope binds no value to `name`.
    UndefinedVariableError { name: Vec<char> },
    /// An operator was applied to a pair of operands that it does not take.
    UnsupportedOperationError,
    /// The answer to this request is needed next.
    Pending(Request),
}

/// What a `Stop` stands for.
pub enum Halt {
    SyntaxError { expected: char, found: Option<char> },
    UndefinedVariableError { name: Seq<char> },
    UnsupportedOperationError,
    Pending(Ask),
}

impl View for Stop {
    type V = Halt;

    open spec fn view(&self) -> Halt {
        match self {
            Stop::SyntaxError { expected, found } => Halt::SyntaxError {
                expected: *expected,
                found: *found,
            },
            Stop::UndefinedVariableError { name } => Halt::UndefinedVariableError { name: name@ },
            Stop::UnsupportedOperationError => Halt::UnsupportedOperationError,
            Stop::Pending(request) => Halt::Pending(request@),
        }
    }
}

impl Stop {
    /// Whether the stop is one of the three fatal errors.
    pub fn is_fatal(&self) -> (r: bool)
        ensures
            r == !(self@ is Pending),
    {
        match self {
            Stop::Pending(_) => false,
            _ => true,
        }
    }
}

/// A stop, and the cursor position in the buffer of the scope that was being
/// scanned when it came.
#[derive(Clone, Debug, PartialEq, Eq)]
pub struct Stopped {
    pub reason: Stop,
    pub position: usize,
}

/// What a `Stopped` stands for.
pub struct Fault {
    pub reason: Halt,
    pub position: nat,
}

impl View for Stopped {
    type V = Fault;

    open spec fn view(&self) -> Fault {
        Fault { reason: self.reason@, position: self.position as nat }
    }
}

} // verus!
