//! The operator characters of the surface syntax.
use vstd::prelude::*;

verus! {

pub const OP_ADD: char = '+';

pub const OP_SUB: char = '-';

pub const OP_MUL: char = '*';

pub const OP_DIV: char = '/';

pub const OP_EQ: char = '=';

/// One of the four binary arithmetic operators.
#[derive(Clone, Copy, Debug, PartialEq, Eq, Structural)]
pub enum Operator {
    Add,
    Sub,
    Mul,
    Div,
}

impl Operator {
    /// The character that spells the operator in source text.
    pub open spec fn symbol(self) -> char {
        match self {
            Operator::Add => OP_ADD,
            Operator::Sub => OP_SUB,
            Operator::Mul => OP_MUL,
            Operator::Div => OP_DIV,
        }
    }

    /// Whether the operator belongs to the additive level of the grammar.
    pub open spec fn additive(self) -> bool {
        self == Operator::Add || self == Operator::Sub
    }

    /// The character that spells the operator in source text.
    pub fn to_char(self) -> (c: char)
        ensures
            c == self.symbol(),
    {
        match self {
            Operator::Add => OP_ADD,
            Operator::Sub => OP_SUB,
            Operator::Mul => OP_MUL,
            Operator::Div => OP_DIV,
        }
    }
}

} // verus!
