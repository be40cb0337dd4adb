//! Runtime values and the coercion rules of the arithmetic operators.
use vstd::prelude::*;
use crate::arithmetic::{number_at, text_at, Arithmetic, Ask, Reply, Request};
use crate::operators::Operator;
use crate::stop::{Halt, Stop};
use crate::text::{append_text, copy_text};

verus! {

/// A numeric value: the sentinel `NaN`, or a binary64 number given by its bits.
#[derive(Clone, Copy, Debug, PartialEq, Eq, Structural)]
pub enum Num {
    NaN,
    Finite(u64),
}

/// A named member of an object.
#[derive(Debug, PartialEq, Eq)]
pub struct Field {
    pub name: Vec<char>,
    pub value: Type,
}

/// A runtime value.
#[derive(Debug, PartialEq, Eq)]
pub enum Type {
    Null,
    Undefined,
    Number(Num),
    Boolean(bool),
    TextString(Vec<char>),
    Object(Vec<Field>),
    Function(Vec<char>),
}

/// What a `Type` stands for.
pub enum Value {
    Null,
    Undefined,
    Number(Num),
    Boolean(bool),
    TextString(Seq<char>),
    Object(Seq<(Seq<char>, Value)>),
    FunctionRef(Seq<char>),
}

/// What a list of members stands for: their names and values, in order.
pub open spec fn fields_view(fields: Seq<Field>) -> Seq<(Seq<char>, Value)>
    decreases fields, 0nat,
{
    Seq::new(
        fields.len(),
        |i: int|
            if 0 <= i < fields.len() {
                (fields[i].name@, fields[i].value.view())
            } else {
                (Seq::empty(), Value::Null)
            },
    )
}

impl View for Type {
    type V = Value;

    open spec fn view(&self) -> Value
        decreases self, 1nat,
    {
        match self {
            Type::Null => Value::Null,
            Type::Undefined => Value::Undefined,
            Type::Number(n) => Value::Number(*n),
            Type::Boolean(b) => Value::Boolean(*b),
            Type::TextString(s) => Value::TextString(s@),
            Type::Object(fields) => Value::Object(fields_view(fields@)),
            Type::Function(name) => Value::FunctionRef(name@),
        }
    }
}

/// A declared function: its parameters, of which there are none so far, and
/// the unparsed text of its body.
#[derive(Debug, PartialEq, Eq)]
pub struct Function {
    pub arguments: Vec<Field>,
    pub body: Vec<char>,
}

/// What a `Function` stands for.
pub struct FunctionDef {
    pub arguments: Seq<(Seq<char>, Value)>,
    pub body: Seq<char>,
}

impl View for Function {
    type V = FunctionDef;

    open spec fn view(&self) -> FunctionDef {
        FunctionDef { arguments: fields_view(self.arguments@), body: self.body@ }
    }
}

fn clone_fields(fields: &Vec<Field>) -> (r: Vec<Field>)
    ensures
        fields_view(r@) == fields_view(fields@),
    decreases fields, 0nat,
{
    let mut out: Vec<Field> = Vec::new();
    let mut i: usize = 0;
    while i < fields.len()
        invariant
            i <= fields.len(),
            out@.len() == i,
            forall|j: int|
                0 <= j < i ==> out@[j].name@ == fields@[j].name@ && out@[j].value@
                    == fields@[j].value@,
        decreases fields.len() - i,
    {
        let f = &fields[i];
        out.push(Field { name: copy_text(&f.name), value: f.value.clone() });
        i += 1;
    }
    assert(fields_view(out@) =~= fields_view(fields@));
    out
}

impl Clone for Type {
    /// A copy that stands for the same value.
    fn clone(&self) -> (r: Type)
        ensures
            r@ == self@,
        decreases self, 1nat,
    {
        match self {
            Type::Null => Type::Null,
            Type::Undefined => Type::Undefined,
            Type::Number(n) => Type::Number(*n),
            Type::Boolean(b) => Type::Boolean(*b),
            Type::TextString(s) => Type::TextString(copy_text(s)),
            Type::Object(fields) => Type::Object(clone_fields(fields)),
            Type::Function(name) => Type::Function(copy_text(name)),
        }
    }
}

impl Clone for Function {
    fn clone(&self) -> (r: Function)
        ensures
            r@ == self@,
    {
        Function { arguments: clone_fields(&self.arguments), body: copy_text(&self.body) }
    }
}

/// The text that renders the sentinel `NaN`.
pub open spec fn nan_text() -> Seq<char> {
    seq!['N', 'a', 'N']
}

/// Whether `bits` is the pattern of positive or of negative zero.
pub open spec fn zero_bits(bits: u64) -> bool {
    bits == 0 || bits == 0x8000_0000_0000_0000
}

/// The result of `op` on two numbers, and the count of answers used after it.
///
/// `NaN` on either side gives `NaN`, and so does a division by zero; neither
/// asks the host anything. Otherwise the result is the host's answer to the
/// request to compute `op` on the two bit patterns.
pub open spec fn num_apply(op: Operator, a: Num, b: Num, tape: Seq<Reply>, asked: nat) -> Result<
    (Num, nat),
    Ask,
> {
    match (a, b) {
        (Num::Finite(x), Num::Finite(y)) => {
            if op == Operator::Div && zero_bits(y) {
                Ok((Num::NaN, asked))
            } else {
                match number_at(tape, asked) {
                    Some(z) => Ok((Num::Finite(z), asked + 1)),
                    None => Err(Ask::Compute(op, x, y)),
                }
            }
        },
        _ => Ok((Num::NaN, asked)),
    }
}

/// The text of a number, and the count of answers used after it: `NaN` for the
/// sentinel, else the host's answer to the request to render the bit pattern.
pub open spec fn num_text(n: Num, tape: Seq<Reply>, asked: nat) -> Result<(Seq<char>, nat), Ask> {
    match n {
        Num::NaN => Ok((nan_text(), asked)),
        Num::Finite(x) => match text_at(tape, asked) {
            Some(t) => Ok((t, asked + 1)),
            None => Err(Ask::Render(x)),
        },
    }
}

/// The result of `op` on two values, and the count of answers used after it.
///
/// `+` and `-` take two numbers, a number and a text in either order (the
/// number is rendered and the two texts are joined, also for `-`), two texts
/// (joined by `+`; `NaN` by `-`), and undefined with a number (`NaN`). `*` and
/// `/` take two numbers. Every other pair is an unsupported operation.
pub open spec fn apply(op: Operator, left: Value, right: Value, tape: Seq<Reply>, asked: nat)
    -> Result<(Value, nat), Halt> {
    match (left, right) {
        (Value::Number(a), Value::Number(b)) => match num_apply(op, a, b, tape, asked) {
            Ok((n, k)) => Ok((Value::Number(n), k)),
            Err(q) => Err(Halt::Pending(q)),
        },
        (Value::Number(a), Value::TextString(r)) => if op.additive() {
            match num_text(a, tape, asked) {
                Ok((l, k)) => Ok((Value::TextString(l + r), k)),
                Err(q) => Err(Halt::Pending(q)),
            }
        } else {
            Err(Halt::UnsupportedOperationError)
        },
        (Value::TextString(l), Value::Number(b)) => if op.additive() {
            match num_text(b, tape, asked) {
                Ok((r, k)) => Ok((Value::TextString(l + r), k)),
                Err(q) => Err(Halt::Pending(q)),
            }
        } else {
            Err(Halt::UnsupportedOperationError)
        },
        (Value::TextString(l), Value::TextString(r)) => if op == Operator::Add {
            Ok((Value::TextString(l + r), asked))
        } else if op == Operator::Sub {
            Ok((Value::Number(Num::NaN), asked))
        } else {
            Err(Halt::UnsupportedOperationError)
        },
        (Value::Undefined, Value::Number(_)) => if op.additive() {
            Ok((Value::Number(Num::NaN), asked))
        } else {
            Err(Halt::UnsupportedOperationError)
        },
        _ => Err(Halt::UnsupportedOperationError),
    }
}

/// Whether `bits` is the pattern of positive or of negative zero.
pub fn is_zero(bits: u64) -> (r: bool)
    ensures
        r == zero_bits(bits),
{
    bits == 0 || bits == 0x8000_0000_0000_0000
}

impl Num {
    /// Applies `op` to `self` and `rhs`, asking `unit` where a number is due.
    pub fn compute(self, op: Operator, rhs: Num, unit: &mut Arithmetic) -> (r: Result<
        Num,
        Request,
    >)
        requires
            old(unit).wf(),
        ensures
            final(unit).wf(),
            final(unit).tape() == old(unit).tape(),
            match num_apply(op, self, rhs, old(unit).tape(), old(unit).asked()) {
                Ok((n, k)) => r == Ok::<Num, Request>(n) && final(unit).asked() == k,
                Err(q) => r matches Err(x) && x@ == q,
            },
    {
        match (self, rhs) {
            (Num::Finite(x), Num::Finite(y)) => {
                let by_zero = match op {
                    Operator::Div => is_zero(y),
                    _ => false,
                };
                if by_zero {
                    Ok(Num::NaN)
                } else {
                    match unit.compute(op, x, y) {
                        Ok(z) => Ok(Num::Finite(z)),
                        Err(q) => Err(q),
                    }
                }
            },
            _ => Ok(Num::NaN),
        }
    }

    pub fn add(self, rhs: Num, unit: &mut Arithmetic) -> (r: Result<Num, Request>)
        requires
            old(unit).wf(),
        ensures
            final(unit).wf(),
            final(unit).tape() == old(unit).tape(),
            match num_apply(Operator::Add, self, rhs, old(unit).tape(), old(unit).asked()) {
                Ok((n, k)) => r == Ok::<Num, Request>(n) && final(unit).asked() == k,
                Err(q) => r matches Err(x) && x@ == q,
            },
    {
        self.compute(Operator::Add, rhs, unit)
    }

    pub fn sub(self, rhs: Num, unit: &mut Arithmetic) -> (r: Result<Num, Request>)
        requires
            old(unit).wf(),
        ensures
            final(unit).wf(),
            final(unit).tape() == old(unit).tape(),
            match num_apply(Operator::Sub, self, rhs, old(unit).tape(), old(unit).asked()) {
                Ok((n, k)) => r == Ok::<Num, Request>(n) && final(unit).asked() == k,
                Err(q) => r matches Err(x) && x@ == q,
            },
    {
        self.compute(Operator::Sub, rhs, unit)
    }

    /// The text of the number: `NaN` for the sentinel, else what `unit` answers.
    pub fn to_text(&self, unit: &mut Arithmetic) -> (r: Result<Vec<char>, Request>)
        requires
            old(unit).wf(),
        ensures
            final(unit).wf(),
            final(unit).tape() == old(unit).tape(),
            match num_text(*self, old(unit).tape(), old(unit).asked()) {
                Ok((t, k)) => r matches Ok(text) && text@ == t && final(unit).asked() == k,
                Err(q) => r matches Err(x) && x@ == q,
            },
    {
        match self {
            Num::NaN => {
                let t = vec!['N', 'a', 'N'];
                assert(t@ =~= nan_text());
                Ok(t)
            },
            Num::Finite(x) => unit.render(*x),
        }
    }
}

impl Type {
    /// Applies `op` to `self` and `rhs` by the coercion rules.
    pub fn apply(self, op: Operator, rhs: Type, unit: &mut Arithmetic) -> (r: Result<Type, Stop>)
        requires
            old(unit).wf(),
        ensures
            final(unit).wf(),
            final(unit).tape() == old(unit).tape(),
            match apply(op, self@, rhs@, old(unit).tape(), old(unit).asked()) {
                Ok((v, k)) => r matches Ok(t) && t@ == v && final(unit).asked() == k,
                Err(h) => r matches Err(s) && s@ == h,
            },
    {
        let additive = match op {
            Operator::Add => true,
            Operator::Sub => true,
            _ => false,
        };
        match (self, rhs) {
            (Type::Number(a), Type::Number(b)) => match a.compute(op, b, unit) {
                Ok(n) => Ok(Type::Number(n)),
                Err(q) => Err(Stop::Pending(q)),
            },
            (Type::Number(a), Type::TextString(right)) => {
                if additive {
                    match a.to_text(unit) {
                        Ok(left) => {
                            let mut joined = left;
                            append_text(&mut joined, &right);
                            Ok(Type::TextString(joined))
                        },
                        Err(q) => Err(Stop::Pending(q)),
                    }
                } else {
                    Err(Stop::UnsupportedOperationError)
                }
            },
            (Type::TextString(left), Type::Number(b)) => {
                if additive {
                    match b.to_text(unit) {
                        Ok(right) => {
                            let mut joined = left;
                            append_text(&mut joined, &right);
                            Ok(Type::TextString(joined))
                        },
                        Err(q) => Err(Stop::Pending(q)),
                    }
                } else {
                    Err(Stop::UnsupportedOperationError)
                }
            },
            (Type::TextString(left), Type::TextString(right)) => {
                match op {
                    Operator::Add => {
                        let mut joined = left;
                        append_text(&mut joined, &right);
                        Ok(Type::TextString(joined))
                    },
                    Operator::Sub => Ok(Type::Number(Num::NaN)),
                    _ => Err(Stop::UnsupportedOperationError),
                }
            },
            (Type::Undefined, Type::Number(_)) => {
                if additive {
                    Ok(Type::Number(Num::NaN))
                } else {
                    Err(Stop::UnsupportedOperationError)
                }
            },
            _ => Err(Stop::UnsupportedOperationError),
        }
    }

    /// The sum of two values, or the text that joins them.
    pub fn add(self, rhs: Type, unit: &mut Arithmetic) -> (r: Result<Type, Stop>)
        requires
            old(unit).wf(),
        ensures
            final(unit).wf(),
            final(unit).tape() == old(unit).tape(),
            match apply(Operator::Add, self@, rhs@, old(unit).tape(), old(unit).asked()) {
                Ok((v, k)) => r matches Ok(t) && t@ == v && final(unit).asked() == k,
                Err(h) => r matches Err(s) && s@ == h,
            },
    {
        self.apply(Operator::Add, rhs, unit)
    }

    /// The difference of two values.
    pub fn sub(self, rhs: Type, unit: &mut Arithmetic) -> (r: Result<Type, Stop>)
        requires
            old(unit).wf(),
        ensures
            final(unit).wf(),
            final(unit).tape() == old(unit).tape(),
            match apply(Operator::Sub, self@, rhs@, old(unit).tape(), old(unit).asked()) {
                Ok((v, k)) => r matches Ok(t) && t@ == v && final(unit).asked() == k,
                Err(h) => r matches Err(s) && s@ == h,
            },
    {
        self.apply(Operator::Sub, rhs, unit)
    }

    /// The product of two numbers.
    pub fn mul(self, rhs: Type, unit: &mut Arithmetic) -> (r: Result<Type, Stop>)
        requires
            old(unit).wf(),
        ensures
            final(unit).wf(),
            final(unit).tape() == old(unit).tape(),
            match apply(Operator::Mul, self@, rhs@, old(unit).tape(), old(unit).asked()) {
                Ok((v, k)) => r matches Ok(t) && t@ == v && final(unit).asked() == k,
                Err(h) => r matches Err(s) && s@ == h,
            },
    {
        self.apply(Operator::Mul, rhs, unit)
    }

    /// The quotient of two numbers.
    pub fn div(self, rhs: Type, unit: &mut Arithmetic) -> (r: Result<Type, Stop>)
        requires
            old(unit).wf(),
        ensures
            final(unit).wf(),
            final(unit).tape() == old(unit).tape(),
            match apply(Operator::Div, self@, rhs@, old(unit).tape(), old(unit).asked()) {
                Ok((v, k)) => r matches Ok(t) && t@ == v && final(unit).asked() == k,
                Err(h) => r matches Err(s) && s@ == h,
            },
    {
        self.apply(Operator::Div, rhs, unit)
    }
}

} // verus!
