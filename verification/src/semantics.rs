//! The meaning of the language: what a buffer of source text evaluates to,
//! given the bindings of the scope that scans it and the answers of the host's
//! arithmetic unit.
//!
//! Every function here takes the answers received so far (`tape`), the scope
//! (`scene`), the position from which it reads, and the count of answers
//! already used. It gives the count of characters it consumes and the count of
//! answers used after it, or the fault that stops the evaluation.
use vstd::prelude::*;
use crate::arithmetic::{number_at, Ask, Reply};
use crate::keywords::{declaration_keyword, kw_function, kw_undefined};
use crate::operators::Operator;
use crate::scan::{char_at, contains_word, line_end, occurs, run, span, Class};
use crate::stop::{Fault, Halt};
use crate::text::{alphabetic, digit};
use crate::types::{apply, FunctionDef, Num, Value};

verus! {

/// What a scope holds besides its position: the buffer and the two tables.
pub struct Scene {
    pub code: Seq<char>,
    pub values: Map<Seq<char>, Value>,
    pub functions: Map<Seq<char>, FunctionDef>,
}

impl Scene {
    /// The scope in which a buffer starts to be scanned: nothing is bound.
    pub open spec fn fresh(code: Seq<char>) -> Scene {
        Scene { code, values: Map::empty(), functions: Map::empty() }
    }

    /// Every declared body is shorter than the buffer: it was cut out of it,
    /// between two braces.
    pub open spec fn fits(self) -> bool {
        forall|name: Seq<char>| #[trigger]
            self.functions.dom().contains(name) ==> self.functions[name].body.len()
                < self.code.len()
    }

    /// Whether `name` is declared, with a body that can be run.
    pub open spec fn callable(self, name: Seq<char>) -> bool {
        self.functions.dom().contains(name) && self.functions[name].body.len() < self.code.len()
    }
}

/// The outcome of an expression: its value, the count of characters consumed,
/// and the count of answers used after it.
pub struct Evaluated {
    pub value: Value,
    pub consumed: nat,
    pub asked: nat,
}

/// The outcome of a statement or of a run of statements: the two tables after
/// it, the count of characters consumed, and the count of answers used.
pub struct Executed {
    pub values: Map<Seq<char>, Value>,
    pub functions: Map<Seq<char>, FunctionDef>,
    pub consumed: nat,
    pub asked: nat,
}

/// How much of the buffer lies at or after `pos`.
pub open spec fn left(code: Seq<char>, pos: int) -> nat {
    if pos <= code.len() {
        (code.len() - pos) as nat
    } else {
        0
    }
}

/// A fault of the given kind at the given position.
pub open spec fn fault<T>(reason: Halt, position: int) -> Result<T, Fault> {
    Err(Fault { reason, position: position as nat })
}

/// The fault of finding something other than `expected` at `pos`.
pub open spec fn unexpected<T>(code: Seq<char>, pos: int, expected: char) -> Result<T, Fault> {
    fault(Halt::SyntaxError { expected, found: char_at(code, pos) }, pos)
}

/// An outcome with the spaces that follow it consumed too.
pub open spec fn spaced(code: Seq<char>, pos: int, r: Result<Evaluated, Fault>) -> Result<
    Evaluated,
    Fault,
> {
    match r {
        Ok(e) => Ok(
            Evaluated { consumed: e.consumed + run(code, pos + e.consumed, Class::Space), ..e },
        ),
        Err(f) => Err(f),
    }
}

/// An outcome that consumed `before` more characters ahead of it.
pub open spec fn after(before: nat, r: Result<Evaluated, Fault>) -> Result<Evaluated, Fault> {
    match r {
        Ok(e) => Ok(Evaluated { consumed: before + e.consumed, ..e }),
        Err(f) => Err(f),
    }
}

/// A run of statements that consumed `before` more characters ahead of it.
pub open spec fn later(before: nat, r: Result<Executed, Fault>) -> Result<Executed, Fault> {
    match r {
        Ok(x) => Ok(Executed { consumed: before + x.consumed, ..x }),
        Err(f) => Err(f),
    }
}

/// A number literal: the longest run of digits, whose value the host gives.
/// Where no digit stands at `pos`, one was expected.
pub open spec fn sem_number(tape: Seq<Reply>, code: Seq<char>, pos: int, asked: nat) -> Result<
    Evaluated,
    Fault,
> {
    let n = run(code, pos, Class::Digit);
    if n == 0 {
        unexpected(code, pos, '0')
    } else {
        match number_at(tape, asked) {
            Some(bits) => Ok(
                Evaluated { value: Value::Number(Num::Finite(bits)), consumed: n, asked: asked + 1 },
            ),
            None => fault(Halt::Pending(Ask::Parse(span(code, pos, pos + n))), pos + n),
        }
    }
}

/// A string literal: the characters between two double quotes, as they stand.
pub open spec fn sem_string(code: Seq<char>, pos: int, asked: nat) -> Result<Evaluated, Fault> {
    let n = run(code, pos + 1, Class::Quoted);
    if char_at(code, pos) != Some('"') {
        unexpected(code, pos, '"')
    } else if char_at(code, pos + 1 + n) != Some('"') {
        unexpected(code, pos + 1 + n, '"')
    } else {
        Ok(
            Evaluated {
                value: Value::TextString(span(code, pos + 1, pos + 1 + n)),
                consumed: n + 2,
                asked,
            },
        )
    }
}

/// An identifier: `undefined`, or the value bound to the name. Where that is a
/// function reference and `()` follows at once, the function is called: its
/// body runs in a scope of its own, and the call yields `undefined`.
pub open spec fn sem_identifier(tape: Seq<Reply>, scene: Scene, pos: int, asked: nat) -> Result<
    Evaluated,
    Fault,
>
    decreases scene.code.len(), left(scene.code, pos), 0nat,
{
    let n = run(scene.code, pos, Class::Word);
    let name = span(scene.code, pos, pos + n);
    let next = pos + n;
    if name == kw_undefined() {
        Ok(Evaluated { value: Value::Undefined, consumed: n, asked })
    } else if !scene.values.dom().contains(name) {
        fault(Halt::UndefinedVariableError { name }, next)
    } else {
        match scene.values[name] {
            Value::FunctionRef(callee) => {
                if char_at(scene.code, next) != Some('(') {
                    Ok(Evaluated { value: Value::FunctionRef(callee), consumed: n, asked })
                } else if char_at(scene.code, next + 1) != Some(')') {
                    unexpected(scene.code, next + 1, ')')
                } else if !scene.callable(callee) {
                    fault(Halt::UndefinedVariableError { name: callee }, next + 2)
                } else {
                    match sem_program(
                        tape,
                        Scene::fresh(scene.functions[callee].body),
                        0,
                        asked,
                    ) {
                        Ok(x) => Ok(
                            Evaluated { value: Value::Undefined, consumed: n + 2, asked: x.asked },
                        ),
                        Err(f) => Err(f),
                    }
                }
            },
            value => Ok(Evaluated { value, consumed: n, asked }),
        }
    }
}

/// An atom: a parenthesised expression, a number, a string or an identifier,
/// with the spaces that follow it. Where none of them starts, the atom is
/// `undefined` and consumes only spaces.
pub open spec fn sem_atom(tape: Seq<Reply>, scene: Scene, pos: int, asked: nat) -> Result<
    Evaluated,
    Fault,
>
    decreases scene.code.len(), left(scene.code, pos), 1nat,
{
    let code = scene.code;
    match char_at(code, pos) {
        Some(c) => {
            if c == '(' {
                match sem_expression(tape, scene, pos + 1, asked) {
                    Ok(e) => {
                        let close = pos + 1 + e.consumed;
                        if char_at(code, close) == Some(')') {
                            spaced(code, pos, Ok(Evaluated { consumed: e.consumed + 2, ..e }))
                        } else {
                            unexpected(code, close, ')')
                        }
                    },
                    Err(f) => Err(f),
                }
            } else if digit(c) {
                spaced(code, pos, sem_number(tape, code, pos, asked))
            } else if c == '"' || c == '\'' {
                spaced(code, pos, sem_string(code, pos, asked))
            } else if alphabetic(c) {
                spaced(code, pos, sem_identifier(tape, scene, pos, asked))
            } else {
                Ok(
                    Evaluated {
                        value: Value::Undefined,
                        consumed: run(code, pos, Class::Space),
                        asked,
                    },
                )
            }
        },
        None => Ok(Evaluated { value: Value::Undefined, consumed: 0, asked }),
    }
}

/// How many characters an operator and the spaces after it take.
pub open spec fn gap(code: Seq<char>, pos: int) -> nat {
    1 + run(code, pos + 1, Class::Space)
}

/// The outcome of applying `operator` to `prev` and to the operand that was
/// read `width` characters after `pos`.
pub open spec fn applied(
    tape: Seq<Reply>,
    pos: int,
    width: nat,
    operator: Operator,
    prev: Value,
    operand: Result<Evaluated, Fault>,
) -> Result<Evaluated, Fault> {
    match operand {
        Ok(e) => match apply(operator, prev, e.value, tape, e.asked) {
            Ok((value, asked)) => Ok(Evaluated { value, consumed: width + e.consumed, asked }),
            Err(reason) => fault(reason, pos + width + e.consumed),
        },
        Err(f) => Err(f),
    }
}

/// An operator at `pos` and its right operand, applied to `prev`: a factor
/// after `+` or `-`, an atom after `*` or `/`.
pub open spec fn sem_operation(
    tape: Seq<Reply>,
    scene: Scene,
    pos: int,
    asked: nat,
    operator: Operator,
    prev: Value,
) -> Result<Evaluated, Fault>
    decreases scene.code.len(), left(scene.code, pos), 0nat,
{
    let code = scene.code;
    if char_at(code, pos) != Some(operator.symbol()) {
        unexpected(code, pos, operator.symbol())
    } else {
        let from = pos + gap(code, pos);
        applied(
            tape,
            pos,
            gap(code, pos),
            operator,
            prev,
            if operator.additive() {
                sem_factor(tape, scene, from, asked)
            } else {
                sem_atom(tape, scene, from, asked)
            },
        )
    }
}

/// What follows the first atom of a factor: any number of `*` or `/` with an
/// atom each, applied from left to right to `prev`, and the spaces after them.
pub open spec fn sem_factor_rest(
    tape: Seq<Reply>,
    scene: Scene,
    pos: int,
    asked: nat,
    prev: Value,
) -> Result<Evaluated, Fault>
    decreases scene.code.len(), left(scene.code, pos), 3nat,
{
    let code = scene.code;
    if char_at(code, pos) == Some('*') || char_at(code, pos) == Some('/') {
        let operator = if code[pos] == '*' {
            Operator::Mul
        } else {
            Operator::Div
        };
        let operand = sem_atom(tape, scene, pos + gap(code, pos), asked);
        match applied(tape, pos, gap(code, pos), operator, prev, operand) {
            Ok(e) => after(
                e.consumed,
                sem_factor_rest(tape, scene, pos + e.consumed, e.asked, e.value),
            ),
            Err(f) => Err(f),
        }
    } else {
        Ok(Evaluated { value: prev, consumed: run(code, pos, Class::Space), asked })
    }
}

/// A factor: atoms joined by `*` and `/`.
pub open spec fn sem_factor(tape: Seq<Reply>, scene: Scene, pos: int, asked: nat) -> Result<
    Evaluated,
    Fault,
>
    decreases scene.code.len(), left(scene.code, pos), 4nat,
{
    match sem_atom(tape, scene, pos, asked) {
        Ok(a) => after(
            a.consumed,
            sem_factor_rest(tape, scene, pos + a.consumed, a.asked, a.value),
        ),
        Err(f) => Err(f),
    }
}

/// What follows the first factor of an expression: any number of `+` or `-`
/// with a factor each, applied from left to right to `prev`.
pub open spec fn sem_expression_rest(
    tape: Seq<Reply>,
    scene: Scene,
    pos: int,
    asked: nat,
    prev: Value,
) -> Result<Evaluated, Fault>
    decreases scene.code.len(), left(scene.code, pos), 5nat,
{
    let code = scene.code;
    if char_at(code, pos) == Some('+') || char_at(code, pos) == Some('-') {
        let operator = if code[pos] == '+' {
            Operator::Add
        } else {
            Operator::Sub
        };
        let operand = sem_factor(tape, scene, pos + gap(code, pos), asked);
        match applied(tape, pos, gap(code, pos), operator, prev, operand) {
            Ok(e) => after(
                e.consumed,
                sem_expression_rest(tape, scene, pos + e.consumed, e.asked, e.value),
            ),
            Err(f) => Err(f),
        }
    } else {
        Ok(Evaluated { value: prev, consumed: 0, asked })
    }
}

/// An expression: factors joined by `+` and `-`.
pub open spec fn sem_expression(tape: Seq<Reply>, scene: Scene, pos: int, asked: nat) -> Result<
    Evaluated,
    Fault,
>
    decreases scene.code.len(), left(scene.code, pos), 6nat,
{
    match sem_factor(tape, scene, pos, asked) {
        Ok(f) => after(
            f.consumed,
            sem_expression_rest(tape, scene, pos + f.consumed, f.asked, f.value),
        ),
        Err(f) => Err(f),
    }
}

/// A binding: a name, `=` and an expression, whose value is bound to the
/// name in place of what was bound to it before.
pub open spec fn sem_binding(tape: Seq<Reply>, scene: Scene, pos: int, asked: nat) -> Result<
    Executed,
    Fault,
>
    decreases scene.code.len(), left(scene.code, pos), 7nat,
{
    let code = scene.code;
    let length = run(code, pos, Class::Word);
    let name = span(code, pos, pos + length);
    let target = length + run(code, pos + length, Class::Space);
    if char_at(code, pos + target) != Some('=') {
        unexpected(code, pos + target, '=')
    } else {
        let start = target + 1 + run(code, pos + target + 1, Class::Space);
        match sem_expression(tape, scene, pos + start, asked) {
            Ok(e) => Ok(
                Executed {
                    values: scene.values.insert(name, e.value),
                    functions: scene.functions,
                    consumed: start + e.consumed,
                    asked: e.asked,
                },
            ),
            Err(f) => Err(f),
        }
    }
}

/// The first word of the statement at `pos`, after the spaces that lead it.
pub open spec fn first_word(code: Seq<char>, pos: int) -> Seq<char> {
    let lead = run(code, pos, Class::Space);
    span(code, pos + lead, pos + lead + run(code, pos + lead, Class::Word))
}

/// How many characters the first word of the statement at `pos` takes, with
/// the spaces before and after it.
pub open spec fn first_width(code: Seq<char>, pos: int) -> nat {
    let lead = run(code, pos, Class::Space);
    let first = run(code, pos + lead, Class::Word);
    lead + first + run(code, pos + lead + first, Class::Space)
}

/// An assignment: a binding, with or without one of the declaration keywords
/// before it. The keyword adds nothing but its length.
pub open spec fn sem_assign(tape: Seq<Reply>, scene: Scene, pos: int, asked: nat) -> Result<
    Executed,
    Fault,
>
    decreases scene.code.len(), left(scene.code, pos), 8nat,
{
    let code = scene.code;
    let lead = run(code, pos, Class::Space);
    if declaration_keyword(first_word(code, pos)) {
        later(
            first_width(code, pos),
            sem_binding(tape, scene, pos + first_width(code, pos), asked),
        )
    } else {
        later(lead, sem_binding(tape, scene, pos + lead, asked))
    }
}

/// How many characters of `word` stand in `code` from `pos` on, up to the first
/// that does not.
pub open spec fn matched(code: Seq<char>, pos: int, word: Seq<char>) -> nat
    decreases word.len(),
{
    if word.len() > 0 && char_at(code, pos) == Some(word[0]) {
        1 + matched(code, pos + 1, word.subrange(1, word.len() as int))
    } else {
        0
    }
}

/// Where the name of a function declaration at `pos` starts: after the
/// keyword and the spaces that follow it.
pub open spec fn name_offset(code: Seq<char>, pos: int) -> nat {
    kw_function().len() + run(code, pos + kw_function().len(), Class::Space)
}

/// The name that a function declaration at `pos` declares.
pub open spec fn declared_name(code: Seq<char>, pos: int) -> Seq<char> {
    let head = name_offset(code, pos);
    span(code, pos + head, pos + head + run(code, pos + head, Class::Word))
}

/// A function declaration: the keyword, a name, `()`, and a body between `{`
/// and the first `}`. The body is kept as text, and the name is bound to a
/// reference to the function.
pub open spec fn sem_function(scene: Scene, pos: int, asked: nat) -> Result<Executed, Fault> {
    let code = scene.code;
    let keyword = matched(code, pos, kw_function());
    let head = name_offset(code, pos);
    let length = run(code, pos + head, Class::Word);
    let name = declared_name(code, pos);
    let open = head + length + run(code, pos + head + length, Class::Space);
    let brace = open + 2 + run(code, pos + open + 2, Class::Space);
    let size = run(code, pos + brace + 1, Class::Body);
    let body = span(code, pos + brace + 1, pos + brace + 1 + size);
    if keyword < kw_function().len() {
        unexpected(code, pos + keyword, kw_function()[keyword as int])
    } else if char_at(code, pos + open) != Some('(') {
        unexpected(code, pos + open, '(')
    } else if char_at(code, pos + open + 1) != Some(')') {
        unexpected(code, pos + open + 1, ')')
    } else if char_at(code, pos + brace) != Some('{') {
        unexpected(code, pos + brace, '{')
    } else if char_at(code, pos + brace + 1 + size) != Some('}') {
        unexpected(code, pos + brace + 1 + size, '}')
    } else {
        Ok(
            Executed {
                values: scene.values.insert(name, Value::FunctionRef(name)),
                functions: scene.functions.insert(
                    name,
                    FunctionDef { arguments: Seq::empty(), body },
                ),
                consumed: brace + size + 2,
                asked,
            },
        )
    }
}

/// What a statement is taken for, by a look at its line.
pub enum Kind {
    Assignment,
    Declaration,
    Expression,
}

/// The kind of the statement that starts at `pos`: an assignment where `=`
/// occurs on the line, else a declaration where the function keyword does,
/// else an expression.
pub open spec fn kind_at(code: Seq<char>, pos: int) -> Kind {
    if occurs(code, pos, line_end(code, pos), '=') {
        Kind::Assignment
    } else if contains_word(span(code, pos, line_end(code, pos)), kw_function()) {
        Kind::Declaration
    } else {
        Kind::Expression
    }
}

/// How many characters end a statement at `pos`: an optional semicolon, an
/// optional newline, and the spaces after them.
pub open spec fn tail(code: Seq<char>, pos: int) -> nat {
    let semicolon: nat = if char_at(code, pos) == Some(';') {
        1
    } else {
        0
    };
    let newline: nat = if char_at(code, pos + semicolon) == Some('\n') {
        1
    } else {
        0
    };
    semicolon + newline + run(code, pos + semicolon + newline, Class::Space)
}

/// The construct that the line at `pos` calls for: an assignment, a function
/// declaration, or an expression whose value is dropped.
pub open spec fn sem_construct(tape: Seq<Reply>, scene: Scene, pos: int, asked: nat) -> Result<
    Executed,
    Fault,
>
    decreases scene.code.len(), left(scene.code, pos), 9nat,
{
    match kind_at(scene.code, pos) {
        Kind::Assignment => sem_assign(tape, scene, pos, asked),
        Kind::Declaration => sem_function(scene, pos, asked),
        Kind::Expression => match sem_expression(tape, scene, pos, asked) {
            Ok(e) => Ok(
                Executed {
                    values: scene.values,
                    functions: scene.functions,
                    consumed: e.consumed,
                    asked: e.asked,
                },
            ),
            Err(f) => Err(f),
        },
    }
}

/// One statement: leading spaces, the construct that its line calls for, and
/// what ends it.
pub open spec fn sem_statement(tape: Seq<Reply>, scene: Scene, pos: int, asked: nat) -> Result<
    Executed,
    Fault,
>
    decreases scene.code.len(), left(scene.code, pos), 10nat,
{
    let code = scene.code;
    let lead = run(code, pos, Class::Space);
    match sem_construct(tape, scene, pos + lead, asked) {
        Ok(x) => Ok(
            Executed {
                consumed: lead + x.consumed + tail(code, pos + lead + x.consumed),
                ..x
            },
        ),
        Err(f) => Err(f),
    }
}

/// The statements from `pos` to the end of the buffer, one after the other. A
/// statement that consumes nothing is a syntax error: a semicolon was due.
pub open spec fn sem_program(tape: Seq<Reply>, scene: Scene, pos: int, asked: nat) -> Result<
    Executed,
    Fault,
>
    decreases scene.code.len(), left(scene.code, pos), 11nat,
{
    if !(0 <= pos < scene.code.len()) {
        Ok(Executed { values: scene.values, functions: scene.functions, consumed: 0, asked })
    } else {
        match sem_statement(tape, scene, pos, asked) {
            Ok(x) => if x.consumed == 0 {
                unexpected(scene.code, pos, ';')
            } else {
                later(
                    x.consumed,
                    sem_program(
                        tape,
                        Scene { values: x.values, functions: x.functions, ..scene },
                        pos + x.consumed,
                        x.asked,
                    ),
                )
            },
            Err(f) => Err(f),
        }
    }
}

/// Consuming `first` characters and then `second` more is consuming their sum.
pub proof fn lemma_after_after(first: nat, second: nat, r: Result<Evaluated, Fault>)
    ensures
        after(first, after(second, r))
            == after(first + second, r),
{
}

/// Consuming `first` characters and then `second` more is consuming their sum.
pub proof fn lemma_later_later(first: nat, second: nat, r: Result<Executed, Fault>)
    ensures
        later(first, later(second, r))
            == later(first + second, r),
{
}

/// The characters of `word` that stand at `pos` are those before place `i`,
/// and those that stand from there on.
pub proof fn lemma_matched_split(code: Seq<char>, pos: int, word: Seq<char>, i: nat)
    requires
        i <= word.len(),
        forall|j: int| 0 <= j < i ==> char_at(code, pos + j) == Some(#[trigger] word[j]),
    ensures
        matched(code, pos, word) == i + matched(
            code,
            pos + i,
            word.subrange(i as int, word.len() as int),
        ),
    decreases i,
{
    if i == 0 {
        assert(word.subrange(0, word.len() as int) =~= word);
    } else {
        let rest = word.subrange(1, word.len() as int);
        assert(char_at(code, pos + 0) == Some(word[0]));
        assert forall|j: int| 0 <= j < i - 1 implies char_at(code, pos + 1 + j) == Some(
            #[trigger] rest[j],
        ) by {
            assert(char_at(code, pos + (j + 1)) == Some(word[j + 1]));
        }
        lemma_matched_split(code, pos + 1, rest, (i - 1) as nat);
        assert(rest.subrange(i - 1, rest.len() as int) =~= word.subrange(
            i as int,
            word.len() as int,
        ));
    }
}

} // verus!
