//! Laws of the language, proved from its semantics.
use vstd::prelude::*;
use crate::arithmetic::{number_at, text_at, Ask, Reply};
use crate::interpreter::{evaluated, Interpreter};
use crate::operators::Operator;
use crate::scan::{lemma_run, lemma_run_is, run, span, Class};
use crate::semantics::{
    applied, declared_name, fault, gap, name_offset, sem_atom, sem_binding, sem_expression,
    sem_expression_rest, sem_factor, sem_factor_rest, sem_function, sem_number, Evaluated, Scene,
};
use crate::stop::{Fault, Halt, Stopped};
use crate::text::digit;
use crate::types::{apply, nan_text, Num, Type, Value};

verus! {

/// Undefined plus or minus any number is the number `NaN`, and the host is
/// asked nothing.
pub proof fn lemma_undefined_with_number(
    operator: Operator,
    number: Num,
    tape: Seq<Reply>,
    asked: nat,
)
    requires
        operator.additive(),
    ensures
        apply(operator, Value::Undefined, Value::Number(number), tape, asked) == Ok::<
            (Value, nat),
            Halt,
        >((Value::Number(Num::NaN), asked)),
{
}

/// A text minus a text is the number `NaN`, and the host is asked nothing.
pub proof fn lemma_text_minus_text(left: Seq<char>, right: Seq<char>, tape: Seq<Reply>, asked: nat)
    ensures
        apply(Operator::Sub, Value::TextString(left), Value::TextString(right), tape, asked) == Ok::<
            (Value, nat),
            Halt,
        >((Value::Number(Num::NaN), asked)),
{
}

/// `NaN` on either side of an operator between numbers gives `NaN`.
pub proof fn lemma_nan_propagates(operator: Operator, other: Num, tape: Seq<Reply>, asked: nat)
    ensures
        apply(operator, Value::Number(Num::NaN), Value::Number(other), tape, asked) == Ok::<
            (Value, nat),
            Halt,
        >((Value::Number(Num::NaN), asked)),
        apply(operator, Value::Number(other), Value::Number(Num::NaN), tape, asked) == Ok::<
            (Value, nat),
            Halt,
        >((Value::Number(Num::NaN), asked)),
{
}

/// The sum of two texts is the first followed by the second, so that sums of
/// texts may be grouped either way: `(a + b) + c` is `a + (b + c)`.
pub proof fn lemma_concatenation_is_associative(
    a: Seq<char>,
    b: Seq<char>,
    c: Seq<char>,
    tape: Seq<Reply>,
    asked: nat,
)
    ensures
        apply(Operator::Add, Value::TextString(a), Value::TextString(b), tape, asked) == Ok::<
            (Value, nat),
            Halt,
        >((Value::TextString(a + b), asked)),
        apply(Operator::Add, Value::TextString(a + b), Value::TextString(c), tape, asked) == apply(
            Operator::Add,
            Value::TextString(a),
            Value::TextString(b + c),
            tape,
            asked,
        ),
{
    assert((a + b) + c =~= a + (b + c));
}

/// A number and a text add up to a text in which the number stands, rendered,
/// on the side on which it stood: the order of the operands is kept.
pub proof fn lemma_number_joins_text(
    number: Num,
    text: Seq<char>,
    rendered: Seq<char>,
    tape: Seq<Reply>,
    asked: nat,
)
    requires
        number == Num::NaN ==> rendered == nan_text(),
        number != Num::NaN ==> text_at(tape, asked) == Some(rendered),
    ensures
        apply(Operator::Add, Value::Number(number), Value::TextString(text), tape, asked)
            matches Ok((value, _)) && value == Value::TextString(rendered + text),
        apply(Operator::Add, Value::TextString(text), Value::Number(number), tape, asked)
            matches Ok((value, _)) && value == Value::TextString(text + rendered),
{
}

/// What a binding binds is what its expression evaluates to: after a binding
/// that succeeds, the name that stood before the sign is bound to the value of
/// the expression that stood after it, and no other name is bound anew.
pub proof fn lemma_binding_round_trip(tape: Seq<Reply>, scene: Scene, pos: int, asked: nat)
    requires
        sem_binding(tape, scene, pos, asked) is Ok,
    ensures
        ({
            let code = scene.code;
            let length = run(code, pos, Class::Word);
            let name = span(code, pos, pos + length);
            let sign = pos + length + run(code, pos + length, Class::Space);
            let start = sign + 1 + run(code, sign + 1, Class::Space);
            let bound = sem_binding(tape, scene, pos, asked)->Ok_0;
            &&& sem_expression(tape, scene, start, asked) matches Ok(e) && bound.values
                == scene.values.insert(name, e.value)
            &&& bound.values.dom().contains(name)
            &&& bound.functions == scene.functions
        }),
{
}

/// A function declaration that succeeds leaves its name bound to a reference
/// to the function, and the function declared under that name with the body
/// that was read, which is shorter than the buffer.
pub proof fn lemma_declaration_binds_reference(scene: Scene, pos: int, asked: nat)
    requires
        0 <= pos,
        sem_function(scene, pos, asked) is Ok,
    ensures
        ({
            let after = sem_function(scene, pos, asked)->Ok_0;
            let name = declared_name(scene.code, pos);
            &&& after.values.dom().contains(name)
            &&& after.values[name] == Value::FunctionRef(name)
            &&& after.functions.dom().contains(name)
            &&& after.functions[name].body.len() < scene.code.len()
            &&& after.asked == asked
        }),
{
    let code = scene.code;
    let head = name_offset(code, pos);
    let length = run(code, pos + head, Class::Word);
    let open = head + length + run(code, pos + head + length, Class::Space);
    let brace = open + 2 + run(code, pos + open + 2, Class::Space);
    lemma_run(code, pos + brace + 1, Class::Body);
}

/// An evaluation is a function of the text, of the bindings and of the answers
/// of the arithmetic unit: two evaluations of one expression that start alike
/// end alike, in the same value or in the same fault.
pub proof fn lemma_same_text_same_value(
    first: Interpreter,
    first_after: Interpreter,
    first_result: Result<Type, Stopped>,
    second: Interpreter,
    second_after: Interpreter,
    second_result: Result<Type, Stopped>,
)
    requires
        first.scene() == second.scene(),
        first.position() == second.position(),
        first.tape() == second.tape(),
        first.asked() == second.asked(),
        evaluated(
            first,
            first_after,
            first_result,
            sem_expression(first.tape(), first.scene(), first.position(), first.asked()),
        ),
        evaluated(
            second,
            second_after,
            second_result,
            sem_expression(second.tape(), second.scene(), second.position(), second.asked()),
        ),
    ensures
        match (first_result, second_result) {
            (Ok(a), Ok(b)) => a@ == b@ && first_after.position() == second_after.position(),
            (Err(a), Err(b)) => a@ == b@,
            _ => false,
        },
{
}

/// Whether `text` is a number literal: one digit or more, and nothing else.
pub open spec fn literal(text: Seq<char>) -> bool {
    text.len() > 0 && forall|i: int| 0 <= i < text.len() ==> digit(#[trigger] text[i])
}

/// The text of `a`, a space, the operator, a space, `b`, and a semicolon.
pub open spec fn written(a: Seq<char>, operator: Operator, b: Seq<char>) -> Seq<char> {
    a + seq![' ', operator.symbol(), ' '] + b + seq![';']
}

/// The sum or difference of two number literals is the number that the host
/// gives for the operation on the numbers that it gave for the literals: the
/// host is asked to parse the first, to parse the second and to compute, in
/// that order, and the expression ends before the semicolon.
pub proof fn lemma_sum_of_literals(
    tape: Seq<Reply>,
    scene: Scene,
    a: Seq<char>,
    operator: Operator,
    b: Seq<char>,
    x: u64,
    y: u64,
)
    requires
        operator.additive(),
        literal(a),
        literal(b),
        scene.code == written(a, operator, b),
        number_at(tape, 0) == Some(x),
        number_at(tape, 1) == Some(y),
    ensures
        sem_expression(tape, scene, 0, 0) == (match number_at(tape, 2) {
            Some(z) => Ok(
                Evaluated {
                    value: Value::Number(Num::Finite(z)),
                    consumed: a.len() + b.len() + 3,
                    asked: 3,
                },
            ),
            None => fault::<Evaluated>(
                Halt::Pending(Ask::Compute(operator, x, y)),
                (a.len() + b.len() + 3) as int,
            ),
        }),
{
    let code = scene.code;
    let n = a.len() as int;
    let m = b.len() as int;
    let symbol = operator.symbol();
    assert(code.len() == n + m + 4);
    assert forall|i: int| 0 <= i < n implies code[i] == a[i] by {}
    assert(code[n] == ' ');
    assert(code[n + 1] == symbol);
    assert(code[n + 2] == ' ');
    assert forall|j: int| 0 <= j < m implies code[n + 3 + j] == b[j] by {}
    assert(code[n + 3 + m] == ';');
    assert(symbol == '+' || symbol == '-');

    assert forall|i: int| 0 <= i < 0 + n implies Class::Digit.has(#[trigger] code[i]) by {
        assert(digit(a[i]));
    }
    lemma_run_is(code, 0, Class::Digit, n as nat);
    lemma_run_is(code, n, Class::Space, 1);
    lemma_run_is(code, n + 1, Class::Space, 0);
    lemma_run_is(code, n + 2, Class::Space, 1);
    assert forall|i: int| n + 3 <= i < n + 3 + m implies Class::Digit.has(#[trigger] code[i]) by {
        assert(code[n + 3 + (i - n - 3)] == b[i - n - 3]);
        assert(digit(b[i - n - 3]));
    }
    lemma_run_is(code, n + 3, Class::Digit, m as nat);
    lemma_run_is(code, n + 3 + m, Class::Space, 0);

    let first = Value::Number(Num::Finite(x));
    let second = Value::Number(Num::Finite(y));
    assert(digit(code[0])) by {
        assert(digit(a[0]));
    }
    assert(digit(code[n + 3])) by {
        assert(code[n + 3 + 0] == b[0]);
        assert(digit(b[0]));
    }
    assert(sem_number(tape, code, 0, 0) == Ok::<Evaluated, Fault>(
        Evaluated { value: first, consumed: n as nat, asked: 1 },
    ));
    assert(sem_atom(tape, scene, 0, 0) == Ok::<Evaluated, Fault>(
        Evaluated { value: first, consumed: (n + 1) as nat, asked: 1 },
    ));
    assert(sem_factor_rest(tape, scene, n + 1, 1, first) == Ok::<Evaluated, Fault>(
        Evaluated { value: first, consumed: 0, asked: 1 },
    ));
    assert(sem_factor(tape, scene, 0, 0) == Ok::<Evaluated, Fault>(
        Evaluated { value: first, consumed: (n + 1) as nat, asked: 1 },
    ));
    assert(sem_number(tape, code, n + 3, 1) == Ok::<Evaluated, Fault>(
        Evaluated { value: second, consumed: m as nat, asked: 2 },
    ));
    assert(sem_atom(tape, scene, n + 3, 1) == Ok::<Evaluated, Fault>(
        Evaluated { value: second, consumed: m as nat, asked: 2 },
    ));
    assert(sem_factor_rest(tape, scene, n + 3 + m, 2, second) == Ok::<Evaluated, Fault>(
        Evaluated { value: second, consumed: 0, asked: 2 },
    ));
    assert(sem_factor(tape, scene, n + 3, 1) == Ok::<Evaluated, Fault>(
        Evaluated { value: second, consumed: m as nat, asked: 2 },
    ));
    assert(gap(code, n + 1) == 2);
    let operand = sem_factor(tape, scene, n + 1 + gap(code, n + 1), 1);
    let step = applied(tape, n + 1, 2, operator, first, operand);
    match number_at(tape, 2) {
        Some(z) => {
            let third = Value::Number(Num::Finite(z));
            assert(step == Ok::<Evaluated, Fault>(
                Evaluated { value: third, consumed: (m + 2) as nat, asked: 3 },
            ));
            assert(sem_expression_rest(tape, scene, n + 3 + m, 3, third) == Ok::<
                Evaluated,
                Fault,
            >(Evaluated { value: third, consumed: 0, asked: 3 }));
            assert(sem_expression_rest(tape, scene, n + 1, 1, first) == Ok::<Evaluated, Fault>(
                Evaluated { value: third, consumed: (m + 2) as nat, asked: 3 },
            ));
        },
        None => {
            assert(step == fault::<Evaluated>(
                Halt::Pending(Ask::Compute(operator, x, y)),
                n + m + 3,
            ));
            assert(sem_expression_rest(tape, scene, n + 1, 1, first) == step);
        },
    }
}

} // verus!
