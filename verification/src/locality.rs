//! Evaluation is local: what an expression evaluates to depends on the text
//! from the cursor on, and on nothing before it. From this it follows that the
//! declaration keywords are interchangeable.
use vstd::prelude::*;
use crate::arithmetic::Reply;
use crate::keywords::declaration_keyword;
use crate::scan::{char_at, lemma_run, run, span, Class};
use crate::semantics::{
    applied, declared_name, first_width, first_word, gap, left, name_offset, sem_assign, sem_atom,
    sem_binding, sem_construct, sem_expression, sem_expression_rest, sem_factor, sem_factor_rest,
    sem_function, sem_identifier, sem_number, sem_program, sem_statement, sem_string, spaced,
    Evaluated, Executed, Scene,
};
use crate::operators::Operator;
use crate::stop::Fault;
use crate::text::{alphabetic, digit};
use crate::types::Value;

verus! {

/// The buffer `c1` holds from `p1` on what the buffer `c2` holds from `p2` on.
pub open spec fn same_from(c1: Seq<char>, p1: int, c2: Seq<char>, p2: int) -> bool {
    &&& 0 <= p1 <= c1.len()
    &&& 0 <= p2 <= c2.len()
    &&& c1.subrange(p1, c1.len() as int) == c2.subrange(p2, c2.len() as int)
}

/// Two scopes that bind alike, over buffers that hold the same text from `p1`
/// and from `p2` on.
pub open spec fn same_view(s1: Scene, p1: int, s2: Scene, p2: int) -> bool {
    &&& same_from(s1.code, p1, s2.code, p2)
    &&& s1.values == s2.values
    &&& s1.functions == s2.functions
    &&& s1.fits()
    &&& s2.fits()
}

/// Two outcomes of an expression are alike: the same value after the same
/// count of characters and of answers, or a stop for the same reason.
pub open spec fn alike(r1: Result<Evaluated, Fault>, r2: Result<Evaluated, Fault>) -> bool {
    match (r1, r2) {
        (Ok(a), Ok(b)) => a == b,
        (Err(f), Err(g)) => f.reason == g.reason,
        _ => false,
    }
}

/// Two outcomes of a statement bind alike: the same tables after the same
/// count of answers, or a stop for the same reason.
pub open spec fn bind_alike(r1: Result<Executed, Fault>, r2: Result<Executed, Fault>) -> bool {
    match (r1, r2) {
        (Ok(a), Ok(b)) => a.values == b.values && a.functions == b.functions && a.asked
            == b.asked,
        (Err(f), Err(g)) => f.reason == g.reason,
        _ => false,
    }
}

/// An outcome that succeeded stayed inside the buffer.
pub open spec fn inside(code: Seq<char>, pos: int, r: Result<Evaluated, Fault>) -> bool {
    r matches Ok(e) ==> pos + e.consumed <= code.len()
}

/// Buffers that hold the same text from two positions on hold the same text
/// from `k` characters further on, and the same character there.
pub proof fn lemma_same_further(c1: Seq<char>, p1: int, c2: Seq<char>, p2: int, k: int)
    requires
        same_from(c1, p1, c2, p2),
        0 <= k <= c1.len() - p1,
    ensures
        same_from(c1, p1 + k, c2, p2 + k),
        char_at(c1, p1 + k) == char_at(c2, p2 + k),
        c1.len() - p1 == c2.len() - p2,
{
    let t1 = c1.subrange(p1, c1.len() as int);
    let t2 = c2.subrange(p2, c2.len() as int);
    assert(t1.len() == t2.len());
    assert(c1.subrange(p1 + k, c1.len() as int) =~= t1.subrange(k, t1.len() as int));
    assert(c2.subrange(p2 + k, c2.len() as int) =~= t2.subrange(k, t2.len() as int));
    if p1 + k < c1.len() {
        assert(c1[p1 + k] == t1[k]);
        assert(c2[p2 + k] == t2[k]);
    }
}

/// Runs of one class from two positions that hold the same text are equally
/// long, and hold the same text.
pub proof fn lemma_same_run(c1: Seq<char>, p1: int, c2: Seq<char>, p2: int, class: Class)
    requires
        same_from(c1, p1, c2, p2),
    ensures
        run(c1, p1, class) == run(c2, p2, class),
        p1 + run(c1, p1, class) <= c1.len(),
        span(c1, p1, p1 + run(c1, p1, class)) == span(c2, p2, p2 + run(c2, p2, class)),
    decreases c1.len() - p1,
{
    lemma_same_further(c1, p1, c2, p2, 0);
    lemma_run(c1, p1, class);
    lemma_run(c2, p2, class);
    if p1 < c1.len() && class.has(c1[p1]) {
        lemma_same_further(c1, p1, c2, p2, 1);
        lemma_same_run(c1, p1 + 1, c2, p2 + 1, class);
    }
    let n = run(c1, p1, class) as int;
    let t1 = c1.subrange(p1, c1.len() as int);
    let t2 = c2.subrange(p2, c2.len() as int);
    assert(span(c1, p1, p1 + n) =~= t1.subrange(0, n));
    assert(span(c2, p2, p2 + n) =~= t2.subrange(0, n));
}

/// The spaces after two like outcomes are like.
pub proof fn lemma_same_spaced(
    c1: Seq<char>,
    p1: int,
    c2: Seq<char>,
    p2: int,
    r1: Result<Evaluated, Fault>,
    r2: Result<Evaluated, Fault>,
)
    requires
        same_from(c1, p1, c2, p2),
        alike(r1, r2),
        inside(c1, p1, r1),
    ensures
        alike(spaced(c1, p1, r1), spaced(c2, p2, r2)),
        inside(c1, p1, spaced(c1, p1, r1)),
{
    if let Ok(e) = r1 {
        lemma_same_further(c1, p1, c2, p2, e.consumed as int);
        lemma_same_run(c1, p1 + e.consumed, c2, p2 + e.consumed, Class::Space);
    }
}

/// A number literal reads alike from two positions that hold the same text.
pub proof fn lemma_number_is_local(
    tape: Seq<Reply>,
    c1: Seq<char>,
    p1: int,
    c2: Seq<char>,
    p2: int,
    asked: nat,
)
    requires
        same_from(c1, p1, c2, p2),
    ensures
        alike(sem_number(tape, c1, p1, asked), sem_number(tape, c2, p2, asked)),
        inside(c1, p1, sem_number(tape, c1, p1, asked)),
{
    lemma_same_run(c1, p1, c2, p2, Class::Digit);
    lemma_same_further(c1, p1, c2, p2, 0);
}

/// A string literal reads alike from two positions that hold the same text.
pub proof fn lemma_string_is_local(c1: Seq<char>, p1: int, c2: Seq<char>, p2: int, asked: nat)
    requires
        same_from(c1, p1, c2, p2),
    ensures
        alike(sem_string(c1, p1, asked), sem_string(c2, p2, asked)),
        inside(c1, p1, sem_string(c1, p1, asked)),
{
    lemma_same_further(c1, p1, c2, p2, 0);
    if p1 < c1.len() {
        lemma_same_further(c1, p1, c2, p2, 1);
        lemma_same_run(c1, p1 + 1, c2, p2 + 1, Class::Quoted);
        let n = run(c1, p1 + 1, Class::Quoted);
        lemma_same_further(c1, p1, c2, p2, (1 + n) as int);
    }
}

/// An identifier, and the call that it may make, evaluate alike from two
/// positions that hold the same text.
pub proof fn lemma_identifier_is_local(
    tape: Seq<Reply>,
    s1: Scene,
    p1: int,
    s2: Scene,
    p2: int,
    asked: nat,
)
    requires
        same_view(s1, p1, s2, p2),
    ensures
        alike(sem_identifier(tape, s1, p1, asked), sem_identifier(tape, s2, p2, asked)),
        inside(s1.code, p1, sem_identifier(tape, s1, p1, asked)),
{
    let c1 = s1.code;
    let c2 = s2.code;
    lemma_same_run(c1, p1, c2, p2, Class::Word);
    let n = run(c1, p1, Class::Word);
    lemma_same_further(c1, p1, c2, p2, n as int);
    if p1 + n < c1.len() {
        lemma_same_further(c1, p1, c2, p2, (n + 1) as int);
    }
}

/// An atom evaluates alike from two positions that hold the same text.
pub proof fn lemma_atom_is_local(
    tape: Seq<Reply>,
    s1: Scene,
    p1: int,
    s2: Scene,
    p2: int,
    asked: nat,
)
    requires
        same_view(s1, p1, s2, p2),
    ensures
        alike(sem_atom(tape, s1, p1, asked), sem_atom(tape, s2, p2, asked)),
        inside(s1.code, p1, sem_atom(tape, s1, p1, asked)),
    decreases s1.code.len(), left(s1.code, p1), 1nat,
{
    let c1 = s1.code;
    let c2 = s2.code;
    lemma_same_further(c1, p1, c2, p2, 0);
    match char_at(c1, p1) {
        Some(c) => {
            if c == '(' {
                lemma_same_further(c1, p1, c2, p2, 1);
                lemma_expression_is_local(tape, s1, p1 + 1, s2, p2 + 1, asked);
                if let Ok(e) = sem_expression(tape, s1, p1 + 1, asked) {
                    lemma_same_further(c1, p1, c2, p2, (1 + e.consumed) as int);
                    if char_at(c1, p1 + 1 + e.consumed) == Some(')') {
                        let inner1 = Ok::<Evaluated, Fault>(
                            Evaluated { consumed: e.consumed + 2, ..e },
                        );
                        lemma_same_spaced(c1, p1, c2, p2, inner1, inner1);
                    }
                }
            } else if digit(c) {
                lemma_number_is_local(tape, c1, p1, c2, p2, asked);
                lemma_same_spaced(
                    c1,
                    p1,
                    c2,
                    p2,
                    sem_number(tape, c1, p1, asked),
                    sem_number(tape, c2, p2, asked),
                );
            } else if c == '"' || c == '\'' {
                lemma_string_is_local(c1, p1, c2, p2, asked);
                lemma_same_spaced(
                    c1,
                    p1,
                    c2,
                    p2,
                    sem_string(c1, p1, asked),
                    sem_string(c2, p2, asked),
                );
            } else if alphabetic(c) {
                lemma_identifier_is_local(tape, s1, p1, s2, p2, asked);
                lemma_same_spaced(
                    c1,
                    p1,
                    c2,
                    p2,
                    sem_identifier(tape, s1, p1, asked),
                    sem_identifier(tape, s2, p2, asked),
                );
            } else {
                lemma_same_run(c1, p1, c2, p2, Class::Space);
            }
        },
        None => {},
    }
}

/// What follows the first atom of a factor evaluates alike from two positions
/// that hold the same text.
pub proof fn lemma_factor_rest_is_local(
    tape: Seq<Reply>,
    s1: Scene,
    p1: int,
    s2: Scene,
    p2: int,
    asked: nat,
    prev: Value,
)
    requires
        same_view(s1, p1, s2, p2),
    ensures
        alike(
            sem_factor_rest(tape, s1, p1, asked, prev),
            sem_factor_rest(tape, s2, p2, asked, prev),
        ),
        inside(s1.code, p1, sem_factor_rest(tape, s1, p1, asked, prev)),
    decreases s1.code.len(), left(s1.code, p1), 3nat,
{
    let c1 = s1.code;
    let c2 = s2.code;
    lemma_same_further(c1, p1, c2, p2, 0);
    if char_at(c1, p1) == Some('*') || char_at(c1, p1) == Some('/') {
        lemma_same_further(c1, p1, c2, p2, 1);
        lemma_same_run(c1, p1 + 1, c2, p2 + 1, Class::Space);
        let width = gap(c1, p1);
        assert(width == gap(c2, p2));
        lemma_same_further(c1, p1, c2, p2, width as int);
        lemma_atom_is_local(tape, s1, p1 + width, s2, p2 + width, asked);
        let operator = if c1[p1] == '*' {
            Operator::Mul
        } else {
            Operator::Div
        };
        let step1 = applied(
            tape,
            p1,
            width,
            operator,
            prev,
            sem_atom(tape, s1, p1 + width, asked),
        );
        let step2 = applied(
            tape,
            p2,
            width,
            operator,
            prev,
            sem_atom(tape, s2, p2 + width, asked),
        );
        assert(alike(step1, step2));
        if let Ok(e) = step1 {
            lemma_same_further(c1, p1, c2, p2, e.consumed as int);
            lemma_factor_rest_is_local(
                tape,
                s1,
                p1 + e.consumed,
                s2,
                p2 + e.consumed,
                e.asked,
                e.value,
            );
        }
    } else {
        lemma_same_run(c1, p1, c2, p2, Class::Space);
    }
}

/// A factor evaluates alike from two positions that hold the same text.
pub proof fn lemma_factor_is_local(
    tape: Seq<Reply>,
    s1: Scene,
    p1: int,
    s2: Scene,
    p2: int,
    asked: nat,
)
    requires
        same_view(s1, p1, s2, p2),
    ensures
        alike(sem_factor(tape, s1, p1, asked), sem_factor(tape, s2, p2, asked)),
        inside(s1.code, p1, sem_factor(tape, s1, p1, asked)),
    decreases s1.code.len(), left(s1.code, p1), 4nat,
{
    lemma_atom_is_local(tape, s1, p1, s2, p2, asked);
    if let Ok(a) = sem_atom(tape, s1, p1, asked) {
        lemma_same_further(s1.code, p1, s2.code, p2, a.consumed as int);
        lemma_factor_rest_is_local(
            tape,
            s1,
            p1 + a.consumed,
            s2,
            p2 + a.consumed,
            a.asked,
            a.value,
        );
    }
}

/// What follows the first factor of an expression evaluates alike from two
/// positions that hold the same text.
pub proof fn lemma_expression_rest_is_local(
    tape: Seq<Reply>,
    s1: Scene,
    p1: int,
    s2: Scene,
    p2: int,
    asked: nat,
    prev: Value,
)
    requires
        same_view(s1, p1, s2, p2),
    ensures
        alike(
            sem_expression_rest(tape, s1, p1, asked, prev),
            sem_expression_rest(tape, s2, p2, asked, prev),
        ),
        inside(s1.code, p1, sem_expression_rest(tape, s1, p1, asked, prev)),
    decreases s1.code.len(), left(s1.code, p1), 5nat,
{
    let c1 = s1.code;
    let c2 = s2.code;
    lemma_same_further(c1, p1, c2, p2, 0);
    if char_at(c1, p1) == Some('+') || char_at(c1, p1) == Some('-') {
        lemma_same_further(c1, p1, c2, p2, 1);
        lemma_same_run(c1, p1 + 1, c2, p2 + 1, Class::Space);
        let width = gap(c1, p1);
        assert(width == gap(c2, p2));
        lemma_same_further(c1, p1, c2, p2, width as int);
        lemma_factor_is_local(tape, s1, p1 + width, s2, p2 + width, asked);
        let operator = if c1[p1] == '+' {
            Operator::Add
        } else {
            Operator::Sub
        };
        let step1 = applied(
            tape,
            p1,
            width,
            operator,
            prev,
            sem_factor(tape, s1, p1 + width, asked),
        );
        let step2 = applied(
            tape,
            p2,
            width,
            operator,
            prev,
            sem_factor(tape, s2, p2 + width, asked),
        );
        assert(alike(step1, step2));
        if let Ok(e) = step1 {
            lemma_same_further(c1, p1, c2, p2, e.consumed as int);
            lemma_expression_rest_is_local(
                tape,
                s1,
                p1 + e.consumed,
                s2,
                p2 + e.consumed,
                e.asked,
                e.value,
            );
        }
    }
}

/// An expression evaluates alike from two positions that hold the same text:
/// to the same value, after the same count of characters and of answers, or to
/// a stop for the same reason. Where it succeeds, it ends inside the buffer.
pub proof fn lemma_expression_is_local(
    tape: Seq<Reply>,
    s1: Scene,
    p1: int,
    s2: Scene,
    p2: int,
    asked: nat,
)
    requires
        same_view(s1, p1, s2, p2),
    ensures
        alike(sem_expression(tape, s1, p1, asked), sem_expression(tape, s2, p2, asked)),
        inside(s1.code, p1, sem_expression(tape, s1, p1, asked)),
    decreases s1.code.len(), left(s1.code, p1), 6nat,
{
    lemma_factor_is_local(tape, s1, p1, s2, p2, asked);
    if let Ok(f) = sem_factor(tape, s1, p1, asked) {
        lemma_same_further(s1.code, p1, s2.code, p2, f.consumed as int);
        lemma_expression_rest_is_local(
            tape,
            s1,
            p1 + f.consumed,
            s2,
            p2 + f.consumed,
            f.asked,
            f.value,
        );
    }
}

/// A binding binds alike from two positions that hold the same text.
pub proof fn lemma_binding_is_local(
    tape: Seq<Reply>,
    s1: Scene,
    p1: int,
    s2: Scene,
    p2: int,
    asked: nat,
)
    requires
        same_view(s1, p1, s2, p2),
    ensures
        bind_alike(sem_binding(tape, s1, p1, asked), sem_binding(tape, s2, p2, asked)),
{
    let c1 = s1.code;
    let c2 = s2.code;
    lemma_same_run(c1, p1, c2, p2, Class::Word);
    let length = run(c1, p1, Class::Word);
    lemma_same_further(c1, p1, c2, p2, length as int);
    lemma_same_run(c1, p1 + length, c2, p2 + length, Class::Space);
    let target = length + run(c1, p1 + length, Class::Space);
    lemma_same_further(c1, p1, c2, p2, target as int);
    if char_at(c1, p1 + target) == Some('=') {
        lemma_same_further(c1, p1, c2, p2, (target + 1) as int);
        lemma_same_run(c1, p1 + target + 1, c2, p2 + target + 1, Class::Space);
        let start = target + 1 + run(c1, p1 + target + 1, Class::Space);
        lemma_same_further(c1, p1, c2, p2, start as int);
        lemma_expression_is_local(tape, s1, p1 + start, s2, p2 + start, asked);
    }
}

/// The choice of the declaration keyword is immaterial: two assignments that
/// each start with one of the three keywords, and hold the same text after the
/// keyword and its spaces, bind the same names to the same values in scopes
/// that bound alike before, or stop for the same reason.
pub proof fn lemma_keyword_choice_is_immaterial(
    tape: Seq<Reply>,
    s1: Scene,
    p1: int,
    s2: Scene,
    p2: int,
    asked: nat,
)
    requires
        declaration_keyword(first_word(s1.code, p1)),
        declaration_keyword(first_word(s2.code, p2)),
        same_view(
            s1,
            p1 + first_width(s1.code, p1),
            s2,
            p2 + first_width(s2.code, p2),
        ),
    ensures
        bind_alike(sem_assign(tape, s1, p1, asked), sem_assign(tape, s2, p2, asked)),
{
    lemma_binding_is_local(
        tape,
        s1,
        p1 + first_width(s1.code, p1),
        s2,
        p2 + first_width(s2.code, p2),
        asked,
    );
}

/// An outcome of a statement that succeeded stayed inside the buffer, and left
/// every declared body shorter than the buffer.
pub open spec fn within(scene: Scene, pos: int, r: Result<Executed, Fault>) -> bool {
    r matches Ok(x) ==> pos + x.consumed <= scene.code.len() && (Scene {
        values: x.values,
        functions: x.functions,
        ..scene
    }).fits()
}

/// A binding that succeeds ends inside the buffer.
pub proof fn lemma_binding_stays_inside(tape: Seq<Reply>, scene: Scene, pos: int, asked: nat)
    requires
        0 <= pos <= scene.code.len(),
        scene.fits(),
    ensures
        within(scene, pos, sem_binding(tape, scene, pos, asked)),
{
    let code = scene.code;
    lemma_run(code, pos, Class::Word);
    let length = run(code, pos, Class::Word);
    lemma_run(code, pos + length, Class::Space);
    let target = length + run(code, pos + length, Class::Space);
    if char_at(code, pos + target) == Some('=') {
        lemma_run(code, pos + target + 1, Class::Space);
        let start = target + 1 + run(code, pos + target + 1, Class::Space);
        lemma_expression_is_local(tape, scene, pos + start, scene, pos + start, asked);
    }
}

/// An assignment that succeeds ends inside the buffer.
pub proof fn lemma_assign_stays_inside(tape: Seq<Reply>, scene: Scene, pos: int, asked: nat)
    requires
        0 <= pos <= scene.code.len(),
        scene.fits(),
    ensures
        within(scene, pos, sem_assign(tape, scene, pos, asked)),
{
    let code = scene.code;
    lemma_run(code, pos, Class::Space);
    let lead = run(code, pos, Class::Space);
    lemma_run(code, pos + lead, Class::Word);
    let first = run(code, pos + lead, Class::Word);
    lemma_run(code, pos + lead + first, Class::Space);
    lemma_binding_stays_inside(tape, scene, pos + first_width(code, pos), asked);
    lemma_binding_stays_inside(tape, scene, pos + lead, asked);
}

/// A function declaration that succeeds ends inside the buffer, and its body
/// is shorter than the buffer.
pub proof fn lemma_function_stays_inside(scene: Scene, pos: int, asked: nat)
    requires
        0 <= pos <= scene.code.len(),
        scene.fits(),
    ensures
        within(scene, pos, sem_function(scene, pos, asked)),
{
    let code = scene.code;
    if let Ok(x) = sem_function(scene, pos, asked) {
        let head = name_offset(code, pos);
        let length = run(code, pos + head, Class::Word);
        let open = head + length + run(code, pos + head + length, Class::Space);
        let brace = open + 2 + run(code, pos + open + 2, Class::Space);
        lemma_run(code, pos + brace + 1, Class::Body);
        let after = Scene { values: x.values, functions: x.functions, ..scene };
        assert forall|name: Seq<char>| #[trigger]
            after.functions.dom().contains(name) implies after.functions[name].body.len()
            < after.code.len() by {
            if name != declared_name(code, pos) {
                assert(scene.functions.dom().contains(name));
            }
        }
    }
}

/// A statement that succeeds ends inside the buffer.
pub proof fn lemma_statement_stays_inside(tape: Seq<Reply>, scene: Scene, pos: int, asked: nat)
    requires
        0 <= pos <= scene.code.len(),
        scene.fits(),
    ensures
        within(scene, pos, sem_statement(tape, scene, pos, asked)),
{
    let code = scene.code;
    lemma_run(code, pos, Class::Space);
    let start = pos + run(code, pos, Class::Space);
    lemma_assign_stays_inside(tape, scene, start, asked);
    lemma_function_stays_inside(scene, start, asked);
    lemma_expression_is_local(tape, scene, start, scene, start, asked);
    if let Ok(x) = sem_construct(tape, scene, start, asked) {
        let end = start + x.consumed;
        let semicolon: nat = if char_at(code, end) == Some(';') {
            1
        } else {
            0
        };
        let newline: nat = if char_at(code, end + semicolon) == Some('\n') {
            1
        } else {
            0
        };
        lemma_run(code, end + semicolon + newline, Class::Space);
    }
}

/// A run of statements that succeeds ends exactly at the end of the buffer.
pub proof fn lemma_program_ends_at_the_end(tape: Seq<Reply>, scene: Scene, pos: int, asked: nat)
    requires
        0 <= pos <= scene.code.len(),
        scene.fits(),
    ensures
        within(scene, pos, sem_program(tape, scene, pos, asked)),
        sem_program(tape, scene, pos, asked) matches Ok(x) ==> pos + x.consumed
            == scene.code.len(),
    decreases left(scene.code, pos),
{
    if pos < scene.code.len() {
        lemma_statement_stays_inside(tape, scene, pos, asked);
        if let Ok(first) = sem_statement(tape, scene, pos, asked) {
            if first.consumed > 0 {
                lemma_program_ends_at_the_end(
                    tape,
                    Scene { values: first.values, functions: first.functions, ..scene },
                    pos + first.consumed,
                    first.asked,
                );
            }
        }
    }
}

} // verus!
