//! The interpreter: a stack of scopes, of which the topmost is scanned
//! statement by statement, straight from characters to values.
use vstd::prelude::*;
use crate::arithmetic::{Answer, Arithmetic, Reply};
use crate::cursor::Cursor;
use crate::keywords::{function_keyword, is_declaration_keyword, is_undefined_keyword, kw_function};
use crate::operators::{Operator, OP_ADD, OP_DIV, OP_EQ, OP_MUL, OP_SUB};
use crate::scan::{char_at, contains_word, lemma_run, line_end, occurs, run, span, Class};
use crate::semantics::{
    after, later, left, lemma_after_after, lemma_later_later, lemma_matched_split, sem_assign,
    sem_atom, sem_construct, sem_expression, sem_expression_rest, sem_factor, sem_factor_rest,
    sem_function, sem_identifier, sem_number, sem_operation, sem_program, sem_statement,
    sem_string, tail, Evaluated, Executed, Scene,
};
use crate::stop::{Fault, Halt, Stop, Stopped};
use crate::table::Table;
use crate::text::{alphabetic, alphanumeric, copy_text, digit, is_alpha, is_digit};
use crate::types::{Function, Num, Type, Value};

verus! {

/// One frame of evaluation: a buffer under its cursor, and the values and
/// functions bound while it is scanned.
pub struct Scope {
    cursor: Cursor,
    value_table: Table<Type>,
    function_table: Table<Function>,
}

impl Scope {
    /// The buffer and the two tables, as the semantics sees them.
    pub closed spec fn scene(&self) -> Scene {
        Scene {
            code: self.cursor.code(),
            values: self.value_table@.map_values(|t: Type| t@),
            functions: self.function_table@.map_values(|f: Function| f@),
        }
    }

    /// The committed position of the cursor.
    pub closed spec fn position(&self) -> int {
        self.cursor.committed()
    }

    /// The cursor is inside its buffer with no scan under way, no table holds
    /// a name twice, and every declared body is shorter than the buffer.
    pub closed spec fn wf(&self) -> bool {
        &&& self.cursor.wf()
        &&& self.cursor.settled()
        &&& self.value_table.wf()
        &&& self.function_table.wf()
        &&& self.scene().fits()
    }

    /// A scope that starts to scan `source`, with nothing bound.
    pub fn new(source: Vec<char>) -> (scope: Scope)
        ensures
            scope.wf(),
            scope.scene() == Scene::fresh(source@),
            scope.position() == 0,
    {
        let scope = Scope {
            cursor: Cursor::new(source),
            value_table: Table::new(),
            function_table: Table::new(),
        };
        assert(scope.scene().values =~= Map::empty());
        assert(scope.scene().functions =~= Map::empty());
        scope
    }

    /// The value bound to `name`, if there is one.
    pub fn value(&self, name: &Vec<char>) -> (r: Option<&Type>)
        requires
            self.wf(),
        ensures
            match r {
                Some(v) => self.scene().values.dom().contains(name@) && v@
                    == self.scene().values[name@],
                None => !self.scene().values.dom().contains(name@),
            },
    {
        self.value_table.get(name)
    }

    /// The function declared under `name`, if there is one.
    pub fn function(&self, name: &Vec<char>) -> (r: Option<&Function>)
        requires
            self.wf(),
        ensures
            match r {
                Some(f) => self.scene().functions.dom().contains(name@) && f@
                    == self.scene().functions[name@],
                None => !self.scene().functions.dom().contains(name@),
            },
    {
        self.function_table.get(name)
    }

    /// The committed position of the cursor.
    pub fn offset(&self) -> (p: usize)
        ensures
            p == self.position(),
    {
        self.cursor.position()
    }

    /// Binds `value` to `name`, in place of what was bound to it before.
    pub fn bind(&mut self, name: Vec<char>, value: Type)
        requires
            old(self).wf(),
        ensures
            final(self).wf(),
            final(self).position() == old(self).position(),
            final(self).scene() == (Scene {
                values: old(self).scene().values.insert(name@, value@),
                ..old(self).scene()
            }),
    {
        self.value_table.insert(name, value);
        assert(self.scene().values =~= old(self).scene().values.insert(name@, value@));
    }

    /// Declares `function` under `name` and binds a reference to it.
    fn declare(&mut self, name: Vec<char>, function: Function)
        requires
            old(self).wf(),
            function@.body.len() < old(self).scene().code.len(),
        ensures
            final(self).wf(),
            final(self).position() == old(self).position(),
            final(self).scene() == (Scene {
                values: old(self).scene().values.insert(name@, Value::FunctionRef(name@)),
                functions: old(self).scene().functions.insert(name@, function@),
                ..old(self).scene()
            }),
    {
        let reference = Type::Function(copy_text(&name));
        self.value_table.insert(copy_text(&name), reference);
        self.function_table.insert(name, function);
        assert(self.scene().values =~= old(self).scene().values.insert(
            name@,
            Value::FunctionRef(name@),
        ));
        assert(self.scene().functions =~= old(self).scene().functions.insert(name@, function@));
    }
}

/// The interpreter: the scopes of the calls under way, the innermost last, and
/// the host's arithmetic unit.
pub struct Interpreter {
    scope_stack: Vec<Scope>,
    unit: Arithmetic,
}

/// What an evaluating function owes: where the semantics gives an outcome,
/// that value, with the cursor moved by the characters consumed, the answers
/// used, and nothing else changed; where it gives a fault, that fault.
pub open spec fn evaluated(
    pre: Interpreter,
    post: Interpreter,
    r: Result<Type, Stopped>,
    sem: Result<Evaluated, Fault>,
) -> bool {
    match sem {
        Ok(e) => {
            &&& r matches Ok(v) && v@ == e.value
            &&& post.position() == pre.position() + e.consumed
            &&& post.asked() == e.asked
            &&& post.scene() == pre.scene()
            &&& post.suspended() == pre.suspended()
        },
        Err(f) => r matches Err(s) && s@ == f,
    }
}

/// What an executing function owes: where the semantics gives an outcome, the
/// two tables of the current scope as it says, with the cursor moved by the
/// characters consumed, the answers used, and nothing else changed; where it
/// gives a fault, that fault.
pub open spec fn executed(
    pre: Interpreter,
    post: Interpreter,
    r: Result<(), Stopped>,
    sem: Result<Executed, Fault>,
) -> bool {
    match sem {
        Ok(x) => {
            &&& r is Ok
            &&& post.position() == pre.position() + x.consumed
            &&& post.asked() == x.asked
            &&& post.scene() == (Scene {
                code: pre.scene().code,
                values: x.values,
                functions: x.functions,
            })
            &&& post.suspended() == pre.suspended()
        },
        Err(f) => r matches Err(s) && s@ == f,
    }
}

/// A number as the value that it evaluates to.
pub open spec fn numbered(r: Result<u64, Stopped>) -> Result<Type, Stopped> {
    match r {
        Ok(bits) => Ok(Type::Number(Num::Finite(bits))),
        Err(s) => Err(s),
    }
}

/// A text as the value that it evaluates to.
pub open spec fn texted(r: Result<Vec<char>, Stopped>) -> Result<Type, Stopped> {
    match r {
        Ok(text) => Ok(Type::TextString(text)),
        Err(s) => Err(s),
    }
}

impl Interpreter {
    /// There is a current scope, and every scope is well formed.
    pub closed spec fn wf(&self) -> bool {
        &&& self.scope_stack.len() > 0
        &&& forall|i: int| 0 <= i < self.scope_stack.len() ==> (#[trigger] self.scope_stack[i]).wf()
        &&& self.unit.wf()
    }

    /// The current scope: the topmost of the stack.
    pub closed spec fn top(&self) -> Scope {
        self.scope_stack@.last()
    }

    /// The scopes of the callers, which wait for the current one to end.
    pub closed spec fn suspended(&self) -> Seq<Scope> {
        self.scope_stack@.drop_last()
    }

    /// The buffer and the tables of the current scope.
    pub open spec fn scene(&self) -> Scene {
        self.top().scene()
    }

    /// The committed position in the buffer of the current scope.
    pub open spec fn position(&self) -> int {
        self.top().position()
    }

    /// The answers of the arithmetic unit.
    pub closed spec fn tape(&self) -> Seq<Reply> {
        self.unit.tape()
    }

    /// How many answers have been used.
    pub closed spec fn asked(&self) -> nat {
        self.unit.asked()
    }

    /// The current scope moved from `pre` to `self` inside its buffer, and
    /// nothing else changed.
    pub open spec fn moved(&self, pre: Interpreter, by: nat) -> bool {
        &&& self.position() == pre.position() + by
        &&& self.scene() == pre.scene()
        &&& self.suspended() == pre.suspended()
        &&& self.asked() == pre.asked()
        &&& self.tape() == pre.tape()
    }

    /// An interpreter over `source` whose arithmetic unit has answered nothing.
    pub fn new(source: Vec<char>) -> (interpreter: Interpreter)
        ensures
            interpreter.wf(),
            interpreter.scene() == Scene::fresh(source@),
            interpreter.position() == 0,
            interpreter.suspended() == Seq::<Scope>::empty(),
            interpreter.tape() == Seq::<Reply>::empty(),
            interpreter.asked() == 0,
    {
        Interpreter::with_answers(source, Vec::new())
    }

    /// An interpreter over `source` whose arithmetic unit holds `answers`.
    pub fn with_answers(source: Vec<char>, answers: Vec<Answer>) -> (interpreter: Interpreter)
        ensures
            interpreter.wf(),
            interpreter.scene() == Scene::fresh(source@),
            interpreter.position() == 0,
            interpreter.suspended() == Seq::<Scope>::empty(),
            interpreter.tape() == answers@.map_values(|a: Answer| a@),
            interpreter.asked() == 0,
    {
        let global_scope = Scope::new(source);
        let mut scope_stack: Vec<Scope> = Vec::new();
        scope_stack.push(global_scope);
        let interpreter = Interpreter { scope_stack, unit: Arithmetic::new(answers) };
        assert(interpreter.suspended() =~= Seq::<Scope>::empty());
        interpreter
    }

    /// The current scope.
    pub fn scope(&self) -> (scope: &Scope)
        requires
            self.wf(),
        ensures
            *scope == self.top(),
            scope.wf(),
    {
        &self.scope_stack[self.scope_stack.len() - 1]
    }

    /// How many scopes are on the stack.
    pub fn depth(&self) -> (n: usize)
        requires
            self.wf(),
        ensures
            n == self.suspended().len() + 1,
    {
        self.scope_stack.len()
    }

    /// The committed position in the buffer of the current scope.
    pub fn offset(&self) -> (p: usize)
        requires
            self.wf(),
        ensures
            p == self.position(),
    {
        self.scope().offset()
    }

    /// Binds `value` to `name` in the current scope.
    pub fn define(&mut self, name: Vec<char>, value: Type)
        requires
            old(self).wf(),
        ensures
            final(self).wf(),
            final(self).scene() == (Scene {
                values: old(self).scene().values.insert(name@, value@),
                ..old(self).scene()
            }),
            final(self).position() == old(self).position(),
            final(self).suspended() == old(self).suspended(),
            final(self).asked() == old(self).asked(),
            final(self).tape() == old(self).tape(),
    {
        let n = self.scope_stack.len();
        self.scope_stack[n - 1].bind(name, value);
        assert(self.suspended() =~= old(self).suspended());
    }

    /// A stop at the current position.
    fn stopped(&self, reason: Stop) -> (s: Stopped)
        requires
            self.wf(),
        ensures
            s@ == (Fault { reason: reason@, position: self.position() as nat }),
    {
        Stopped { reason, position: self.offset() }
    }

    /// Consumes the current character and returns it.
    pub fn current(&mut self) -> (r: Option<char>)
        requires
            old(self).wf(),
        ensures
            final(self).wf(),
            r == char_at(old(self).scene().code, old(self).position()),
            final(self).moved(*old(self), if r is Some { 1 } else { 0 }),
    {
        let n = self.scope_stack.len();
        let r = self.scope_stack[n - 1].cursor.advance();
        assert(self.suspended() =~= old(self).suspended());
        r
    }

    /// The next character, which is not consumed.
    pub fn lookahead(&self) -> (r: Option<char>)
        requires
            self.wf(),
        ensures
            r == char_at(self.scene().code, self.position()),
    {
        self.scope().cursor.peek()
    }

    /// Whether `c` occurs between the cursor and the end of its line.
    pub fn char_present_in_line(&mut self, c: char) -> (r: bool)
        requires
            old(self).wf(),
        ensures
            final(self).wf(),
            final(self).moved(*old(self), 0),
            r == occurs(
                old(self).scene().code,
                old(self).position(),
                line_end(old(self).scene().code, old(self).position()),
                c,
            ),
    {
        let n = self.scope_stack.len();
        let r = self.scope_stack[n - 1].cursor.found_in_line(c);
        assert(self.suspended() =~= old(self).suspended());
        r
    }

    /// Consumes one character and fails unless it is `char_to_match`.
    pub fn match_char(&mut self, char_to_match: char) -> (r: Result<(), Stopped>)
        requires
            old(self).wf(),
        ensures
            final(self).wf(),
            final(self).tape() == old(self).tape(),
            char_at(old(self).scene().code, old(self).position()) == Some(char_to_match) ==> r is Ok
                && final(self).moved(*old(self), 1),
            char_at(old(self).scene().code, old(self).position()) != Some(char_to_match) ==> (
            r matches Err(s) && s@ == (Fault {
                reason: Halt::SyntaxError {
                    expected: char_to_match,
                    found: char_at(old(self).scene().code, old(self).position()),
                },
                position: old(self).position() as nat,
            })),
    {
        let position = self.offset();
        let n = self.scope_stack.len();
        let r = self.scope_stack[n - 1].cursor.expect(char_to_match);
        assert(self.suspended() =~= old(self).suspended());
        match r {
            Ok(()) => Ok(()),
            Err(reason) => Err(Stopped { reason, position }),
        }
    }

    /// Whether the next character is `char_to_match`.
    pub fn matches_char(&self, char_to_match: char) -> (r: bool)
        requires
            self.wf(),
        ensures
            r == (char_at(self.scene().code, self.position()) == Some(char_to_match)),
    {
        self.scope().cursor.check_ahead(char_to_match)
    }

    /// Whether `word_to_match` occurs between the cursor and the end of its
    /// line.
    pub fn matches_word(&mut self, word_to_match: &Vec<char>) -> (r: bool)
        requires
            old(self).wf(),
        ensures
            final(self).wf(),
            final(self).moved(*old(self), 0),
            r == contains_word(
                span(
                    old(self).scene().code,
                    old(self).position(),
                    line_end(old(self).scene().code, old(self).position()),
                ),
                word_to_match@,
            ),
    {
        let n = self.scope_stack.len();
        let r = self.scope_stack[n - 1].cursor.line_contains(word_to_match);
        assert(self.suspended() =~= old(self).suspended());
        r
    }

    /// Whether the next character is one of `chars_to_match`.
    pub fn matches_any(&self, chars_to_match: &[char]) -> (r: bool)
        requires
            self.wf(),
        ensures
            r == (match char_at(self.scene().code, self.position()) {
                Some(l) => chars_to_match@.contains(l),
                None => false,
            }),
    {
        self.scope().cursor.check_any_ahead(chars_to_match)
    }

    /// Whether the next character is a decimal digit.
    pub fn is_digit(&self) -> (r: bool)
        requires
            self.wf(),
        ensures
            r == (match char_at(self.scene().code, self.position()) {
                Some(l) => digit(l),
                None => false,
            }),
    {
        match self.lookahead() {
            Some(l) => is_digit(l),
            None => false,
        }
    }

    /// Whether the next character is alphabetic.
    pub fn is_alpha(&self) -> (r: bool)
        requires
            self.wf(),
        ensures
            r == (match char_at(self.scene().code, self.position()) {
                Some(l) => alphabetic(l),
                None => false,
            }),
    {
        match self.lookahead() {
            Some(l) => is_alpha(l),
            None => false,
        }
    }

    /// Whether the next character may occur in an identifier.
    pub fn is_alphanum(&self) -> (r: bool)
        requires
            self.wf(),
        ensures
            r == (match char_at(self.scene().code, self.position()) {
                Some(l) => alphanumeric(l),
                None => false,
            }),
    {
        self.is_alpha() || self.is_digit()
    }

    /// Consumes the spaces at the cursor.
    pub fn whitespace(&mut self)
        requires
            old(self).wf(),
        ensures
            final(self).wf(),
            final(self).moved(
                *old(self),
                run(old(self).scene().code, old(self).position(), Class::Space),
            ),
    {
        let n = self.scope_stack.len();
        proof {
            lemma_run(self.scene().code, self.position(), Class::Space);
        }
        self.scope_stack[n - 1].cursor.skip_spaces();
        assert(self.suspended() =~= old(self).suspended());
    }

    /// Consumes the longest run of characters of `class` and returns its text.
    fn take(&mut self, class: Class) -> (text: Vec<char>)
        requires
            old(self).wf(),
        ensures
            final(self).wf(),
            final(self).moved(*old(self), run(old(self).scene().code, old(self).position(), class)),
            text@ == span(
                old(self).scene().code,
                old(self).position(),
                old(self).position() + run(old(self).scene().code, old(self).position(), class),
            ),
    {
        let n = self.scope_stack.len();
        proof {
            lemma_run(self.scene().code, self.position(), class);
        }
        let text = self.scope_stack[n - 1].cursor.take(class);
        assert(self.suspended() =~= old(self).suspended());
        text
    }

    /// Whether the next character is `*` or `/`.
    fn at_multiplicative(&self) -> (r: bool)
        requires
            self.wf(),
        ensures
            r == (char_at(self.scene().code, self.position()) == Some('*') || char_at(
                self.scene().code,
                self.position(),
            ) == Some('/')),
    {
        self.matches_char(OP_MUL) || self.matches_char(OP_DIV)
    }

    /// Whether the next character is `+` or `-`.
    fn at_additive(&self) -> (r: bool)
        requires
            self.wf(),
        ensures
            r == (char_at(self.scene().code, self.position()) == Some('+') || char_at(
                self.scene().code,
                self.position(),
            ) == Some('-')),
    {
        self.matches_char(OP_ADD) || self.matches_char(OP_SUB)
    }

    /// Whether the current scope has been scanned to its end.
    pub fn finished(&self) -> (r: bool)
        requires
            self.wf(),
        ensures
            r == !(0 <= self.position() < self.scene().code.len()),
    {
        self.scope().cursor.at_end()
    }

    /// A string literal: the text between two double quotes.
    pub fn string(&mut self) -> (r: Result<Vec<char>, Stopped>)
        requires
            old(self).wf(),
        ensures
            final(self).wf(),
            final(self).tape() == old(self).tape(),
            evaluated(
                *old(self),
                *final(self),
                texted(r),
                sem_string(old(self).scene().code, old(self).position(), old(self).asked()),
            ),
    {
        self.match_char('"')?;
        let string = self.take(Class::Quoted);
        self.match_char('"')?;
        Ok(string)
    }

    /// A number literal: the bits that the arithmetic unit gives for a run of
    /// digits.
    pub fn number(&mut self) -> (r: Result<u64, Stopped>)
        requires
            old(self).wf(),
        ensures
            final(self).wf(),
            final(self).tape() == old(self).tape(),
            evaluated(
                *old(self),
                *final(self),
                numbered(r),
                sem_number(
                    old(self).tape(),
                    old(self).scene().code,
                    old(self).position(),
                    old(self).asked(),
                ),
            ),
    {
        if !self.is_digit() {
            let found = self.lookahead();
            return Err(self.stopped(Stop::SyntaxError { expected: '0', found }));
        }
        let number = self.take(Class::Digit);
        match self.unit.parse(&number) {
            Ok(bits) => Ok(bits),
            Err(request) => Err(self.stopped(Stop::Pending(request))),
        }
    }

    /// An identifier and the spaces after it: the text of the identifier.
    pub fn ident(&mut self) -> (ident: Vec<char>)
        requires
            old(self).wf(),
        ensures
            final(self).wf(),
            ident@ == span(
                old(self).scene().code,
                old(self).position(),
                old(self).position() + run(
                    old(self).scene().code,
                    old(self).position(),
                    Class::Word,
                ),
            ),
            final(self).moved(
                *old(self),
                run(old(self).scene().code, old(self).position(), Class::Word) + run(
                    old(self).scene().code,
                    old(self).position() + run(
                        old(self).scene().code,
                        old(self).position(),
                        Class::Word,
                    ),
                    Class::Space,
                ),
            ),
    {
        let ident = self.take(Class::Word);
        self.whitespace();
        ident
    }

    /// Runs the body of the function `callee` in a scope of its own, and drops
    /// that scope when the body has been scanned to its end.
    fn call(&mut self, callee: &Vec<char>) -> (r: Result<(), Stopped>)
        requires
            old(self).wf(),
        ensures
            final(self).wf(),
            final(self).tape() == old(self).tape(),
            !old(self).scene().callable(callee@) ==> (r matches Err(s) && s@ == (Fault {
                reason: Halt::UndefinedVariableError { name: callee@ },
                position: old(self).position() as nat,
            })),
            old(self).scene().callable(callee@) ==> (match sem_program(
                old(self).tape(),
                Scene::fresh(old(self).scene().functions[callee@].body),
                0,
                old(self).asked(),
            ) {
                Ok(x) => {
                    &&& r is Ok
                    &&& final(self).position() == old(self).position()
                    &&& final(self).asked() == x.asked
                    &&& final(self).scene() == old(self).scene()
                    &&& final(self).suspended() == old(self).suspended()
                },
                Err(f) => r matches Err(s) && s@ == f,
            }),
        decreases
            old(self).scene().code.len(),
            left(old(self).scene().code, old(self).position()),
            0nat,
    {
        let body = match self.scope().function(callee) {
            Some(function) => copy_text(&function.body),
            None => {
                return Err(self.stopped(Stop::UndefinedVariableError { name: copy_text(callee) }));
            },
        };
        assert(old(self).scene().callable(callee@));
        self.scope_stack.push(Scope::new(body));
        assert(self.suspended() =~= old(self).scope_stack@);
        let r = self.program();
        match r {
            Ok(()) => {
                self.scope_stack.pop();
                assert(self.scope_stack@ =~= old(self).scope_stack@);
                Ok(())
            },
            Err(s) => Err(s),
        }
    }

    /// An identifier: `undefined`, the value bound to the name, or the call of
    /// the function that it refers to.
    fn identifier(&mut self) -> (r: Result<Type, Stopped>)
        requires
            old(self).wf(),
        ensures
            final(self).wf(),
            final(self).tape() == old(self).tape(),
            evaluated(
                *old(self),
                *final(self),
                r,
                sem_identifier(
                    old(self).tape(),
                    old(self).scene(),
                    old(self).position(),
                    old(self).asked(),
                ),
            ),
        decreases
            old(self).scene().code.len(),
            left(old(self).scene().code, old(self).position()),
            1nat,
    {
        proof {
            lemma_run(self.scene().code, self.position(), Class::Word);
        }
        let ident = self.take(Class::Word);
        if is_undefined_keyword(&ident) {
            return Ok(Type::Undefined);
        }
        let value = match self.scope().value(&ident) {
            Some(value) => value.clone(),
            None => {
                return Err(self.stopped(Stop::UndefinedVariableError { name: ident }));
            },
        };
        match value {
            Type::Function(name) => {
                if self.matches_char('(') {
                    self.match_char('(')?;
                    self.match_char(')')?;
                    self.call(&name)?;
                    Ok(Type::Undefined)
                } else {
                    Ok(Type::Function(name))
                }
            },
            other => Ok(other),
        }
    }

    /// An atom: a parenthesised expression, a number, a string or an
    /// identifier, and the spaces after it.
    pub fn term(&mut self) -> (r: Result<Type, Stopped>)
        requires
            old(self).wf(),
        ensures
            final(self).wf(),
            final(self).tape() == old(self).tape(),
            evaluated(
                *old(self),
                *final(self),
                r,
                sem_atom(
                    old(self).tape(),
                    old(self).scene(),
                    old(self).position(),
                    old(self).asked(),
                ),
            ),
        decreases
            old(self).scene().code.len(),
            left(old(self).scene().code, old(self).position()),
            2nat,
    {
        let ret = match self.lookahead() {
            Some(c) => {
                if c == '(' {
                    self.match_char('(')?;
                    let value = self.expression()?;
                    self.match_char(')')?;
                    value
                } else if is_digit(c) {
                    Type::Number(Num::Finite(self.number()?))
                } else if c == '"' || c == '\'' {
                    Type::TextString(self.string()?)
                } else if is_alpha(c) {
                    self.identifier()?
                } else {
                    Type::Undefined
                }
            },
            None => Type::Undefined,
        };
        self.whitespace();
        Ok(ret)
    }

    /// An operator and its right operand, applied to `prev`.
    pub fn operation(&mut self, operator: Operator, prev: Type) -> (r: Result<Type, Stopped>)
        requires
            old(self).wf(),
        ensures
            final(self).wf(),
            final(self).tape() == old(self).tape(),
            evaluated(
                *old(self),
                *final(self),
                r,
                sem_operation(
                    old(self).tape(),
                    old(self).scene(),
                    old(self).position(),
                    old(self).asked(),
                    operator,
                    prev@,
                ),
            ),
        decreases
            old(self).scene().code.len(),
            left(old(self).scene().code, old(self).position()),
            0nat,
    {
        self.match_char(operator.to_char())?;
        self.whitespace();
        let this = match operator {
            Operator::Add => self.factor()?,
            Operator::Sub => self.factor()?,
            Operator::Mul => self.term()?,
            Operator::Div => self.term()?,
        };
        match prev.apply(operator, this, &mut self.unit) {
            Ok(value) => Ok(value),
            Err(reason) => Err(self.stopped(reason)),
        }
    }

    /// `+` and a factor, added to `prev`.
    pub fn add(&mut self, prev: Type) -> (r: Result<Type, Stopped>)
        requires
            old(self).wf(),
        ensures
            final(self).wf(),
            final(self).tape() == old(self).tape(),
            evaluated(
                *old(self),
                *final(self),
                r,
                sem_operation(
                    old(self).tape(),
                    old(self).scene(),
                    old(self).position(),
                    old(self).asked(),
                    Operator::Add,
                    prev@,
                ),
            ),
        decreases
            old(self).scene().code.len(),
            left(old(self).scene().code, old(self).position()),
            1nat,
    {
        self.operation(Operator::Add, prev)
    }

    /// `-` and a factor, subtracted from `prev`.
    pub fn sub(&mut self, prev: Type) -> (r: Result<Type, Stopped>)
        requires
            old(self).wf(),
        ensures
            final(self).wf(),
            final(self).tape() == old(self).tape(),
            evaluated(
                *old(self),
                *final(self),
                r,
                sem_operation(
                    old(self).tape(),
                    old(self).scene(),
                    old(self).position(),
                    old(self).asked(),
                    Operator::Sub,
                    prev@,
                ),
            ),
        decreases
            old(self).scene().code.len(),
            left(old(self).scene().code, old(self).position()),
            1nat,
    {
        self.operation(Operator::Sub, prev)
    }

    /// `*` and an atom, by which `prev` is multiplied.
    pub fn mul(&mut self, prev: Type) -> (r: Result<Type, Stopped>)
        requires
            old(self).wf(),
        ensures
            final(self).wf(),
            final(self).tape() == old(self).tape(),
            evaluated(
                *old(self),
                *final(self),
                r,
                sem_operation(
                    old(self).tape(),
                    old(self).scene(),
                    old(self).position(),
                    old(self).asked(),
                    Operator::Mul,
                    prev@,
                ),
            ),
        decreases
            old(self).scene().code.len(),
            left(old(self).scene().code, old(self).position()),
            1nat,
    {
        self.operation(Operator::Mul, prev)
    }

    /// `/` and an atom, by which `prev` is divided.
    pub fn div(&mut self, prev: Type) -> (r: Result<Type, Stopped>)
        requires
            old(self).wf(),
        ensures
            final(self).wf(),
            final(self).tape() == old(self).tape(),
            evaluated(
                *old(self),
                *final(self),
                r,
                sem_operation(
                    old(self).tape(),
                    old(self).scene(),
                    old(self).position(),
                    old(self).asked(),
                    Operator::Div,
                    prev@,
                ),
            ),
        decreases
            old(self).scene().code.len(),
            left(old(self).scene().code, old(self).position()),
            1nat,
    {
        self.operation(Operator::Div, prev)
    }

    /// A factor: atoms joined by `*` and `/`, from left to right.
    pub fn factor(&mut self) -> (r: Result<Type, Stopped>)
        requires
            old(self).wf(),
        ensures
            final(self).wf(),
            final(self).tape() == old(self).tape(),
            evaluated(
                *old(self),
                *final(self),
                r,
                sem_factor(
                    old(self).tape(),
                    old(self).scene(),
                    old(self).position(),
                    old(self).asked(),
                ),
            ),
        decreases
            old(self).scene().code.len(),
            left(old(self).scene().code, old(self).position()),
            4nat,
    {
        let mut prev = self.term()?;
        while self.at_multiplicative()
            invariant
                self.wf(),
                self.tape() == old(self).tape(),
                self.scene() == old(self).scene(),
                self.suspended() == old(self).suspended(),
                self.position() >= old(self).position(),
                sem_factor(
                    old(self).tape(),
                    old(self).scene(),
                    old(self).position(),
                    old(self).asked(),
                ) == after(
                    (self.position() - old(self).position()) as nat,
                    sem_factor_rest(
                        self.tape(),
                        self.scene(),
                        self.position(),
                        self.asked(),
                        prev@,
                    ),
                ),
            decreases left(self.scene().code, self.position()),
        {
            let operator = if self.matches_char(OP_MUL) {
                Operator::Mul
            } else {
                Operator::Div
            };
            let ghost before = *self;
            let ghost rest = sem_factor_rest(
                self.tape(),
                self.scene(),
                self.position(),
                self.asked(),
                prev@,
            );
            let ghost step = sem_operation(
                self.tape(),
                self.scene(),
                self.position(),
                self.asked(),
                operator,
                prev@,
            );
            prev = self.operation(operator, prev)?;
            proof {
                let e = step->Ok_0;
                assert(rest == after(
                    e.consumed,
                    sem_factor_rest(
                        self.tape(),
                        self.scene(),
                        before.position() + e.consumed,
                        e.asked,
                        e.value,
                    ),
                ));
                lemma_after_after(
                    (before.position() - old(self).position()) as nat,
                    e.consumed,
                    sem_factor_rest(
                        self.tape(),
                        self.scene(),
                        self.position(),
                        self.asked(),
                        prev@,
                    ),
                );
            }
        }
        self.whitespace();
        Ok(prev)
    }

    /// An expression: factors joined by `+` and `-`, from left to right.
    pub fn expression(&mut self) -> (r: Result<Type, Stopped>)
        requires
            old(self).wf(),
        ensures
            final(self).wf(),
            final(self).tape() == old(self).tape(),
            evaluated(
                *old(self),
                *final(self),
                r,
                sem_expression(
                    old(self).tape(),
                    old(self).scene(),
                    old(self).position(),
                    old(self).asked(),
                ),
            ),
        decreases
            old(self).scene().code.len(),
            left(old(self).scene().code, old(self).position()),
            6nat,
    {
        let mut prev = self.factor()?;
        while self.at_additive()
            invariant
                self.wf(),
                self.tape() == old(self).tape(),
                self.scene() == old(self).scene(),
                self.suspended() == old(self).suspended(),
                self.position() >= old(self).position(),
                sem_expression(
                    old(self).tape(),
                    old(self).scene(),
                    old(self).position(),
                    old(self).asked(),
                ) == after(
                    (self.position() - old(self).position()) as nat,
                    sem_expression_rest(
                        self.tape(),
                        self.scene(),
                        self.position(),
                        self.asked(),
                        prev@,
                    ),
                ),
            decreases left(self.scene().code, self.position()),
        {
            let operator = if self.matches_char(OP_ADD) {
                Operator::Add
            } else {
                Operator::Sub
            };
            let ghost before = *self;
            let ghost rest = sem_expression_rest(
                self.tape(),
                self.scene(),
                self.position(),
                self.asked(),
                prev@,
            );
            let ghost step = sem_operation(
                self.tape(),
                self.scene(),
                self.position(),
                self.asked(),
                operator,
                prev@,
            );
            prev = self.operation(operator, prev)?;
            proof {
                let e = step->Ok_0;
                assert(rest == after(
                    e.consumed,
                    sem_expression_rest(
                        self.tape(),
                        self.scene(),
                        before.position() + e.consumed,
                        e.asked,
                        e.value,
                    ),
                ));
                lemma_after_after(
                    (before.position() - old(self).position()) as nat,
                    e.consumed,
                    sem_expression_rest(
                        self.tape(),
                        self.scene(),
                        self.position(),
                        self.asked(),
                        prev@,
                    ),
                );
            }
        }
        Ok(prev)
    }

    /// An assignment: an optional declaration keyword, a name, `=` and an
    /// expression, whose value is bound to the name in the current scope.
    pub fn assign(&mut self) -> (r: Result<(), Stopped>)
        requires
            old(self).wf(),
        ensures
            final(self).wf(),
            final(self).tape() == old(self).tape(),
            executed(
                *old(self),
                *final(self),
                r,
                sem_assign(
                    old(self).tape(),
                    old(self).scene(),
                    old(self).position(),
                    old(self).asked(),
                ),
            ),
        decreases
            old(self).scene().code.len(),
            left(old(self).scene().code, old(self).position()),
            7nat,
    {
        self.whitespace();
        let keyword = self.ident();
        let id = if is_declaration_keyword(&keyword) {
            self.ident()
        } else {
            keyword
        };
        self.match_char(OP_EQ)?;
        self.whitespace();
        let value = self.expression()?;
        self.define(id, value);
        Ok(())
    }

    /// A function declaration: the keyword, a name, `()`, and a body between
    /// `{` and the first `}`, which is kept as text under the name.
    pub fn function(&mut self) -> (r: Result<(), Stopped>)
        requires
            old(self).wf(),
        ensures
            final(self).wf(),
            final(self).tape() == old(self).tape(),
            executed(
                *old(self),
                *final(self),
                r,
                sem_function(old(self).scene(), old(self).position(), old(self).asked()),
            ),
    {
        let keyword = function_keyword();
        let mut i: usize = 0;
        while i < keyword.len()
            invariant
                self.wf(),
                i <= keyword.len(),
                keyword@ == kw_function(),
                self.moved(*old(self), i as nat),
                forall|j: int|
                    0 <= j < i ==> char_at(self.scene().code, old(self).position() + j) == Some(
                        #[trigger] keyword@[j],
                    ),
            decreases keyword.len() - i,
        {
            proof {
                lemma_matched_split(
                    self.scene().code,
                    old(self).position(),
                    kw_function(),
                    i as nat,
                );
                assert(kw_function().subrange(i as int, kw_function().len() as int)[0]
                    == kw_function()[i as int]);
            }
            self.match_char(keyword[i])?;
            i += 1;
        }
        proof {
            lemma_matched_split(
                self.scene().code,
                old(self).position(),
                kw_function(),
                kw_function().len(),
            );
        }
        self.whitespace();
        let name = self.ident();
        self.match_char('(')?;
        self.match_char(')')?;
        self.whitespace();
        self.match_char('{')?;
        proof {
            lemma_run(self.scene().code, self.position(), Class::Body);
        }
        let code_block = self.take(Class::Body);
        self.match_char('}')?;
        let function = Function { arguments: Vec::new(), body: code_block };
        assert(function@.arguments =~= Seq::empty());
        let n = self.scope_stack.len();
        self.scope_stack[n - 1].declare(name, function);
        assert(self.suspended() =~= old(self).suspended());
        Ok(())
    }

    /// The construct at the cursor: an assignment where `=` occurs on the line,
    /// else a function declaration where its keyword does, else an expression
    /// whose value is dropped.
    fn construct(&mut self) -> (r: Result<(), Stopped>)
        requires
            old(self).wf(),
        ensures
            final(self).wf(),
            final(self).tape() == old(self).tape(),
            executed(
                *old(self),
                *final(self),
                r,
                sem_construct(
                    old(self).tape(),
                    old(self).scene(),
                    old(self).position(),
                    old(self).asked(),
                ),
            ),
        decreases
            old(self).scene().code.len(),
            left(old(self).scene().code, old(self).position()),
            8nat,
    {
        if self.char_present_in_line(OP_EQ) {
            self.assign()
        } else if self.matches_word(&function_keyword()) {
            self.function()
        } else {
            match self.expression() {
                Ok(_) => Ok(()),
                Err(s) => Err(s),
            }
        }
    }

    /// What ends a statement: an optional semicolon, an optional newline, and
    /// the spaces after them.
    fn finish(&mut self)
        requires
            old(self).wf(),
        ensures
            final(self).wf(),
            final(self).moved(*old(self), tail(old(self).scene().code, old(self).position())),
    {
        if self.matches_char(';') {
            let _ = self.current();
        }
        if self.matches_char('\n') {
            let _ = self.current();
        }
        self.whitespace();
    }

    /// One statement: the spaces before it, the construct that its line calls
    /// for, and what ends it.
    pub fn statement(&mut self) -> (r: Result<(), Stopped>)
        requires
            old(self).wf(),
        ensures
            final(self).wf(),
            final(self).tape() == old(self).tape(),
            executed(
                *old(self),
                *final(self),
                r,
                sem_statement(
                    old(self).tape(),
                    old(self).scene(),
                    old(self).position(),
                    old(self).asked(),
                ),
            ),
        decreases
            old(self).scene().code.len(),
            left(old(self).scene().code, old(self).position()),
            9nat,
    {
        self.whitespace();
        self.construct()?;
        self.finish();
        Ok(())
    }

    /// The statements of the current scope, from the cursor to the end of the
    /// buffer.
    pub fn program(&mut self) -> (r: Result<(), Stopped>)
        requires
            old(self).wf(),
        ensures
            final(self).wf(),
            final(self).tape() == old(self).tape(),
            executed(
                *old(self),
                *final(self),
                r,
                sem_program(
                    old(self).tape(),
                    old(self).scene(),
                    old(self).position(),
                    old(self).asked(),
                ),
            ),
            r is Ok ==> final(self).position() == final(self).scene().code.len(),
        decreases
            old(self).scene().code.len(),
            left(old(self).scene().code, old(self).position()),
            10nat,
    {
        while !self.finished()
            invariant
                self.wf(),
                self.tape() == old(self).tape(),
                self.scene().code == old(self).scene().code,
                self.suspended() == old(self).suspended(),
                self.position() >= old(self).position(),
                sem_program(
                    old(self).tape(),
                    old(self).scene(),
                    old(self).position(),
                    old(self).asked(),
                ) == later(
                    (self.position() - old(self).position()) as nat,
                    sem_program(self.tape(), self.scene(), self.position(), self.asked()),
                ),
            decreases left(self.scene().code, self.position()),
        {
            let before = self.offset();
            let found = self.lookahead();
            let ghost entry = *self;
            self.statement()?;
            if self.offset() == before {
                return Err(
                    Stopped { reason: Stop::SyntaxError { expected: ';', found }, position: before },
                );
            }
            proof {
                lemma_later_later(
                    (entry.position() - old(self).position()) as nat,
                    (self.position() - entry.position()) as nat,
                    sem_program(self.tape(), self.scene(), self.position(), self.asked()),
                );
            }
        }
        Ok(())
    }
}

} // verus!
