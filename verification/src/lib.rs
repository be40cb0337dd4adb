//! A single-pass interpreter for a tiny dynamically typed scripting language:
//! numbers, strings, arithmetic, variable bindings, and the declaration and
//! call of functions without arguments.
//!
//! The interpreter walks the characters of a program straight into values: no
//! list of tokens and no syntax tree stand in between. Numbers are binary64
//! values held as their bit patterns; the arithmetic on them is the host's,
//! and the interpreter asks for it through [`arithmetic`].
//!
//! - [`text`], [`keywords`], [`operators`]: characters, reserved words and
//!   operator signs.
//! - [`scan`]: what a buffer holds from a position on.
//! - [`cursor`]: the buffer with its committed and its lookahead position.
//! - [`arithmetic`], [`stop`]: the exchange with the host, and the ways in
//!   which an evaluation ends without a value.
//! - [`types`]: runtime values and the coercion rules of the operators.
//! - [`table`]: the tables of a scope.
//! - [`semantics`]: the meaning of expressions, statements and programs.
//! - [`interpreter`]: the scopes and the evaluator, which computes what
//!   [`semantics`] says.
//! - [`laws`], [`locality`]: what holds of every program.
pub mod text;
pub mod operators;
pub mod keywords;
pub mod arithmetic;
pub mod stop;
pub mod types;
pub mod table;
pub mod scan;
pub mod cursor;
pub mod semantics;
pub mod interpreter;
pub mod laws;
pub mod locality;
