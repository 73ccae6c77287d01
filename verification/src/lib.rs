//! A tree-walking interpreter for the Lox scripting language.
//!
//! The pipeline has four stages: the scanner turns source text into tokens,
//! the parser turns tokens into statements, the resolver annotates every
//! variable reference with its lexical depth, and the interpreter evaluates
//! the statements. Every stage reports problems into an [`error_reporter::ErrorReporter`].
//!
//! The interpreter is a transition system: [`interpreter::Interpreter::step`]
//! performs one transition and names the work it needs from its host
//! (printing a line, reading the clock, arithmetic on doubles).

pub mod util;
pub mod text;
pub mod table;
pub mod token;
pub mod error_reporter;
pub mod scanner;
pub mod grammar;
pub mod parser;
pub mod expression;
pub mod statement;
pub mod value;
pub mod environment;
pub mod callable;
pub mod lox_class;
pub mod machine;
pub mod interpreter;
pub mod semantics;
pub mod evaluator;
pub mod transitions;
pub mod laws;
pub mod lox;
