//! What can be called: the native clock, functions, and classes.

use std::rc::Rc;
use vstd::prelude::*;
use crate::lox_class::LoxClass;
use crate::statement::Statement;
use crate::text::share;
use crate::token::Token;

verus! {

/// The native function `clock`: no parameter; the time since the Unix epoch
/// in seconds.
#[derive(Debug)]
pub struct NativeClock {}

impl NativeClock {
    /// The clock.
    pub fn new() -> (clock: NativeClock)
        ensures
            clock == (NativeClock {  }),
    {
        NativeClock {  }
    }

    /// The number of arguments that the clock takes: none.
    pub fn arity(&self) -> (arity: usize)
        ensures
            arity == 0,
    {
        0
    }
}

/// A function of the language: its declaration, the scope in which it was
/// declared, and whether it is the initializer of a class.
pub struct LoxCallable {
    pub name: Token,
    pub params: Rc<Vec<Token>>,
    pub body: Rc<Vec<Rc<Statement>>>,
    pub closure: usize,
    pub is_initializer: bool,
}

impl LoxCallable {
    /// A function from the parts of its declaration and its closure.
    pub fn new(
        name: Token,
        params: Rc<Vec<Token>>,
        body: Rc<Vec<Rc<Statement>>>,
        closure: usize,
        is_initializer: bool,
    ) -> (function: LoxCallable)
        ensures
            function == (LoxCallable { name, params, body, closure, is_initializer }),
    {
        LoxCallable { name, params, body, closure, is_initializer }
    }

    /// The number of arguments that the function takes.
    pub fn arity(&self) -> (arity: usize)
        ensures
            arity == self.params@.len(),
    {
        self.params.len()
    }

    /// The same function with another closure.
    pub fn rebound(&self, closure: usize) -> (function: LoxCallable)
        ensures
            function == (LoxCallable { closure, ..*self }),
    {
        LoxCallable {
            name: self.name.duplicate(),
            params: share(&self.params),
            body: share(&self.body),
            closure,
            is_initializer: self.is_initializer,
        }
    }
}

/// An object that can be called.
pub enum Callable {
    Native(NativeClock),
    Function(LoxCallable),
    Class(Rc<LoxClass>),
}

/// The number of arguments that a callable takes: none for the clock, the
/// number of its parameters for a function, and for a class the number of
/// parameters of its `init` method, or none where it has no such method.
pub open spec fn arity_of(callable: Callable) -> nat {
    match callable {
        Callable::Native(_) => 0,
        Callable::Function(f) => f.params@.len(),
        Callable::Class(c) => crate::lox_class::class_arity(*c),
    }
}

impl Callable {
    /// The number of arguments that this callable takes.
    pub fn arity(&self) -> (arity: usize)
        ensures
            arity == arity_of(*self),
    {
        match self {
            Callable::Native(clock) => clock.arity(),
            Callable::Function(f) => f.arity(),
            Callable::Class(c) => c.arity(),
        }
    }
}

} // verus!
