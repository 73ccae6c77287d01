//! Classes and their instances.

use std::rc::Rc;
use vstd::prelude::*;
use vstd::string::StringExecFns;
use crate::callable::LoxCallable;
use crate::table::Table;
use crate::token::Token;
use crate::value::Value;

verus! {

/// A class: its name and its methods by name. A method is kept as it was
/// declared, with the scope of the class declaration as its closure; it is
/// bound to an instance when it is read from one.
pub struct LoxClass {
    pub name: String,
    pub methods: Table<LoxCallable>,
}

/// The number of arguments that a class takes when it is called.
pub open spec fn class_arity(class: LoxClass) -> nat {
    if class.methods.map().dom().contains("init"@) {
        class.methods.map()["init"@].params@.len()
    } else {
        0
    }
}

impl LoxClass {
    /// A class with a name and methods.
    pub fn new(name: String, methods: Table<LoxCallable>) -> (class: LoxClass)
        ensures
            class.name == name,
            class.methods == methods,
    {
        LoxClass { name, methods }
    }

    /// The method of a given name, if the class has one.
    pub fn find_method(&self, name: &String) -> (method: Option<&LoxCallable>)
        ensures
            match method {
                Some(m) => self.methods.map().dom().contains(name@) && *m
                    == self.methods.map()[name@],
                None => !self.methods.map().dom().contains(name@),
            },
    {
        self.methods.get(name)
    }

    /// The number of arguments that the class takes when it is called.
    pub fn arity(&self) -> (arity: usize)
        ensures
            arity == class_arity(*self),
    {
        let init = String::from_str("init");
        match self.find_method(&init) {
            Some(method) => method.arity(),
            None => 0,
        }
    }

    /// What stands for the class when it is printed: its name.
    pub fn to_string(&self) -> (text: String)
        ensures
            text@ == self.name@,
    {
        self.name.clone()
    }
}

/// An instance of a class: its class, and its fields by name.
pub struct LoxInstance {
    pub class: Rc<LoxClass>,
    pub fields: Table<Value>,
}

/// What stands for an instance of a class when it is printed.
pub open spec fn instance_text(class: LoxClass) -> Seq<char> {
    class.name@ + " instance"@
}

impl LoxInstance {
    /// An instance with no field.
    pub fn new(class: Rc<LoxClass>) -> (instance: LoxInstance)
        ensures
            instance.class == class,
            instance.fields.map() == Map::<Seq<char>, Value>::empty(),
    {
        LoxInstance { class, fields: Table::new() }
    }

    /// Gives a field a value, whether or not the instance had the field.
    pub fn set(&mut self, name: &Token, value: Value)
        ensures
            final(self).class == old(self).class,
            final(self).fields.map() == old(self).fields.map().insert(name@.lexeme, value),
    {
        self.fields.insert(name.name().clone(), value);
    }

    /// What stands for the instance when it is printed: the name of its
    /// class and ` instance`.
    pub fn to_string(&self) -> (text: String)
        ensures
            text@ == instance_text(*self.class),
    {
        let name = self.class.name.clone();
        name.concat(" instance")
    }
}

} // verus!
