//! Runtime values, and the comparisons of numbers on their bit patterns.

use vstd::prelude::*;
use crate::error_reporter::{runtime_report, ErrorReporter};
use crate::token::Token;

verus! {

/// A runtime value. A number is held as the bit pattern of an IEEE-754
/// double; a callable and an instance are handles into the interpreter's
/// heap, and two of them are the same object when the handles are equal.
#[derive(Debug)]
pub enum Value {
    String(String),
    Number(u64),
    True,
    False,
    Nil,
    Callable(usize),
    Instance(usize),
}

/// How evaluation leaves its normal course: a runtime error, or a `return`
/// on its way to the call that it ends.
#[derive(Debug)]
pub enum UnwindType {
    Error,
    Return(Value),
}

/// Two to the power 63: the weight of the sign bit.
pub const SIGN_BIT: u64 = 0x8000_0000_0000_0000;

/// The bit pattern of positive infinity: every larger magnitude is a NaN.
pub const INFINITY_BITS: u64 = 0x7FF0_0000_0000_0000;

/// The magnitude of a double: its bits without the sign.
pub open spec fn magnitude(bits: u64) -> int {
    if bits >= SIGN_BIT {
        bits - SIGN_BIT
    } else {
        bits as int
    }
}

/// Whether the bits are those of a NaN.
pub open spec fn is_nan(bits: u64) -> bool {
    magnitude(bits) > INFINITY_BITS
}

/// The place of a double that is no NaN in the order of the doubles: the
/// magnitude, negated for a negative number. The two zeros share a place.
pub open spec fn ordinal(bits: u64) -> int {
    if bits >= SIGN_BIT {
        -magnitude(bits)
    } else {
        magnitude(bits)
    }
}

/// IEEE-754 equality of two doubles, on their bits: a NaN equals nothing.
pub open spec fn numbers_equal(left: u64, right: u64) -> bool {
    !is_nan(left) && !is_nan(right) && ordinal(left) == ordinal(right)
}

/// IEEE-754 `<` of two doubles, on their bits: false where either is a NaN.
pub open spec fn number_less(left: u64, right: u64) -> bool {
    !is_nan(left) && !is_nan(right) && ordinal(left) < ordinal(right)
}

/// Whether two values are equal: strings by their text, numbers as doubles,
/// `true`, `false` and `nil` by their kind, callables and instances by
/// identity. Values of different kinds are never equal.
pub open spec fn values_equal(left: Value, right: Value) -> bool {
    match (left, right) {
        (Value::String(l), Value::String(r)) => l@ == r@,
        (Value::Number(l), Value::Number(r)) => numbers_equal(l, r),
        (Value::True, Value::True) => true,
        (Value::False, Value::False) => true,
        (Value::Nil, Value::Nil) => true,
        (Value::Callable(l), Value::Callable(r)) => l == r,
        (Value::Instance(l), Value::Instance(r)) => l == r,
        _ => false,
    }
}

/// Whether a value counts as true: all but `nil` and `false` do.
pub open spec fn truthy(value: Value) -> bool {
    !(value is Nil || value is False)
}

/// The value that stands for a boolean.
pub open spec fn boolean(b: bool) -> Value {
    if b {
        Value::True
    } else {
        Value::False
    }
}

fn magnitude_of(bits: u64) -> (m: u64)
    ensures
        m == magnitude(bits),
{
    if bits >= SIGN_BIT {
        bits - SIGN_BIT
    } else {
        bits
    }
}

/// Whether the bits are those of a NaN.
pub fn number_is_nan(bits: u64) -> (nan: bool)
    ensures
        nan == is_nan(bits),
{
    magnitude_of(bits) > INFINITY_BITS
}

/// IEEE-754 equality of two doubles given by their bits.
pub fn number_eq(left: u64, right: u64) -> (equal: bool)
    ensures
        equal == numbers_equal(left, right),
{
    if number_is_nan(left) || number_is_nan(right) {
        false
    } else {
        let l = magnitude_of(left);
        let r = magnitude_of(right);
        if l == 0 && r == 0 {
            true
        } else {
            left == right
        }
    }
}

/// IEEE-754 `<` of two doubles given by their bits.
pub fn number_lt(left: u64, right: u64) -> (less: bool)
    ensures
        less == number_less(left, right),
{
    if number_is_nan(left) || number_is_nan(right) {
        false
    } else {
        let l = magnitude_of(left);
        let r = magnitude_of(right);
        let left_negative = left >= SIGN_BIT;
        let right_negative = right >= SIGN_BIT;
        if left_negative {
            if right_negative {
                r < l
            } else {
                l > 0 || r > 0
            }
        } else {
            if right_negative {
                false
            } else {
                l < r
            }
        }
    }
}

/// What `as_number` gives for a value: the bits of a number, else an error.
pub open spec fn number_of(value: Value) -> Option<u64> {
    match value {
        Value::Number(n) => Some(n),
        _ => None,
    }
}

impl Value {
    /// The value that stands for a boolean.
    pub fn from_bool(value: bool) -> (result: Value)
        ensures
            result == boolean(value),
    {
        if value {
            Value::True
        } else {
            Value::False
        }
    }

    /// Whether this value counts as true.
    pub fn is_truthy(&self) -> (result: bool)
        ensures
            result == truthy(*self),
    {
        match self {
            Value::Nil => false,
            Value::False => false,
            _ => true,
        }
    }

    /// The negation of this value's truth.
    pub fn not(&self) -> (result: Value)
        ensures
            result == boolean(!truthy(*self)),
    {
        if self.is_truthy() {
            Value::False
        } else {
            Value::True
        }
    }

    /// The bits of this value if it is a number. Otherwise an error, which
    /// is reported at the operator when one is given.
    pub fn as_number(&self, operator: Option<&Token>, reporter: &mut ErrorReporter) -> (result:
        Result<u64, UnwindType>)
        ensures
            match number_of(*self) {
                Some(n) => result == Ok::<u64, UnwindType>(n) && final(reporter)@ == old(reporter)@,
                None => result == Err::<u64, UnwindType>(UnwindType::Error) && final(reporter)@
                    == (match operator {
                    Some(token) => old(reporter)@.with(
                        runtime_report(token@, "Operand must be a number."@),
                    ),
                    None => old(reporter)@,
                }),
            },
    {
        match self {
            Value::Number(n) => Ok(*n),
            _ => {
                match operator {
                    Some(token) => {
                        reporter.runtime_error_on_token(token, "Operand must be a number.");
                    },
                    None => {},
                }
                Err(UnwindType::Error)
            },
        }
    }

    /// Whether this value equals another.
    pub fn equals(&self, other: &Value) -> (equal: bool)
        ensures
            equal == values_equal(*self, *other),
    {
        match self {
            Value::String(l) => match other {
                Value::String(r) => *l == *r,
                _ => false,
            },
            Value::Number(l) => match other {
                Value::Number(r) => number_eq(*l, *r),
                _ => false,
            },
            Value::True => match other {
                Value::True => true,
                _ => false,
            },
            Value::False => match other {
                Value::False => true,
                _ => false,
            },
            Value::Nil => match other {
                Value::Nil => true,
                _ => false,
            },
            Value::Callable(l) => match other {
                Value::Callable(r) => *l == *r,
                _ => false,
            },
            Value::Instance(l) => match other {
                Value::Instance(r) => *l == *r,
                _ => false,
            },
        }
    }

    /// A copy of this value: the same text, number or handle.
    pub fn duplicate(&self) -> (copy: Value)
        ensures
            copy == *self,
    {
        match self {
            Value::String(s) => Value::String(s.clone()),
            Value::Number(n) => Value::Number(*n),
            Value::True => Value::True,
            Value::False => Value::False,
            Value::Nil => Value::Nil,
            Value::Callable(c) => Value::Callable(*c),
            Value::Instance(i) => Value::Instance(*i),
        }
    }
}

impl PartialEq for Value {
    fn eq(&self, other: &Value) -> (equal: bool) {
        self.equals(other)
    }
}

impl vstd::std_specs::cmp::PartialEqSpecImpl for Value {
    open spec fn obeys_eq_spec() -> bool {
        true
    }

    open spec fn eq_spec(&self, other: &Value) -> bool {
        values_equal(*self, *other)
    }
}

/// A value equals itself, unless it is a NaN.
pub proof fn lemma_equal_to_itself(value: Value)
    ensures
        values_equal(value, value) == !(value matches Value::Number(n) && is_nan(n)),
{
}

/// Equality of values does not depend on the order of the two sides.
pub proof fn lemma_equality_symmetric(left: Value, right: Value)
    ensures
        values_equal(left, right) == values_equal(right, left),
{
}

/// Negating a value twice gives a value with the truth of the first.
pub proof fn lemma_double_negation(value: Value)
    ensures
        truthy(boolean(!truthy(boolean(!truthy(value))))) == truthy(value),
{
}

/// No double is less than itself, and of two doubles that are no NaN and not
/// equal, exactly one is less than the other.
pub proof fn lemma_number_order(left: u64, right: u64)
    ensures
        !number_less(left, left),
        !is_nan(left) && !is_nan(right) ==> (numbers_equal(left, right) || number_less(left, right)
            || number_less(right, left)),
        !(number_less(left, right) && number_less(right, left)),
        !(number_less(left, right) && numbers_equal(left, right)),
{
}

} // verus!
