//! Helpers on text: characters to strings, and numbers to decimal digits.

use std::rc::Rc;
use vstd::prelude::*;
use vstd::string::StringExecFns;

verus! {

/// Collects characters into a `String`.
///
/// Wraps `Iterator::collect` on the characters of a vector: the string holds
/// exactly those characters, in order.
#[verifier::external_body]
pub(crate) fn string_of_chars(chars: &Vec<char>) -> (text: String)
    ensures
        text@ == chars@,
{
    chars.iter().collect()
}

/// Another handle on a shared value.
///
/// Wraps `Rc::clone`: the new handle points at the same value.
#[verifier::external_body]
pub(crate) fn share<T>(shared: &Rc<T>) -> (handle: Rc<T>)
    ensures
        handle == *shared,
{
    shared.clone()
}

/// The characters of a string, as a vector.
pub fn chars_of(text: &str) -> (chars: Vec<char>)
    ensures
        chars@ == text@,
{
    let mut chars: Vec<char> = Vec::new();
    for c in it: text.chars()
        invariant
            chars@ == it.seq().take(it.index() as int),
    {
        chars.push(c);
    }
    chars
}

/// The text between two positions of a character vector.
pub fn slice_text(chars: &Vec<char>, from: usize, to: usize) -> (text: String)
    requires
        from <= to <= chars@.len(),
    ensures
        text@ == chars@.subrange(from as int, to as int),
{
    let mut piece: Vec<char> = Vec::new();
    let mut i: usize = from;
    while i < to
        invariant
            from <= i <= to <= chars@.len(),
            piece@ == chars@.subrange(from as int, i as int),
        decreases to - i,
    {
        piece.push(chars[i]);
        proof {
            assert(chars@.subrange(from as int, i as int).push(chars@[i as int])
                =~= chars@.subrange(from as int, i + 1));
        }
        i += 1;
    }
    string_of_chars(&piece)
}

/// The decimal digit for a value below ten.
pub open spec fn digit_char(d: nat) -> char {
    if d == 0 {
        '0'
    } else if d == 1 {
        '1'
    } else if d == 2 {
        '2'
    } else if d == 3 {
        '3'
    } else if d == 4 {
        '4'
    } else if d == 5 {
        '5'
    } else if d == 6 {
        '6'
    } else if d == 7 {
        '7'
    } else if d == 8 {
        '8'
    } else {
        '9'
    }
}

/// The decimal digits of a natural number, most significant first, without
/// leading zeros; zero is the single digit `0`.
pub open spec fn decimal_digits(n: nat) -> Seq<char>
    decreases n,
{
    if n < 10 {
        seq![digit_char(n)]
    } else {
        decimal_digits(n / 10).push(digit_char(n % 10))
    }
}

fn digit(d: usize) -> (c: char)
    requires
        d < 10,
    ensures
        c == digit_char(d as nat),
{
    if d == 0 {
        '0'
    } else if d == 1 {
        '1'
    } else if d == 2 {
        '2'
    } else if d == 3 {
        '3'
    } else if d == 4 {
        '4'
    } else if d == 5 {
        '5'
    } else if d == 6 {
        '6'
    } else if d == 7 {
        '7'
    } else if d == 8 {
        '8'
    } else {
        '9'
    }
}

fn push_decimal(n: usize, digits: &mut Vec<char>)
    ensures
        final(digits)@ == old(digits)@ + decimal_digits(n as nat),
    decreases n,
{
    if n < 10 {
        digits.push(digit(n));
        proof {
            assert(digits@ =~= old(digits)@ + decimal_digits(n as nat));
        }
    } else {
        push_decimal(n / 10, digits);
        digits.push(digit(n % 10));
        proof {
            assert(digits@ =~= old(digits)@ + decimal_digits(n as nat));
        }
    }
}

/// Renders a number in decimal.
pub fn decimal(n: usize) -> (text: String)
    ensures
        text@ == decimal_digits(n as nat),
{
    let mut digits: Vec<char> = Vec::new();
    push_decimal(n, &mut digits);
    proof {
        assert(digits@ =~= decimal_digits(n as nat));
    }
    string_of_chars(&digits)
}

/// Joins two pieces of text.
pub fn join(left: &str, right: &str) -> (text: String)
    ensures
        text@ == left@ + right@,
{
    let start = String::from_str(left);
    start.concat(right)
}

/// Joins three pieces of text.
pub fn join3(left: &str, middle: &str, right: &str) -> (text: String)
    ensures
        text@ == left@ + middle@ + right@,
{
    let start = String::from_str(left);
    start.concat(middle).concat(right)
}

} // verus!

verus! {

/// Whether a string holds exactly the given text.
pub fn same_text(left: &String, right: &str) -> (same: bool)
    ensures
        same == (left@ == right@),
{
    let other = String::from_str(right);
    *left == other
}

} // verus!
