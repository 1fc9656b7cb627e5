//! Runtime values and the operations on them that need no arithmetic.
//!
//! A number is held as the 64 bits of its IEEE 754 double-precision form.
//! Comparing two numbers, negating one and testing one for zero are defined
//! here on those bits. Arithmetic and the reading of a literal's digits are
//! the host's: the evaluator asks for them.

use vstd::prelude::*;
use crate::ast_nodes::BinaryOp;

verus! {

/// A runtime value.
#[derive(Clone, Debug, PartialEq)]
pub enum Value {
    Null,
    Bool(bool),
    /// The bits of a double-precision number.
    Number(u64),
    Str(String),
    /// Reserved for functions, which the language does not have yet: no
    /// expression evaluates to it.
    Function,
}

/// The mathematical value of a `Value`.
pub enum ValueView {
    Null,
    Bool(bool),
    Number(u64),
    Str(Seq<char>),
    Function,
}

impl View for Value {
    type V = ValueView;

    open spec fn view(&self) -> ValueView {
        match self {
            Value::Null => ValueView::Null,
            Value::Bool(b) => ValueView::Bool(*b),
            Value::Number(bits) => ValueView::Number(*bits),
            Value::Str(text) => ValueView::Str(text@),
            Value::Function => ValueView::Function,
        }
    }
}

/// The sign bit of a number.
pub const SIGN: u64 = 0x8000_0000_0000_0000;

/// The bits of positive infinity: every magnitude above it is no number.
pub const INFINITY: u64 = 0x7ff0_0000_0000_0000;

/// The bits without the sign.
pub open spec fn magnitude(bits: u64) -> int {
    if bits >= SIGN {
        bits - SIGN
    } else {
        bits as int
    }
}

/// The bits stand for no number (NaN).
pub open spec fn is_nan(bits: u64) -> bool {
    magnitude(bits) > INFINITY
}

/// The bits stand for zero, positive or negative.
pub open spec fn is_zero(bits: u64) -> bool {
    magnitude(bits) == 0
}

/// An integer that orders the numbers as their values do: the magnitude,
/// negative where the sign bit is set. Both zeros get 0.
pub open spec fn order_key(bits: u64) -> int {
    if bits >= SIGN {
        -magnitude(bits)
    } else {
        magnitude(bits)
    }
}

/// Two numbers are equal unless one of them is no number: so are the two zeros.
pub open spec fn number_equal(a: u64, b: u64) -> bool {
    !is_nan(a) && !is_nan(b) && order_key(a) == order_key(b)
}

/// The first number is less than the second; never where one is no number.
pub open spec fn number_less(a: u64, b: u64) -> bool {
    !is_nan(a) && !is_nan(b) && order_key(a) < order_key(b)
}

/// The number with its sign changed.
pub open spec fn negated(bits: u64) -> u64 {
    if bits >= SIGN {
        (bits - SIGN) as u64
    } else {
        (bits + SIGN) as u64
    }
}

/// Truthiness: `Null`, `false` and the number zero are falsy, every other
/// value is truthy.
pub open spec fn truthy(value: ValueView) -> bool {
    match value {
        ValueView::Null => false,
        ValueView::Bool(b) => b,
        ValueView::Number(bits) => !is_zero(bits),
        ValueView::Str(_) => true,
        ValueView::Function => true,
    }
}

/// Structural equality: values of different kinds are unequal.
pub open spec fn values_equal(a: ValueView, b: ValueView) -> bool {
    match (a, b) {
        (ValueView::Null, ValueView::Null) => true,
        (ValueView::Bool(x), ValueView::Bool(y)) => x == y,
        (ValueView::Number(x), ValueView::Number(y)) => number_equal(x, y),
        (ValueView::Str(x), ValueView::Str(y)) => x == y,
        (ValueView::Function, ValueView::Function) => true,
        _ => false,
    }
}

/// The operators whose result only arithmetic can give: `+ - * / %`.
pub open spec fn is_arithmetic(op: BinaryOp) -> bool {
    op is Add || op is Subtract || op is Multiply || op is Divide || op is Modulo
}

/// The operators that order two numbers: `> >= < <=`.
pub open spec fn is_relation(op: BinaryOp) -> bool {
    op is Greater || op is GreaterEqual || op is Lesser || op is LesserEqual
}

/// What a relational operator says of two numbers.
pub open spec fn relation(op: BinaryOp, a: u64, b: u64) -> bool {
    match op {
        BinaryOp::Greater => number_less(b, a),
        BinaryOp::GreaterEqual => number_less(b, a) || number_equal(a, b),
        BinaryOp::Lesser => number_less(a, b),
        _ => number_less(a, b) || number_equal(a, b),
    }
}

fn key_of(bits: u64) -> (key: i128)
    ensures
        key == order_key(bits),
{
    if bits >= SIGN {
        -((bits - SIGN) as i128)
    } else {
        bits as i128
    }
}

fn nan(bits: u64) -> (r: bool)
    ensures
        r == is_nan(bits),
{
    let magnitude = if bits >= SIGN { bits - SIGN } else { bits };
    magnitude > INFINITY
}

/// Whether the number is zero.
pub fn zero(bits: u64) -> (r: bool)
    ensures
        r == is_zero(bits),
{
    bits == 0 || bits == SIGN
}

/// Whether two numbers are equal.
pub fn equal_numbers(a: u64, b: u64) -> (r: bool)
    ensures
        r == number_equal(a, b),
{
    !nan(a) && !nan(b) && key_of(a) == key_of(b)
}

/// Whether the first number is less than the second.
pub fn less(a: u64, b: u64) -> (r: bool)
    ensures
        r == number_less(a, b),
{
    !nan(a) && !nan(b) && key_of(a) < key_of(b)
}

/// Changes the sign of a number.
pub fn negate(bits: u64) -> (r: u64)
    ensures
        r == negated(bits),
{
    if bits >= SIGN {
        bits - SIGN
    } else {
        bits + SIGN
    }
}

/// Applies a relational operator to two numbers.
pub fn relate(op: BinaryOp, a: u64, b: u64) -> (r: bool)
    requires
        is_relation(op),
    ensures
        r == relation(op, a, b),
{
    match op {
        BinaryOp::Greater => less(b, a),
        BinaryOp::GreaterEqual => less(b, a) || equal_numbers(a, b),
        BinaryOp::Lesser => less(a, b),
        _ => less(a, b) || equal_numbers(a, b),
    }
}

impl Value {
    /// A copy of the value.
    pub fn copy(&self) -> (value: Value)
        ensures
            value@ == self@,
    {
        match self {
            Value::Null => Value::Null,
            Value::Bool(b) => Value::Bool(*b),
            Value::Number(bits) => Value::Number(*bits),
            Value::Str(text) => Value::Str(text.clone()),
            Value::Function => Value::Function,
        }
    }

    /// Whether the value counts as true.
    pub fn is_truthy(&self) -> (r: bool)
        ensures
            r == truthy(self@),
    {
        match self {
            Value::Null => false,
            Value::Bool(b) => *b,
            Value::Number(bits) => !zero(*bits),
            Value::Str(_) => true,
            Value::Function => true,
        }
    }

    /// Structural equality with another value. It never fails: values of
    /// different kinds are unequal.
    pub fn equals(&self, other: &Value) -> (r: bool)
        ensures
            r == values_equal(self@, other@),
    {
        match (self, other) {
            (Value::Null, Value::Null) => true,
            (Value::Bool(x), Value::Bool(y)) => *x == *y,
            (Value::Number(x), Value::Number(y)) => equal_numbers(*x, *y),
            (Value::Str(x), Value::Str(y)) => *x == *y,
            (Value::Function, Value::Function) => true,
            _ => false,
        }
    }
}

/// The kind of a value, as equality tells kinds apart.
pub open spec fn kind_index(value: ValueView) -> int {
    match value {
        ValueView::Null => 0,
        ValueView::Bool(_) => 1,
        ValueView::Number(_) => 2,
        ValueView::Str(_) => 3,
        ValueView::Function => 4,
    }
}

/// Equality is defined for every two values: values of different kinds are
/// unequal, and equality is symmetric.
pub proof fn lemma_equality_across_kinds(a: ValueView, b: ValueView)
    ensures
        kind_index(a) != kind_index(b) ==> !values_equal(a, b),
        values_equal(a, b) == values_equal(b, a),
{
}

/// The order of the numbers: nothing is less than itself, the order is
/// transitive, and of two numbers one is less, or they are equal, or one of
/// them is no number.
pub proof fn lemma_number_order(a: u64, b: u64, c: u64)
    ensures
        !number_less(a, a),
        number_less(a, b) && number_less(b, c) ==> number_less(a, c),
        number_less(a, b) || number_less(b, a) || number_equal(a, b) || is_nan(a) || is_nan(b),
        !(number_less(a, b) && number_equal(a, b)),
        negated(negated(a)) == a,
        !is_nan(a) ==> order_key(negated(a)) == -order_key(a),
{
}

} // verus!
