//! The values a Lox program computes with.

use vstd::prelude::*;
use crate::mem::GcRef;

verus! {

/// The sign bit of a binary64 pattern.
pub const SIGN_BIT: u64 = 0x8000_0000_0000_0000;

/// The pattern of positive infinity: every pattern whose magnitude is
/// greater is a NaN.
pub const INFINITY_BITS: u64 = 0x7FF0_0000_0000_0000;

/// The pattern with the sign bit cleared.
pub open spec fn magnitude(bits: u64) -> int {
    if bits >= SIGN_BIT {
        bits - SIGN_BIT
    } else {
        bits as int
    }
}

/// Whether the pattern is a NaN.
pub open spec fn is_nan(bits: u64) -> bool {
    magnitude(bits) > INFINITY_BITS
}

/// Where a pattern that is no NaN stands in the order of the numbers: the two
/// zeros stand together at 0, negative numbers below, positive ones above.
pub open spec fn ordinal(bits: u64) -> int {
    if bits >= SIGN_BIT {
        -magnitude(bits)
    } else {
        magnitude(bits)
    }
}

/// Equality of two numbers: a NaN equals nothing, the two zeros are equal.
pub open spec fn number_equal(a: u64, b: u64) -> bool {
    !is_nan(a) && !is_nan(b) && ordinal(a) == ordinal(b)
}

/// The strict order of two numbers; a NaN is below and above nothing.
pub open spec fn number_less(a: u64, b: u64) -> bool {
    !is_nan(a) && !is_nan(b) && ordinal(a) < ordinal(b)
}

/// The pattern with its sign bit flipped.
pub open spec fn number_negated(bits: u64) -> u64 {
    if bits >= SIGN_BIT {
        (bits - SIGN_BIT) as u64
    } else {
        (bits + SIGN_BIT) as u64
    }
}

fn magnitude_of(bits: u64) -> (m: u64)
    ensures
        m == magnitude(bits),
{
    if bits >= SIGN_BIT {
        bits - SIGN_BIT
    } else {
        bits
    }
}

/// Whether `bits` is a NaN.
pub fn number_is_nan(bits: u64) -> (nan: bool)
    ensures
        nan == is_nan(bits),
{
    magnitude_of(bits) > INFINITY_BITS
}

/// Whether the numbers `a` and `b` are equal.
pub fn numbers_equal(a: u64, b: u64) -> (equal: bool)
    ensures
        equal == number_equal(a, b),
{
    if number_is_nan(a) || number_is_nan(b) {
        return false;
    }
    let ma = magnitude_of(a);
    let mb = magnitude_of(b);
    if ma == 0 && mb == 0 {
        return true;
    }
    a == b
}

/// Whether the number `a` is less than the number `b`.
pub fn numbers_less(a: u64, b: u64) -> (less: bool)
    ensures
        less == number_less(a, b),
{
    if number_is_nan(a) || number_is_nan(b) {
        return false;
    }
    let ma = magnitude_of(a);
    let mb = magnitude_of(b);
    let a_negative = a >= SIGN_BIT;
    let b_negative = b >= SIGN_BIT;
    if a_negative {
        if b_negative {
            mb < ma
        } else {
            ma > 0 || mb > 0
        }
    } else {
        if b_negative {
            false
        } else {
            ma < mb
        }
    }
}

/// The number `bits` with its sign changed.
pub fn negate_number(bits: u64) -> (negated: u64)
    ensures
        negated == number_negated(bits),
{
    if bits >= SIGN_BIT {
        bits - SIGN_BIT
    } else {
        bits + SIGN_BIT
    }
}

/// Which of the four variants a value is.
#[derive(Clone, Copy, Debug, PartialEq, Eq, Structural)]
pub enum ValueKind {
    Bool,
    Nil,
    Number,
    Obj,
}

/// A Lox value. A number is held as its binary64 pattern; an object is held
/// by reference, and two references are the same value when they name the
/// same object.
#[derive(Clone, Copy, Debug)]
pub enum Value {
    Bool(bool),
    Nil,
    Number(u64),
    Obj(GcRef),
}

/// Lox's `==`: values of different kinds differ; numbers compare as numbers;
/// objects compare by identity.
pub open spec fn values_equal(a: Value, b: Value) -> bool {
    match (a, b) {
        (Value::Bool(x), Value::Bool(y)) => x == y,
        (Value::Nil, Value::Nil) => true,
        (Value::Number(x), Value::Number(y)) => number_equal(x, y),
        (Value::Obj(x), Value::Obj(y)) => x == y,
        _ => false,
    }
}

impl Value {
    pub open spec fn kind_spec(self) -> ValueKind {
        match self {
            Value::Bool(_) => ValueKind::Bool,
            Value::Nil => ValueKind::Nil,
            Value::Number(_) => ValueKind::Number,
            Value::Obj(_) => ValueKind::Obj,
        }
    }

    /// Nil and `false` are falsey, every other value is truthy.
    pub open spec fn falsey(self) -> bool {
        self == Value::Nil || self == Value::Bool(false)
    }

    pub fn kind(&self) -> (kind: ValueKind)
        ensures
            kind == self.kind_spec(),
    {
        match self {
            Value::Bool(_) => ValueKind::Bool,
            Value::Nil => ValueKind::Nil,
            Value::Number(_) => ValueKind::Number,
            Value::Obj(_) => ValueKind::Obj,
        }
    }

    pub fn as_bool(&self) -> (b: Option<bool>)
        ensures
            b == (match *self {
                Value::Bool(x) => Some(x),
                _ => None,
            }),
    {
        match self {
            Value::Bool(x) => Some(*x),
            _ => None,
        }
    }

    pub fn as_number(&self) -> (bits: Option<u64>)
        ensures
            bits == (match *self {
                Value::Number(x) => Some(x),
                _ => None,
            }),
    {
        match self {
            Value::Number(x) => Some(*x),
            _ => None,
        }
    }

    pub fn as_obj(&self) -> (obj: Option<GcRef>)
        ensures
            obj == (match *self {
                Value::Obj(x) => Some(x),
                _ => None,
            }),
    {
        match self {
            Value::Obj(x) => Some(*x),
            _ => None,
        }
    }

    pub fn is_bool(&self) -> (b: bool)
        ensures
            b == (self.kind_spec() == ValueKind::Bool),
    {
        match self {
            Value::Bool(_) => true,
            _ => false,
        }
    }

    pub fn is_falsey(&self) -> (b: bool)
        ensures
            b == self.falsey(),
    {
        match self {
            Value::Nil => true,
            Value::Bool(x) => !*x,
            _ => false,
        }
    }

    pub fn is_nil(&self) -> (b: bool)
        ensures
            b == (self.kind_spec() == ValueKind::Nil),
    {
        match self {
            Value::Nil => true,
            _ => false,
        }
    }

    pub fn is_number(&self) -> (b: bool)
        ensures
            b == (self.kind_spec() == ValueKind::Number),
    {
        match self {
            Value::Number(_) => true,
            _ => false,
        }
    }

    pub fn is_obj(&self) -> (b: bool)
        ensures
            b == (self.kind_spec() == ValueKind::Obj),
    {
        match self {
            Value::Obj(_) => true,
            _ => false,
        }
    }
}

impl PartialEq for Value {
    fn eq(&self, other: &Self) -> (equal: bool) {
        match (self, other) {
            (Value::Bool(x), Value::Bool(y)) => *x == *y,
            (Value::Nil, Value::Nil) => true,
            (Value::Number(x), Value::Number(y)) => numbers_equal(*x, *y),
            (Value::Obj(x), Value::Obj(y)) => x.index == y.index,
            _ => false,
        }
    }
}

impl vstd::std_specs::cmp::PartialEqSpecImpl for Value {
    open spec fn obeys_eq_spec() -> bool {
        true
    }

    open spec fn eq_spec(&self, other: &Self) -> bool {
        values_equal(*self, *other)
    }
}

/// Equal numbers are ordered neither way, and the order is strict.
pub proof fn lemma_number_order(a: u64, b: u64)
    ensures
        number_equal(a, b) ==> !number_less(a, b) && !number_less(b, a),
        number_less(a, b) ==> !number_less(b, a),
        !is_nan(a) && !is_nan(b) ==> number_equal(a, b) || number_less(a, b) || number_less(b, a),
        number_negated(number_negated(a)) == a,
        is_nan(a) ==> !number_equal(a, a),
{
}

} // verus!
