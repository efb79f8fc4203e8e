use vstd::prelude::*;
use std::rc::Rc;
use crate::objects::StringObject;

verus! {

/// The sign bit of an IEEE-754 binary64 bit pattern.
pub const SIGN_BIT: u64 = 0x8000_0000_0000_0000;

/// The exponent bits of an IEEE-754 binary64 bit pattern.
pub const EXPONENT_BITS: u64 = 0x7ff0_0000_0000_0000;

/// The fraction bits of an IEEE-754 binary64 bit pattern.
pub const FRACTION_BITS: u64 = 0x000f_ffff_ffff_ffff;

/// Whether the binary64 bit pattern `b` is a NaN.
pub open spec fn is_nan_bits(b: u64) -> bool {
    (b & EXPONENT_BITS) == EXPONENT_BITS && (b & FRACTION_BITS) != 0
}

/// Whether the binary64 bit pattern `b` is a zero of either sign.
pub open spec fn is_zero_bits(b: u64) -> bool {
    (b & !SIGN_BIT) == 0
}

/// IEEE-754 equality of two binary64 numbers given by their bits: NaN equals
/// nothing, the two zeros are equal, any other number equals only itself.
pub open spec fn number_eq(a: u64, b: u64) -> bool {
    !is_nan_bits(a) && !is_nan_bits(b) && (a == b || (is_zero_bits(a) && is_zero_bits(b)))
}

/// IEEE-754 negation on bits: the sign flips, nothing else changes.
pub open spec fn negate_bits(b: u64) -> u64 {
    b ^ SIGN_BIT
}

/// A runtime value as mathematics sees it.
pub enum Val {
    Nil,
    Boolean(bool),
    Number(u64),
    Str(Seq<char>),
}

/// Only nil and false are falsey.
pub open spec fn falsey(v: Val) -> bool {
    v is Nil || v == Val::Boolean(false)
}

/// The language's equality on values.
pub open spec fn val_eq(a: Val, b: Val) -> bool {
    match (a, b) {
        (Val::Nil, Val::Nil) => true,
        (Val::Boolean(x), Val::Boolean(y)) => x == y,
        (Val::Number(x), Val::Number(y)) => number_eq(x, y),
        (Val::Str(x), Val::Str(y)) => x == y,
        _ => false,
    }
}

/// A runtime value. A number is held as the bit pattern of an IEEE-754
/// binary64; text is shared and never changed.
#[derive(Debug, Clone)]
pub enum Value {
    Nil,
    Boolean(bool),
    Number(u64),
    String(Rc<StringObject>),
}

impl View for Value {
    type V = Val;

    open spec fn view(&self) -> Val {
        match self {
            Value::Nil => Val::Nil,
            Value::Boolean(b) => Val::Boolean(*b),
            Value::Number(n) => Val::Number(*n),
            Value::String(s) => Val::Str(s.value@),
        }
    }
}

/// Relies on Rc::clone: the new handle points at the same value.
#[verifier::external_body]
fn share_text(s: &Rc<StringObject>) -> (r: Rc<StringObject>)
    ensures
        r == *s,
{
    Rc::clone(s)
}

impl Value {
    pub fn is_falsey(&self) -> (r: bool)
        ensures
            r == falsey(self@),
    {
        match self {
            Value::Boolean(b) => !*b,
            Value::Nil => true,
            _ => false,
        }
    }

    /// Equality of the language: numbers by IEEE-754, text by content, nil
    /// and booleans by tag.
    pub fn equals(&self, other: &Value) -> (r: bool)
        ensures
            r == val_eq(self@, other@),
    {
        match (self, other) {
            (Value::Nil, Value::Nil) => true,
            (Value::Boolean(l), Value::Boolean(r)) => *l == *r,
            (Value::Number(l), Value::Number(r)) => {
                let l_nan = (*l & EXPONENT_BITS) == EXPONENT_BITS && (*l & FRACTION_BITS) != 0;
                let r_nan = (*r & EXPONENT_BITS) == EXPONENT_BITS && (*r & FRACTION_BITS) != 0;
                let both_zero = (*l & !SIGN_BIT) == 0 && (*r & !SIGN_BIT) == 0;
                !l_nan && !r_nan && (*l == *r || both_zero)
            },
            (Value::String(l), Value::String(r)) => l.value.eq(&r.value),
            _ => false,
        }
    }

    /// A second handle on the same value; text is shared, not copied.
    pub fn share(&self) -> (r: Value)
        ensures
            r@ == self@,
    {
        match self {
            Value::Nil => Value::Nil,
            Value::Boolean(b) => Value::Boolean(*b),
            Value::Number(n) => Value::Number(*n),
            Value::String(s) => Value::String(share_text(s)),
        }
    }
}

} // verus!
