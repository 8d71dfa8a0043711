//! The runtime value model: a closed set of value kinds (nil, boolean,
//! number) with a discriminant tag and checked accessors. Numbers are
//! carried as their IEEE-754 double-precision bit patterns (see the crate
//! root documentation).

use vstd::prelude::*;
use vstd::string::*;

use crate::numeric::text_of_bits;
use crate::numeric::num_to_text;

verus! {

/// The rendering of a runtime value, as the driver prints it.
pub open spec fn value_text(v: Value) -> Seq<char> {
    match v {
        Value::Nil => "nil"@,
        Value::Bool(true) => "true"@,
        Value::Bool(false) => "false"@,
        Value::Num(bits) => text_of_bits(bits),
    }
}

/// The bit pattern of an IEEE-754 double-precision number.
pub type Number = u64;

/// The payload of a boolean value.
pub type Boolean = bool;

/// Discriminant tag of a runtime value.
#[derive(PartialEq, Eq, Structural, Debug, Clone, Copy)]
pub enum ValueType {
    ValBool,
    ValNil,
    ValNumber,
}

/// A runtime value: the unit of data the virtual machine manipulates.
#[derive(PartialEq, Eq, Structural, Debug, Clone, Copy)]
pub enum Value {
    Nil,
    Bool(Boolean),
    Num(Number),
}

impl Value {
    /// The tag that classifies this value.
    pub open spec fn kind(self) -> ValueType {
        match self {
            Value::Nil => ValueType::ValNil,
            Value::Bool(_) => ValueType::ValBool,
            Value::Num(_) => ValueType::ValNumber,
        }
    }

    pub fn from_bool(value: Boolean) -> (r: Self)
        ensures
            r == Value::Bool(value),
    {
        Value::Bool(value)
    }

    pub fn from_nil() -> (r: Self)
        ensures
            r == Value::Nil,
    {
        Value::Nil
    }

    pub fn from_number(value: Number) -> (r: Self)
        ensures
            r == Value::Num(value),
    {
        Value::Num(value)
    }

    /// The boolean payload; meaningful only when the caller has checked the
    /// kind.
    pub fn as_bool(&self) -> (r: Boolean)
        requires
            self.kind() == ValueType::ValBool,
        ensures
            *self == Value::Bool(r),
    {
        match self {
            Value::Bool(b) => *b,
            _ => false,
        }
    }

    /// The numeric payload (a bit pattern); meaningful only when the caller
    /// has checked the kind.
    pub fn as_number(&self) -> (r: Number)
        requires
            self.kind() == ValueType::ValNumber,
        ensures
            *self == Value::Num(r),
    {
        match self {
            Value::Num(n) => *n,
            _ => 0,
        }
    }

    pub fn is_bool(&self) -> (r: bool)
        ensures
            r == (self.kind() == ValueType::ValBool),
    {
        matches!(self, Value::Bool(_))
    }

    pub fn is_nil(&self) -> (r: bool)
        ensures
            r == (self.kind() == ValueType::ValNil),
    {
        matches!(self, Value::Nil)
    }

    pub fn is_number(&self) -> (r: bool)
        ensures
            r == (self.kind() == ValueType::ValNumber),
    {
        matches!(self, Value::Num(_))
    }

    /// The value as display text: `nil`, `true`, `false`, or the decimal
    /// rendering of a number.
    pub fn text(&self) -> (r: String)
        ensures
            r@ == value_text(*self),
    {
        match self {
            Value::Nil => String::from_str("nil"),
            Value::Bool(b) => {
                if *b {
                    String::from_str("true")
                } else {
                    String::from_str("false")
                }
            },
            Value::Num(bits) => num_to_text(*bits),
        }
    }

    pub fn get_type(&self) -> (r: ValueType)
        ensures
            r == self.kind(),
    {
        match self {
            Value::Nil => ValueType::ValNil,
            Value::Bool(_) => ValueType::ValBool,
            Value::Num(_) => ValueType::ValNumber,
        }
    }
}

} // verus!
