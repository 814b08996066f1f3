use vstd::prelude::*;

use crate::hashing::native_little_endian;
use crate::hashing::spec_value_key;
use crate::hashing::platform_le;
use crate::hashing::value_key;
use crate::symbol_set::SymbolSet;

verus! {

/// Enumeration of possible attribute value types.
///
/// Floating point values are carried as their IEEE-754 bit patterns
/// (`f32::to_bits`), which is also what they are hashed by.
#[derive(Debug)]
pub enum Value {
    Empty,
    Bool(bool),
    TextBuffer(String),
    Int(i32),
    IntPair(i32, i32),
    IntRange(i32, i32, i32),
    Float(u32),
    FloatPair(u32, u32),
    FloatRange(u32, u32, u32),
    BinaryVector(Vec<u8>),
    Reference(u64),
    Symbol(String),
    Complex(SymbolSet),
}

/// The data of a value: each field by its view.
pub enum ValueModel {
    Empty,
    Bool(bool),
    TextBuffer(Seq<char>),
    Int(i32),
    IntPair(i32, i32),
    IntRange(i32, i32, i32),
    Float(u32),
    FloatPair(u32, u32),
    FloatRange(u32, u32, u32),
    BinaryVector(Seq<u8>),
    Reference(u64),
    Symbol(Seq<char>),
    Complex(Seq<Seq<char>>),
}

impl View for Value {
    type V = ValueModel;

    open spec fn view(&self) -> ValueModel {
        match *self {
            Value::Empty => ValueModel::Empty,
            Value::Bool(b) => ValueModel::Bool(b),
            Value::TextBuffer(t) => ValueModel::TextBuffer(t@),
            Value::Int(i) => ValueModel::Int(i),
            Value::IntPair(a, b) => ValueModel::IntPair(a, b),
            Value::IntRange(a, b, c) => ValueModel::IntRange(a, b, c),
            Value::Float(f) => ValueModel::Float(f),
            Value::FloatPair(a, b) => ValueModel::FloatPair(a, b),
            Value::FloatRange(a, b, c) => ValueModel::FloatRange(a, b, c),
            Value::BinaryVector(v) => ValueModel::BinaryVector(v@),
            Value::Reference(r) => ValueModel::Reference(r),
            Value::Symbol(s) => ValueModel::Symbol(s@),
            Value::Complex(c) => ValueModel::Complex(c@),
        }
    }
}

impl Clone for Value {
    fn clone(&self) -> (copy: Self)
        ensures
            copy@ == self@,
    {
        match self {
            Value::Empty => Value::Empty,
            Value::Bool(b) => Value::Bool(*b),
            Value::TextBuffer(t) => Value::TextBuffer(t.clone()),
            Value::Int(i) => Value::Int(*i),
            Value::IntPair(a, b) => Value::IntPair(*a, *b),
            Value::IntRange(a, b, c) => Value::IntRange(*a, *b, *c),
            Value::Float(f) => Value::Float(*f),
            Value::FloatPair(a, b) => Value::FloatPair(*a, *b),
            Value::FloatRange(a, b, c) => Value::FloatRange(*a, *b, *c),
            Value::BinaryVector(v) => Value::BinaryVector(v.clone()),
            Value::Reference(r) => Value::Reference(*r),
            Value::Symbol(s) => Value::Symbol(s.clone()),
            Value::Complex(c) => Value::Complex(c.clone()),
        }
    }
}

impl Value {
    /// Returns an empty tuple if value is an Empty type.
    pub fn empty(&self) -> (r: Option<()>)
        ensures
            r is Some <==> *self is Empty,
    {
        match self {
            Value::Empty => Some(()),
            _ => None,
        }
    }

    /// Returns a bool if this value is a bool literal.
    pub fn bool(&self) -> (r: Option<bool>)
        ensures
            r == (match *self {
                Value::Bool(b) => Some(b),
                _ => None,
            }),
    {
        match self {
            Value::Bool(b) => Some(*b),
            _ => None,
        }
    }

    /// Returns a String if this value is a text buffer.
    pub fn text(&self) -> (r: Option<String>)
        ensures
            match *self {
                Value::TextBuffer(t) => r is Some && r->0@ == t@,
                _ => r is None,
            },
    {
        match self {
            Value::TextBuffer(buffer) => Some(buffer.clone()),
            _ => None,
        }
    }

    /// Returns an i32 if this value is an int.
    pub fn int_value(&self) -> (r: Option<i32>)
        ensures
            r == (match *self {
                Value::Int(i) => Some(i),
                _ => None,
            }),
    {
        match self {
            Value::Int(i) => Some(*i),
            _ => None,
        }
    }

    /// Returns a tuple (i32, i32) if this value is an int pair.
    pub fn int_pair(&self) -> (r: Option<(i32, i32)>)
        ensures
            r == (match *self {
                Value::IntPair(a, b) => Some((a, b)),
                _ => None,
            }),
    {
        match self {
            Value::IntPair(a, b) => Some((*a, *b)),
            _ => None,
        }
    }

    /// Returns a tuple (i32, i32, i32) if this value is an int range.
    pub fn int_range(&self) -> (r: Option<(i32, i32, i32)>)
        ensures
            r == (match *self {
                Value::IntRange(a, b, c) => Some((a, b, c)),
                _ => None,
            }),
    {
        match self {
            Value::IntRange(a, b, c) => Some((*a, *b, *c)),
            _ => None,
        }
    }

    /// Returns the bits of an f32 if this value is a float.
    pub fn float(&self) -> (r: Option<u32>)
        ensures
            r == (match *self {
                Value::Float(f) => Some(f),
                _ => None,
            }),
    {
        match self {
            Value::Float(f) => Some(*f),
            _ => None,
        }
    }

    /// Returns the bits of two f32 if this value is a float pair.
    pub fn float_pair(&self) -> (r: Option<(u32, u32)>)
        ensures
            r == (match *self {
                Value::FloatPair(a, b) => Some((a, b)),
                _ => None,
            }),
    {
        match self {
            Value::FloatPair(a, b) => Some((*a, *b)),
            _ => None,
        }
    }

    /// Returns the bits of three f32 if this value is a float range.
    pub fn float_range(&self) -> (r: Option<(u32, u32, u32)>)
        ensures
            r == (match *self {
                Value::FloatRange(a, b, c) => Some((a, b, c)),
                _ => None,
            }),
    {
        match self {
            Value::FloatRange(a, b, c) => Some((*a, *b, *c)),
            _ => None,
        }
    }

    /// Returns a String if this value is a symbol.
    pub fn symbol(&self) -> (r: Option<String>)
        ensures
            match *self {
                Value::Symbol(s) => r is Some && r->0@ == s@,
                _ => r is None,
            },
    {
        match self {
            Value::Symbol(symbol) => Some(symbol.clone()),
            _ => None,
        }
    }

    /// Returns a vector of bytes if this value is a binary vector.
    pub fn binary(&self) -> (r: Option<Vec<u8>>)
        ensures
            match *self {
                Value::BinaryVector(v) => r is Some && r->0@ == v@,
                _ => r is None,
            },
    {
        match self {
            Value::BinaryVector(vec) => Some(vec.clone()),
            _ => None,
        }
    }

    /// Returns the set of strings if this value is a complex.
    pub fn complex(&self) -> (r: Option<SymbolSet>)
        ensures
            match *self {
                Value::Complex(c) => r is Some && r->0@ == c@,
                _ => r is None,
            },
    {
        match self {
            Value::Complex(c) => Some(c.clone()),
            _ => None,
        }
    }

    /// Converts to `Value::Reference`, the key of this value.
    ///
    /// If self is already a reference, returns it without rehashing;
    /// otherwise the key is the default hasher's digest of the value's
    /// payload, with integers written in the platform's byte order.
    pub fn to_ref(&self) -> (r: Value)
        ensures
            r == Value::Reference(spec_value_key(*self, platform_le())),
    {
        let le = native_little_endian();
        Value::Reference(value_key(self, le))
    }

    /// Returns a bool value.
    pub fn from_bool(b: bool) -> (v: Value)
        ensures
            v == Value::Bool(b),
    {
        Value::Bool(b)
    }

    /// Returns an int value.
    pub fn from_i32(i: i32) -> (v: Value)
        ensures
            v == Value::Int(i),
    {
        Value::Int(i)
    }

    /// Returns an int value from a count; the count is truncated to 32 bits.
    pub fn from_usize(c: usize) -> (v: Value)
        ensures
            v == Value::Int(c as i32),
    {
        Value::Int(c as i32)
    }

    /// Returns a complex value.
    pub fn from_complex(c: SymbolSet) -> (v: Value)
        ensures
            v == Value::Complex(c),
    {
        Value::Complex(c)
    }

    /// Returns a text buffer value.
    pub fn from_text(t: String) -> (v: Value)
        ensures
            v == Value::TextBuffer(t),
    {
        Value::TextBuffer(t)
    }

    /// Returns a symbol value.
    pub fn from_symbol(s: &str) -> (v: Value)
        ensures
            v matches Value::Symbol(t) && t@ == s@,
    {
        Value::Symbol(s.to_string())
    }
}

} // verus!
