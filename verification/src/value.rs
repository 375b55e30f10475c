//! Values: what is validated.

use vstd::prelude::*;
use vstd::string::StrSliceExecFns;
use vstd::utf8::encode_utf8;

verus! {

/// A structured value. A rule reads a value only through what it needs of
/// it: its text, its length, its length in bytes or its magnitude.
#[derive(Debug)]
pub enum Value {
    /// An optional value that is not set.
    Absent,
    /// A text.
    Text(String),
    /// A run of bytes.
    Bytes(Vec<u8>),
    /// A whole number.
    Integer(i128),
    /// A list of elements.
    List(Vec<Value>),
    /// A composite: the values of its fields, in the declared order.
    Composite(Vec<Value>),
    /// One variant of a tagged union: its place among the declared variants
    /// and the values of its fields, in the declared order.
    Variant(usize, Vec<Value>),
}

impl Value {
    /// The characters of a text; other values have none.
    pub open spec fn text(self) -> Option<Seq<char>> {
        match self {
            Value::Text(text) => Some(text@),
            _ => None,
        }
    }

    /// The length of a value in units: the characters of a text, the bytes
    /// of a run of bytes, the elements of a list. Other values have none.
    pub open spec fn length(self) -> Option<nat> {
        match self {
            Value::Text(text) => Some(text@.len()),
            Value::Bytes(bytes) => Some(bytes@.len()),
            Value::List(items) => Some(items@.len()),
            _ => None,
        }
    }

    /// The length of a value in bytes: those of a text in UTF-8, those of a
    /// run of bytes. Other values have none.
    pub open spec fn byte_length(self) -> Option<nat> {
        match self {
            Value::Text(text) => Some(encode_utf8(text@).len()),
            Value::Bytes(bytes) => Some(bytes@.len()),
            _ => None,
        }
    }

    /// The magnitude of a whole number; other values have none.
    pub open spec fn magnitude(self) -> Option<int> {
        match self {
            Value::Integer(n) => Some(n as int),
            _ => None,
        }
    }

    /// Whether the value is an optional that is not set.
    pub fn is_absent(&self) -> (absent: bool)
        ensures
            absent == (*self is Absent),
    {
        match self {
            Value::Absent => true,
            _ => false,
        }
    }

    /// The text of the value, if it is one.
    pub fn as_text(&self) -> (text: Option<&str>)
        ensures
            match text {
                Some(slice) => self.text() == Some(slice@),
                None => self.text() is None,
            },
    {
        match self {
            Value::Text(text) => Some(text.as_str()),
            _ => None,
        }
    }

    /// The length of the value in units, if it has one.
    pub fn count(&self) -> (count: Option<usize>)
        ensures
            match count {
                Some(n) => self.length() == Some(n as nat),
                None => self.length() is None,
            },
    {
        match self {
            Value::Text(text) => Some(text.as_str().unicode_len()),
            Value::Bytes(bytes) => Some(bytes.len()),
            Value::List(items) => Some(items.len()),
            _ => None,
        }
    }

    /// The length of the value in bytes, if it has one.
    pub fn byte_count(&self) -> (count: Option<usize>)
        ensures
            match count {
                Some(n) => self.byte_length() == Some(n as nat),
                None => self.byte_length() is None,
            },
    {
        match self {
            Value::Text(text) => Some(text.as_str().as_bytes().len()),
            Value::Bytes(bytes) => Some(bytes.len()),
            _ => None,
        }
    }

    /// The whole number that the value is, if it is one.
    pub fn as_integer(&self) -> (number: Option<i128>)
        ensures
            match number {
                Some(n) => self.magnitude() == Some(n as int),
                None => self.magnitude() is None,
            },
    {
        match self {
            Value::Integer(n) => Some(*n),
            _ => None,
        }
    }
}

} // verus!
