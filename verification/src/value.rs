//! The tagged union of scalar values a mutation can carry, and its
//! mathematical model. No nested structures: every value is a scalar.
//!
//! A `Float` carries the number's wire text rather than a machine float: the
//! core never does arithmetic on it, and keeping the text makes the codec
//! lossless. A `Timestamp` is milliseconds since the Unix epoch.

use vstd::prelude::*;

use crate::lex::in_i64;
use crate::lex::num_lit_ok;

verus! {

/// One scalar value of a mutation.
#[derive(Debug, PartialEq)]
pub enum Value {
    Null,
    Integer(i64),
    /// The literal text of a JSON number, kept verbatim.
    Float(Vec<u8>),
    /// UTF-8 bytes of a text value.
    Text(Vec<u8>),
    Boolean(bool),
    Bytes(Vec<u8>),
    /// Milliseconds since the Unix epoch.
    Timestamp(i64),
}

/// The mathematical model of a `Value`.
#[verifier::ext_equal]
pub enum ValModel {
    Null,
    Integer(int),
    Float(Seq<u8>),
    Text(Seq<u8>),
    Boolean(bool),
    Bytes(Seq<u8>),
    Timestamp(int),
}

impl View for Value {
    type V = ValModel;

    open spec fn view(&self) -> ValModel {
        match self {
            Value::Null => ValModel::Null,
            Value::Integer(i) => ValModel::Integer(*i as int),
            Value::Float(t) => ValModel::Float(t@),
            Value::Text(t) => ValModel::Text(t@),
            Value::Boolean(b) => ValModel::Boolean(*b),
            Value::Bytes(b) => ValModel::Bytes(b@),
            Value::Timestamp(t) => ValModel::Timestamp(*t as int),
        }
    }
}

/// A well-formed value: integers and timestamps fit the 64-bit signed range,
/// and a float's text is a number literal.
pub open spec fn val_wf(m: ValModel) -> bool {
    match m {
        ValModel::Integer(i) => in_i64(i),
        ValModel::Float(t) => num_lit_ok(t),
        ValModel::Timestamp(t) => in_i64(t),
        _ => true,
    }
}

/// Whether two values are the same, decided on their models.
pub fn value_eq(a: &Value, b: &Value) -> (r: bool)
    ensures
        r == (a@ == b@),
{
    match (a, b) {
        (Value::Null, Value::Null) => true,
        (Value::Integer(x), Value::Integer(y)) => x == y,
        (Value::Float(x), Value::Float(y)) => crate::lex::bytes_eq(x, y),
        (Value::Text(x), Value::Text(y)) => crate::lex::bytes_eq(x, y),
        (Value::Boolean(x), Value::Boolean(y)) => x == y,
        (Value::Bytes(x), Value::Bytes(y)) => crate::lex::bytes_eq(x, y),
        (Value::Timestamp(x), Value::Timestamp(y)) => x == y,
        _ => false,
    }
}

} // verus!
