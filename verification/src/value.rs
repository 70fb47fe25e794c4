//! The typed values that cross a plugin boundary.
//!
//! The runtime itself treats payloads as opaque; callers and callees agree on
//! a small value model that a codec turns into payload bytes and back.
//! Multiple call arguments travel as one ordered pair, so a two-argument
//! function is indistinguishable, at the payload level, from a function
//! taking a single pair.

use vstd::prelude::*;

verus! {

/// A value exchanged across the payload boundary: a single integer or an
/// ordered pair of integers (the tuple-like form for two call arguments).
#[derive(Debug, Clone, Copy, PartialEq, Eq, Structural)]
pub enum Value {
    /// A single integer, the usual shape of a call result.
    Int(i64),
    /// An ordered pair of integers, the usual shape of call arguments.
    Pair(i64, i64),
}

impl Value {
    /// The pair `(a, b)` seen as call arguments.
    pub fn args(a: i64, b: i64) -> (r: Value)
        ensures
            r == Value::Pair(a, b),
    {
        Value::Pair(a, b)
    }

    /// The integer carried by this value, if it is a single integer.
    pub fn as_int(&self) -> (r: Option<i64>)
        ensures
            r == (match *self {
                Value::Int(n) => Some(n),
                Value::Pair(..) => None::<i64>,
            }),
    {
        match *self {
            Value::Int(n) => Some(n),
            Value::Pair(..) => None,
        }
    }

    /// The two integers carried by this value, if it is a pair.
    pub fn as_pair(&self) -> (r: Option<(i64, i64)>)
        ensures
            r == (match *self {
                Value::Pair(a, b) => Some((a, b)),
                Value::Int(..) => None::<(i64, i64)>,
            }),
    {
        match *self {
            Value::Pair(a, b) => Some((a, b)),
            Value::Int(..) => None,
        }
    }
}

} // verus!
