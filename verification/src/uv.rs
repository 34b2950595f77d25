//! Numbers as model files give them, and texture coordinates made of them.

use vstd::prelude::*;

verus! {

/// A number as a model file gives it. The library carries it; it does not compute with it.
#[derive(Debug, Clone, Copy, PartialEq, Eq, Structural)]
pub enum Number {
    /// A whole number.
    Int(i64),
    /// A 32-bit IEEE 754 number, by its bits.
    Float(u32),
    /// A number in decimal notation: the bytes from `start` up to `end` of the file.
    Text { start: usize, end: usize },
}

/// A texture coordinate.
#[derive(Debug, Clone, Copy, PartialEq, Eq, Structural)]
pub struct Uv {
    pub u: Number,
    pub v: Number,
}

impl Uv {
    /// The coordinate zero: both parts are the float whose bits are all clear.
    pub open spec fn zero() -> Uv {
        Uv { u: Number::Float(0), v: Number::Float(0) }
    }

    pub fn new(u: Number, v: Number) -> (uv: Self)
        ensures
            uv == (Uv { u, v }),
    {
        Self { u, v }
    }
}

} // verus!
