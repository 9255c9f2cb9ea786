//! The values that flow between nodes.
//!
//! The engine never performs floating-point arithmetic itself: a real number
//! is carried as its IEEE-754 bit pattern together with its 8-bit channel
//! scaling, both fixed by whoever builds the value.  Everything the engine
//! computes from a number goes through that byte, so the whole coercion
//! algebra stays in exactly-representable integer arithmetic.

use vstd::prelude::*;

verus! {

/// A real number, as it entered the engine: `bits` is its IEEE-754 double
/// bit pattern (kept so the value round-trips unchanged), `byte` is
/// `255 * x` truncated toward zero and clamped to `0..=255`, fixed when the
/// value was built.
#[derive(Debug, Clone, Copy, PartialEq, Eq, Structural)]
pub struct Real {
    pub bits: u64,
    pub byte: u8,
}

/// One numeric element.  `Whole` is a non-negative integer written as such;
/// `Ratio(c)` is the exact fraction `c / 255`, kept symbolically so that
/// scaling it back to a channel byte is exact.
#[derive(Debug, Clone, Copy, PartialEq, Eq, Structural)]
pub enum Num {
    Real(Real),
    Whole(u64),
    Ratio(u8),
}

/// A value carried by a slot: a number, a piece of text (a file path or an
/// encoded texture), or a flat list of numbers (a vector or a color).
#[derive(Debug, PartialEq, Eq)]
pub enum Value {
    Num(Num),
    Text(String),
    List(Vec<Num>),
}

/// The mathematical shape of a [`Value`].
pub enum ValueV {
    Num(Num),
    Text(Seq<char>),
    List(Seq<Num>),
}

impl View for Value {
    type V = ValueV;

    open spec fn view(&self) -> ValueV {
        match self {
            Value::Num(n) => ValueV::Num(*n),
            Value::Text(s) => ValueV::Text(s@),
            Value::List(v) => ValueV::List(v@),
        }
    }
}

/// The shapes of a list of values, element by element.
pub open spec fn views_of(s: Seq<Value>) -> Seq<ValueV> {
    Seq::new(s.len(), |i: int| s[i]@)
}

/// The channel byte of a numeric element: the value scaled by 255,
/// truncated and clamped to one byte.
pub open spec fn spec_byte_of(n: Num) -> u8 {
    match n {
        Num::Real(r) => r.byte,
        Num::Whole(i) => if i == 0 { 0 } else { 255 },
        Num::Ratio(c) => c,
    }
}

/// Executable form of [`spec_byte_of`].
pub fn byte_of(n: Num) -> (r: u8)
    ensures
        r == spec_byte_of(n),
{
    match n {
        Num::Real(r) => r.byte,
        Num::Whole(i) => if i == 0 { 0 } else { 255 },
        Num::Ratio(c) => c,
    }
}

impl Value {
    /// Deep copy; the copy has the same shape.
    pub fn duplicate(&self) -> (r: Value)
        ensures
            r@ == self@,
    {
        match self {
            Value::Num(n) => Value::Num(*n),
            Value::Text(s) => Value::Text(s.clone()),
            Value::List(v) => {
                let mut out: Vec<Num> = Vec::new();
                let mut i: usize = 0;
                while i < v.len()
                    invariant
                        i <= v.len(),
                        out@ == v@.subrange(0, i as int),
                    decreases v.len() - i,
                {
                    out.push(v[i]);
                    i = i + 1;
                }
                proof {
                    assert(out@ =~= v@);
                }
                Value::List(out)
            },
        }
    }
}

/// Deep copy of a list of values, element by element.
pub fn duplicate_values(vs: &Vec<Value>) -> (r: Vec<Value>)
    ensures
        views_of(r@) == views_of(vs@),
{
    let mut out: Vec<Value> = Vec::new();
    let mut i: usize = 0;
    while i < vs.len()
        invariant
            i <= vs.len(),
            out@.len() == i,
            forall|j: int| 0 <= j < i ==> out@[j]@ == vs@[j]@,
        decreases vs.len() - i,
    {
        out.push(vs[i].duplicate());
        i = i + 1;
    }
    proof {
        assert(views_of(out@) =~= views_of(vs@));
    }
    out
}

} // verus!
