//! Value coercion across compatible data types ("broadcasting").

use vstd::prelude::*;

use base64::Engine;

use crate::exec::GraphContext;
use crate::types::{spec_broadcasts, DataType};
use crate::values::{byte_of, spec_byte_of, Num, Value, ValueV};

verus! {

/// Why a coercion failed.
#[derive(Debug, Clone, Copy, PartialEq, Eq, Structural)]
pub enum BroadcastingError {
    /// The pair of types is outside the broadcast relation.
    CanNotBroadcast(DataType, DataType),
    /// The value does not have the shape its declared type promises.
    InvalidValue,
}

/// What base64's unpadded standard alphabet encodes a byte string to; the
/// encoding depends on the bytes alone.
pub uninterp spec fn b64_of(b: Seq<u8>) -> Seq<char>;

/// What base64's unpadded standard decoder makes of a string: the bytes it
/// encodes, or nothing when no byte string encodes to it.
pub uninterp spec fn b64_decode_of(s: Seq<char>) -> Option<Seq<u8>>;

/// Relies on base64's `Engine::encode` with the `STANDARD_NO_PAD` engine:
/// deterministic in the input bytes, and inverted exactly by the engine's
/// own decoder.
#[verifier::external_body]
fn b64_encode(b: &Vec<u8>) -> (r: String)
    requires
        b@.len() <= usize::MAX / 2,
    ensures
        r@ == b64_of(b@),
        b64_decode_of(r@) == Some(b@),
{
    base64::engine::general_purpose::STANDARD_NO_PAD.encode(b.as_slice())
}

/// Relies on base64's `Engine::decode` with the `STANDARD_NO_PAD` engine:
/// accepts exactly the canonical unpadded encodings and returns the encoded
/// bytes.
#[verifier::external_body]
pub(crate) fn b64_decode(s: &String) -> (r: Option<Vec<u8>>)
    ensures
        match r {
            Some(b) => b64_decode_of(s@) == Some(b@),
            None => b64_decode_of(s@) is None,
        },
{
    match base64::engine::general_purpose::STANDARD_NO_PAD.decode(s.as_str()) {
        Ok(v) => Some(v),
        Err(_) => None,
    }
}

/// The byte of an RGBA pixel at channel `j`.
pub open spec fn px_byte(px: (u8, u8, u8, u8), j: int) -> u8 {
    if j == 0 {
        px.0
    } else if j == 1 {
        px.1
    } else if j == 2 {
        px.2
    } else {
        px.3
    }
}

/// `count` repetitions of the 4-byte pixel `px`.
pub open spec fn tile(px: (u8, u8, u8, u8), count: nat) -> Seq<u8> {
    Seq::new(4 * count, |i: int| px_byte(px, i % 4))
}

/// The numeric value of a scalar-typed slot value.
pub open spec fn as_scalar(v: ValueV) -> Option<Num> {
    match v {
        ValueV::Num(n) => Some(n),
        _ => None,
    }
}

/// The three components of a vector-of-three-typed slot value.
pub open spec fn as_triple(v: ValueV) -> Option<(Num, Num, Num)> {
    match v {
        ValueV::List(l) => if l.len() == 3 {
            Some((l[0], l[1], l[2]))
        } else {
            None
        },
        _ => None,
    }
}

/// A list element read as a color channel: a whole number up to 255.
pub open spec fn color_byte(n: Num) -> Option<u8> {
    match n {
        Num::Whole(i) => if i <= 255 {
            Some(i as u8)
        } else {
            None
        },
        _ => None,
    }
}

/// The four channel bytes of a color-typed slot value.
pub open spec fn as_color(v: ValueV) -> Option<(u8, u8, u8, u8)> {
    match v {
        ValueV::List(l) => if l.len() == 4 && color_byte(l[0]) is Some && color_byte(l[1]) is Some
            && color_byte(l[2]) is Some && color_byte(l[3]) is Some {
            Some(
                (
                    color_byte(l[0]).unwrap(),
                    color_byte(l[1]).unwrap(),
                    color_byte(l[2]).unwrap(),
                    color_byte(l[3]).unwrap(),
                ),
            )
        } else {
            None
        },
        _ => None,
    }
}

/// What broadcasting `v` from type `from` to type `to` yields under image
/// dimensions `w` by `h`.  A pair inside the relation coerces: identity for
/// equal types; a scalar replicates into vectors, scales into color bytes,
/// or tiles a texture; a vector of three becomes a color or a tiled
/// texture; a color becomes its exact channel ratios or a tiled texture.  A
/// pair outside the relation, or a value of the wrong shape, is an error.
pub open spec fn spec_broadcast(v: ValueV, from: DataType, to: DataType, w: nat, h: nat) -> Result<
    ValueV,
    BroadcastingError,
> {
    if !spec_broadcasts(from, to) {
        Err(BroadcastingError::CanNotBroadcast(from, to))
    } else if from == to {
        Ok(v)
    } else {
        match from {
            DataType::Scalar => match as_scalar(v) {
                None => Err(BroadcastingError::InvalidValue),
                Some(n) => {
                    let b = spec_byte_of(n);
                    match to {
                        DataType::Vec2 => Ok(ValueV::List(seq![n, n])),
                        DataType::Vec3 => Ok(ValueV::List(seq![n, n, n])),
                        DataType::Color => Ok(
                            ValueV::List(
                                seq![
                                    Num::Whole(b as u64),
                                    Num::Whole(b as u64),
                                    Num::Whole(b as u64),
                                    Num::Whole(255),
                                ],
                            ),
                        ),
                        DataType::Texture => Ok(ValueV::Text(b64_of(tile((b, b, b, 255), w * h)))),
                        DataType::Scalar => Ok(v),
                    }
                },
            },
            DataType::Vec3 => match as_triple(v) {
                None => Err(BroadcastingError::InvalidValue),
                Some((x, y, z)) => {
                    let px = (spec_byte_of(x), spec_byte_of(y), spec_byte_of(z), 255u8);
                    match to {
                        DataType::Color => Ok(
                            ValueV::List(
                                seq![
                                    Num::Whole(px.0 as u64),
                                    Num::Whole(px.1 as u64),
                                    Num::Whole(px.2 as u64),
                                    Num::Whole(255),
                                ],
                            ),
                        ),
                        DataType::Texture => Ok(ValueV::Text(b64_of(tile(px, w * h)))),
                        _ => Err(BroadcastingError::CanNotBroadcast(from, to)),
                    }
                },
            },
            DataType::Color => match as_color(v) {
                None => Err(BroadcastingError::InvalidValue),
                Some(px) => match to {
                    DataType::Vec3 => Ok(
                        ValueV::List(seq![Num::Ratio(px.0), Num::Ratio(px.1), Num::Ratio(px.2)]),
                    ),
                    DataType::Texture => Ok(ValueV::Text(b64_of(tile(px, w * h)))),
                    _ => Err(BroadcastingError::CanNotBroadcast(from, to)),
                },
            },
            _ => Err(BroadcastingError::CanNotBroadcast(from, to)),
        }
    }
}

/// The pixel buffer a coercion into `Texture` tiles and encodes: the
/// source value's pixel, repeated once per image pixel.  Meaningful only
/// for sources the relation admits and values of the right shape.
pub open spec fn spec_texture_pixels(v: ValueV, from: DataType, w: nat, h: nat) -> Seq<u8> {
    match from {
        DataType::Scalar => match as_scalar(v) {
            Some(n) => tile(
                (spec_byte_of(n), spec_byte_of(n), spec_byte_of(n), 255u8),
                w * h,
            ),
            None => Seq::empty(),
        },
        DataType::Vec3 => match as_triple(v) {
            Some((x, y, z)) => tile(
                (spec_byte_of(x), spec_byte_of(y), spec_byte_of(z), 255u8),
                w * h,
            ),
            None => Seq::empty(),
        },
        DataType::Color => match as_color(v) {
            Some(px) => tile(px, w * h),
            None => Seq::empty(),
        },
        _ => Seq::empty(),
    }
}

/// The shape of a coercion result.
pub open spec fn broadcast_res_view(r: Result<Value, BroadcastingError>) -> Result<
    ValueV,
    BroadcastingError,
> {
    match r {
        Ok(v) => Ok(v@),
        Err(e) => Err(e),
    }
}

/// Builds `count` repetitions of the 4-byte pixel `px`.
fn make_tile(px: (u8, u8, u8, u8), count: usize) -> (r: Vec<u8>)
    requires
        4 * count <= usize::MAX,
    ensures
        r@ == tile(px, count as nat),
{
    let mut r: Vec<u8> = Vec::new();
    let mut i: usize = 0;
    while i < count
        invariant
            i <= count,
            4 * count <= usize::MAX,
            r@.len() == 4 * i,
            forall|k: int| 0 <= k < 4 * i ==> r@[k] == px_byte(px, k % 4),
        decreases count - i,
    {
        r.push(px.0);
        r.push(px.1);
        r.push(px.2);
        r.push(px.3);
        proof {
            assert((4 * i as int) % 4 == 0);
            assert((4 * i as int + 1) % 4 == 1);
            assert((4 * i as int + 2) % 4 == 2);
            assert((4 * i as int + 3) % 4 == 3);
        }
        i = i + 1;
    }
    proof {
        assert(r@ =~= tile(px, count as nat));
    }
    r
}

/// The numeric value of a scalar-typed slot value, if it is one.
fn scalar_of(v: &Value) -> (r: Option<Num>)
    ensures
        r == as_scalar(v@),
{
    match v {
        Value::Num(n) => Some(*n),
        _ => None,
    }
}

/// The three components of a vector-of-three-typed slot value, if it has
/// them.
fn triple_of(v: &Value) -> (r: Option<(Num, Num, Num)>)
    ensures
        r == as_triple(v@),
{
    match v {
        Value::List(l) => {
            if l.len() == 3 {
                Some((l[0], l[1], l[2]))
            } else {
                None
            }
        },
        _ => None,
    }
}

/// One list element read as a color channel byte, if it is one.
fn channel_of(n: Num) -> (r: Option<u8>)
    ensures
        r == color_byte(n),
{
    match n {
        Num::Whole(i) => {
            if i <= 255 {
                Some(i as u8)
            } else {
                None
            }
        },
        _ => None,
    }
}

/// The four channel bytes of a color-typed slot value, if it has them.
fn color_of(v: &Value) -> (r: Option<(u8, u8, u8, u8)>)
    ensures
        r == as_color(v@),
{
    match v {
        Value::List(l) => {
            if l.len() != 4 {
                return None;
            }
            let c0 = channel_of(l[0]);
            let c1 = channel_of(l[1]);
            let c2 = channel_of(l[2]);
            let c3 = channel_of(l[3]);
            match (c0, c1, c2, c3) {
                (Some(a), Some(b), Some(c), Some(d)) => Some((a, b, c, d)),
                _ => None,
            }
        },
        _ => None,
    }
}

/// Coerces `value` from type `from` to type `to` under the context's image
/// dimensions, exactly as [`spec_broadcast`] says.  A successful coercion
/// into a texture moreover encodes a buffer the engine's own decoder gives
/// back: the clause every downstream texture consumer rests on.
pub fn broadcast(value: Value, from: &DataType, to: &DataType, ctx: &GraphContext) -> (r: Result<
    Value,
    BroadcastingError,
>)
    requires
        ctx.wf(),
    ensures
        broadcast_res_view(r) == spec_broadcast(
            value@,
            *from,
            *to,
            ctx.dimensions.0 as nat,
            ctx.dimensions.1 as nat,
        ),
        (*to == DataType::Texture && *from != DataType::Texture && r is Ok) ==> b64_decode_of(
            b64_of(
                spec_texture_pixels(
                    value@,
                    *from,
                    ctx.dimensions.0 as nat,
                    ctx.dimensions.1 as nat,
                ),
            ),
        ) == Some(
            spec_texture_pixels(value@, *from, ctx.dimensions.0 as nat, ctx.dimensions.1 as nat),
        ),
{
    if !DataType::broadcasts(from, to) {
        return Err(BroadcastingError::CanNotBroadcast(*from, *to));
    }
    if *from == *to {
        return Ok(value);
    }
    proof {
        let w = ctx.dimensions.0 as int;
        let h = ctx.dimensions.1 as int;
        assert(w * h <= 8 * w * h && 4 * (w * h) <= 8 * w * h && 4 * (w * h) == 4 * w * h && 8
            * (w * h) == 8 * w * h) by (nonlinear_arith)
            requires
                w >= 0 && h >= 0,
        ;
    }
    let count = ctx.dimensions.0 * ctx.dimensions.1;
    match from {
        DataType::Scalar => {
            let n = match scalar_of(&value) {
                Some(n) => n,
                None => {
                    return Err(BroadcastingError::InvalidValue);
                },
            };
            let b = byte_of(n);
            match to {
                DataType::Vec2 => {
                    let mut l: Vec<Num> = Vec::new();
                    l.push(n);
                    l.push(n);
                    proof {
                        assert(l@ =~= seq![n, n]);
                    }
                    Ok(Value::List(l))
                },
                DataType::Vec3 => {
                    let mut l: Vec<Num> = Vec::new();
                    l.push(n);
                    l.push(n);
                    l.push(n);
                    proof {
                        assert(l@ =~= seq![n, n, n]);
                    }
                    Ok(Value::List(l))
                },
                DataType::Color => {
                    let mut l: Vec<Num> = Vec::new();
                    l.push(Num::Whole(b as u64));
                    l.push(Num::Whole(b as u64));
                    l.push(Num::Whole(b as u64));
                    l.push(Num::Whole(255));
                    proof {
                        assert(l@ =~= seq![
                            Num::Whole(b as u64),
                            Num::Whole(b as u64),
                            Num::Whole(b as u64),
                            Num::Whole(255),
                        ]);
                    }
                    Ok(Value::List(l))
                },
                DataType::Texture => {
                    let pixels = make_tile((b, b, b, 255), count);
                    let out = b64_encode(&pixels);
                    proof {
                        assert(pixels@ == spec_texture_pixels(
                            value@,
                            *from,
                            ctx.dimensions.0 as nat,
                            ctx.dimensions.1 as nat,
                        ));
                    }
                    Ok(Value::Text(out))
                },
                DataType::Scalar => Ok(value),
            }
        },
        DataType::Vec3 => {
            let (x, y, z) = match triple_of(&value) {
                Some(t) => t,
                None => {
                    return Err(BroadcastingError::InvalidValue);
                },
            };
            let px = (byte_of(x), byte_of(y), byte_of(z), 255u8);
            match to {
                DataType::Color => {
                    let mut l: Vec<Num> = Vec::new();
                    l.push(Num::Whole(px.0 as u64));
                    l.push(Num::Whole(px.1 as u64));
                    l.push(Num::Whole(px.2 as u64));
                    l.push(Num::Whole(255));
                    proof {
                        assert(l@ =~= seq![
                            Num::Whole(px.0 as u64),
                            Num::Whole(px.1 as u64),
                            Num::Whole(px.2 as u64),
                            Num::Whole(255),
                        ]);
                    }
                    Ok(Value::List(l))
                },
                DataType::Texture => {
                    let pixels = make_tile(px, count);
                    let out = b64_encode(&pixels);
                    proof {
                        assert(pixels@ == spec_texture_pixels(
                            value@,
                            *from,
                            ctx.dimensions.0 as nat,
                            ctx.dimensions.1 as nat,
                        ));
                    }
                    Ok(Value::Text(out))
                },
                _ => Err(BroadcastingError::CanNotBroadcast(*from, *to)),
            }
        },
        DataType::Color => {
            let px = match color_of(&value) {
                Some(p) => p,
                None => {
                    return Err(BroadcastingError::InvalidValue);
                },
            };
            match to {
                DataType::Vec3 => {
                    let mut l: Vec<Num> = Vec::new();
                    l.push(Num::Ratio(px.0));
                    l.push(Num::Ratio(px.1));
                    l.push(Num::Ratio(px.2));
                    proof {
                        assert(l@ =~= seq![Num::Ratio(px.0), Num::Ratio(px.1), Num::Ratio(px.2)]);
                    }
                    Ok(Value::List(l))
                },
                DataType::Texture => {
                    let pixels = make_tile(px, count);
                    let out = b64_encode(&pixels);
                    proof {
                        assert(pixels@ == spec_texture_pixels(
                            value@,
                            *from,
                            ctx.dimensions.0 as nat,
                            ctx.dimensions.1 as nat,
                        ));
                    }
                    Ok(Value::Text(out))
                },
                _ => Err(BroadcastingError::CanNotBroadcast(*from, *to)),
            }
        },
        _ => Err(BroadcastingError::CanNotBroadcast(*from, *to)),
    }
}

} // verus!
