//! The codec abstraction: a bidirectional converter between typed values
//! and the opaque payload exchanged across a plugin boundary.

use vstd::prelude::*;

use crate::consumer_provider::YapsData;
use crate::error::Error;
use crate::value::Value;

verus! {

/// A converter committed to one payload representation.
///
/// `enc_spec` gives the payload view that encoding an encodable value
/// produces, `dec_spec` the value a payload view decodes to, if any. Every
/// implementation must prove the round-trip law: decoding inverts
/// encoding.
pub trait Codec: Sized {
    /// The payload representation this codec commits to.
    type Data: YapsData;

    /// Which values this codec can encode.
    spec fn enc_ok(&self, v: Value) -> bool;

    /// The payload view produced by encoding `v`.
    spec fn enc_spec(&self, v: Value) -> <Self::Data as View>::V;

    /// The value a payload view decodes to, if it is the encoding of one.
    spec fn dec_spec(&self, d: <Self::Data as View>::V) -> Option<Value>;

    /// Encode one value as a payload; fails with `Encode` exactly on
    /// values the codec cannot encode.
    fn encode(&self, v: &Value) -> (r: Result<Self::Data, Error>)
        ensures
            self.enc_ok(*v) ==> (r matches Ok(d) && d@ == self.enc_spec(*v)),
            !self.enc_ok(*v) ==> (r matches Err(e) && e is Encode),
    ;

    /// Decode one payload; fails with `Decode` exactly on payloads that
    /// are not the encoding of any value.
    fn decode(&self, d: Self::Data) -> (r: Result<Value, Error>)
        ensures
            match self.dec_spec(d@) {
                Some(v) => r matches Ok(out) && out == v,
                None => r matches Err(e) && e is Decode,
            },
    ;

    /// The round-trip law: decoding the encoding of any encodable value
    /// yields that value back.
    proof fn codec_round_trip(&self, v: Value)
        requires
            self.enc_ok(v),
        ensures
            self.dec_spec(self.enc_spec(v)) == Some(v),
    ;
}

/// Encoding of one typed argument shape `E` through codec `C`: the shape
/// is seen as a [`Value`] and encoded with the codec.
pub trait EncodeFor<C: Codec, E>: Sized {
    /// The value `obj` stands for at the payload level.
    spec fn as_value(obj: E) -> Value;

    /// Encode `obj` with `codec`.
    fn encode(codec: &C, obj: E) -> (r: Result<C::Data, Error>)
        ensures
            codec.enc_ok(Self::as_value(obj)) ==> (r matches Ok(d) && d@ == codec.enc_spec(
                Self::as_value(obj),
            )),
            !codec.enc_ok(Self::as_value(obj)) ==> (r matches Err(e) && e is Encode),
    ;
}

/// Decoding into one typed result shape `T` through codec `C`: the payload
/// is decoded to a [`Value`] and read as a `T`, failing with `Decode` when
/// the value has the wrong shape.
pub trait DecodeFor<C: Codec, T>: Sized {
    /// The `T` a decoded value stands for, if it has the right shape.
    spec fn of_value(v: Value) -> Option<T>;

    /// Decode `data` with `codec` into a `T`.
    fn decode(codec: &C, data: C::Data) -> (r: Result<T, Error>)
        ensures
            match codec.dec_spec(data@) {
                Some(v) => match Self::of_value(v) {
                    Some(t) => r matches Ok(out) && out == t,
                    None => r matches Err(e) && e is Decode,
                },
                None => r matches Err(e) && e is Decode,
            },
    ;
}

} // verus!
