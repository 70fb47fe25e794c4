//! The serializer abstraction of the keyed-registry world: the same
//! bidirectional value-to-payload contract as [`crate::codec`], under the
//! names that world uses, with a concrete implementation over raw bytes.

use vstd::prelude::*;

use crate::consumer_provider::YapsData;
use crate::error::Error;
use crate::json::{decode_value, encode_value, json_bytes, lemma_json_round_trip, parse_value};
use crate::value::Value;

verus! {

/// A bidirectional converter between values and one payload type.
///
/// Implementations must prove the round-trip law: deserializing the
/// serialization of any serializable value yields it back.
pub trait SerializerDeserializer<D: YapsData>: Sized {
    /// Which values this serializer can serialize.
    spec fn ser_ok(&self, v: Value) -> bool;

    /// The payload view produced by serializing `v`.
    spec fn ser_spec(&self, v: Value) -> <D as View>::V;

    /// The value a payload view deserializes to, if any.
    spec fn deser_spec(&self, d: <D as View>::V) -> Option<Value>;

    /// Serialize one value; fails with `Encode` exactly on values this
    /// serializer cannot represent.
    fn serialize(&self, obj: &Value) -> (r: Result<D, Error>)
        ensures
            self.ser_ok(*obj) ==> (r matches Ok(d) && d@ == self.ser_spec(*obj)),
            !self.ser_ok(*obj) ==> (r matches Err(e) && e is Encode),
    ;

    /// Deserialize one payload; fails with `Decode` exactly on payloads
    /// that are not the serialization of any value.
    fn deserialize(&self, data: D) -> (r: Result<Value, Error>)
        ensures
            match self.deser_spec(data@) {
                Some(v) => r matches Ok(out) && out == v,
                None => r matches Err(e) && e is Decode,
            },
    ;

    /// The round-trip law.
    proof fn serde_round_trip(&self, v: Value)
        requires
            self.ser_ok(v),
        ensures
            self.deser_spec(self.ser_spec(v)) == Some(v),
    ;
}

/// The serializer committed to canonical JSON bytes.
#[derive(Debug, Clone, Default)]
pub struct JsonSerde;

impl SerializerDeserializer<Vec<u8>> for JsonSerde {
    open spec fn ser_ok(&self, v: Value) -> bool {
        true
    }

    open spec fn ser_spec(&self, v: Value) -> Seq<u8> {
        json_bytes(v)
    }

    open spec fn deser_spec(&self, d: Seq<u8>) -> Option<Value> {
        parse_value(d)
    }

    fn serialize(&self, obj: &Value) -> (r: Result<Vec<u8>, Error>) {
        Ok(encode_value(obj))
    }

    fn deserialize(&self, data: Vec<u8>) -> (r: Result<Value, Error>) {
        match decode_value(&data) {
            Some(v) => Ok(v),
            None => Err(Error::Decode(String::from_str("payload is not a canonical rendering"))),
        }
    }

    proof fn serde_round_trip(&self, v: Value) {
        lemma_json_round_trip(v);
    }
}

/// Access to the serializer a component was built with.
pub trait WithSerde<D: YapsData>: Sized {
    /// The serializer type this component commits to.
    type Serde: SerializerDeserializer<D>;

    /// The serializer instance.
    fn serde(&self) -> Self::Serde;
}

impl WithSerde<Vec<u8>> for crate::plugins::Adder {
    type Serde = JsonSerde;

    fn serde(&self) -> JsonSerde {
        JsonSerde
    }
}

impl WithSerde<Vec<u8>> for crate::plugins::Calculator {
    type Serde = JsonSerde;

    fn serde(&self) -> JsonSerde {
        JsonSerde
    }
}

} // verus!
