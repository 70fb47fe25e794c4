use yaps::codec::{Codec, DecodeFor, EncodeFor};
use yaps::error::Error;
use yaps::json::{decode_value, encode_value, JsonCodec, JsonData};
use yaps::serializer_deserializer::{JsonSerde, SerializerDeserializer, WithSerde};
use yaps::plugins::Adder;
use yaps::value::Value;

fn round_trip(v: Value) {
    let codec = JsonCodec;
    let encoded = codec.encode(&v).unwrap();
    let back = codec.decode(encoded).unwrap();
    assert_eq!(back, v);
}

#[test]
fn round_trip_ints_and_pairs() {
    round_trip(Value::Int(0));
    round_trip(Value::Int(36));
    round_trip(Value::Int(-1));
    round_trip(Value::Int(i64::MAX));
    round_trip(Value::Int(i64::MIN));
    round_trip(Value::Pair(12, 3));
    round_trip(Value::Pair(-12, -3));
    round_trip(Value::Pair(0, i64::MIN));
    round_trip(Value::Pair(i64::MAX, 0));
}

#[test]
fn exact_canonical_encodings() {
    assert_eq!(encode_value(&Value::Pair(12, 3)), b"[12,3]".to_vec());
    assert_eq!(encode_value(&Value::Int(36)), b"36".to_vec());
    assert_eq!(encode_value(&Value::Int(0)), b"0".to_vec());
    assert_eq!(encode_value(&Value::Int(-5)), b"-5".to_vec());
    assert_eq!(
        encode_value(&Value::Int(i64::MIN)),
        b"-9223372036854775808".to_vec()
    );
    assert_eq!(
        encode_value(&Value::Int(i64::MAX)),
        b"9223372036854775807".to_vec()
    );
}

#[test]
fn decode_accepts_exactly_the_canonical_forms() {
    assert_eq!(decode_value(&b"36".to_vec()), Some(Value::Int(36)));
    assert_eq!(decode_value(&b"[12,3]".to_vec()), Some(Value::Pair(12, 3)));
    assert_eq!(decode_value(&b"[-1,-2]".to_vec()), Some(Value::Pair(-1, -2)));

    assert_eq!(decode_value(&b"".to_vec()), None);
    assert_eq!(decode_value(&b"01".to_vec()), None);
    assert_eq!(decode_value(&b"-0".to_vec()), None);
    assert_eq!(decode_value(&b"[1,2".to_vec()), None);
    assert_eq!(decode_value(&b"[1, 2]".to_vec()), None);
    assert_eq!(decode_value(&b"1,2".to_vec()), None);
    assert_eq!(decode_value(&b"[1,2,3]".to_vec()), None);
    assert_eq!(decode_value(&b"9223372036854775808".to_vec()), None);
    assert_eq!(
        decode_value(&b"-9223372036854775809".to_vec()),
        None
    );
}

#[test]
fn decode_failure_is_a_decode_error() {
    let r = JsonCodec.decode(JsonData::from_bytes(b"not json".to_vec()));
    assert!(matches!(r, Err(Error::Decode(_))));
}

#[test]
fn typed_encode_decode_shapes() {
    let codec = JsonCodec;
    let d = <JsonCodec as EncodeFor<JsonCodec, (i64, i64)>>::encode(&codec, (12, 3)).unwrap();
    let back = <JsonCodec as DecodeFor<JsonCodec, (i64, i64)>>::decode(&codec, d).unwrap();
    assert_eq!(back, (12, 3));

    let d = <JsonCodec as EncodeFor<JsonCodec, i64>>::encode(&codec, -44).unwrap();
    let back = <JsonCodec as DecodeFor<JsonCodec, i64>>::decode(&codec, d).unwrap();
    assert_eq!(back, -44);

    // Decoding a pair as a single integer is a decode error.
    let d = <JsonCodec as EncodeFor<JsonCodec, (i64, i64)>>::encode(&codec, (1, 2)).unwrap();
    let r = <JsonCodec as DecodeFor<JsonCodec, i64>>::decode(&codec, d);
    assert!(matches!(r, Err(Error::Decode(_))));
}

#[test]
fn canonical_bytes_agree_with_a_json_parser() {
    let ours = encode_value(&Value::Pair(12, 3));
    let parsed: (i64, i64) = serde_json::from_slice(&ours).unwrap();
    assert_eq!(parsed, (12, 3));
    assert_eq!(serde_json::to_vec(&(12i64, 3i64)).unwrap(), ours);

    let ours = encode_value(&Value::Int(-36));
    let parsed: i64 = serde_json::from_slice(&ours).unwrap();
    assert_eq!(parsed, -36);
    assert_eq!(serde_json::to_vec(&-36i64).unwrap(), ours);
}

#[test]
fn serde_variant_round_trips() {
    let serde = JsonSerde;
    let bytes = serde.serialize(&Value::Pair(7, -9)).unwrap();
    assert_eq!(bytes, b"[7,-9]".to_vec());
    assert_eq!(serde.deserialize(bytes), Ok(Value::Pair(7, -9)));

    let r = serde.deserialize(b"[[1],2]".to_vec());
    assert!(matches!(r, Err(Error::Decode(_))));
}

#[test]
fn components_expose_their_serializer() {
    let adder = Adder::new();
    let serde = adder.serde();
    let bytes = serde.serialize(&Value::Int(3)).unwrap();
    assert_eq!(bytes, b"3".to_vec());
}

#[test]
fn value_accessors() {
    assert_eq!(Value::Int(5).as_int(), Some(5));
    assert_eq!(Value::Int(5).as_pair(), None);
    assert_eq!(Value::Pair(1, 2).as_pair(), Some((1, 2)));
    assert_eq!(Value::Pair(1, 2).as_int(), None);
    assert_eq!(Value::args(4, 5), Value::Pair(4, 5));
}
