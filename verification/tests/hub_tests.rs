use yaps::codec::{Codec, DecodeFor};
use yaps::consumer_provider::FuncProvider;
use yaps::error::Error;
use yaps::func_handle::{FuncHandle, SimpleHandle};
use yaps::json::{encode_value, JsonCodec, JsonData};
use yaps::local_hub::LocalHub;
use yaps::plugins::{Adder, CalcPlugin, Multiplier};
use yaps::single_provider::SingleProvider;
use yaps::value::Value;

fn pair_payload(a: i64, b: i64) -> JsonData {
    JsonData::from_bytes(encode_value(&Value::Pair(a, b)))
}

fn decode_int(codec: &JsonCodec, d: JsonData) -> Result<i64, Error> {
    <JsonCodec as DecodeFor<JsonCodec, i64>>::decode(codec, d)
}

#[test]
fn single_provider_test() {
    let mut hub: LocalHub<JsonData, CalcPlugin> = LocalHub::new();

    let adder = CalcPlugin::Adder(Adder::new());
    let multiplier = CalcPlugin::Multiplier(Multiplier::new());

    hub.add_provider(adder).unwrap();
    hub.add_plugin(multiplier).unwrap();

    let func = hub.get_func(&String::from("mult")).unwrap();

    let codec = JsonCodec;
    let data = codec.encode(&Value::Pair(12, 3)).unwrap();
    let result = func.call(data);
    let result: Result<i64, Error> = decode_int(&codec, result.unwrap());

    assert_eq!(result, Ok(36));

    let func = hub.get_func(&String::from("div")).unwrap();

    let codec = JsonCodec;
    let data = codec.encode(&Value::Pair(13, 3)).unwrap();
    let result = func.call(data);
    let result: Result<i64, Error> = decode_int(&codec, result.unwrap());

    assert_eq!(result, Ok(4));
}

#[test]
fn unknown_function_fails_regardless_of_registrations() {
    let mut hub: LocalHub<JsonData, CalcPlugin> = LocalHub::new();

    let r = hub.get_func(&String::from("missing"));
    assert!(matches!(r, Err(Error::FunctionNotFound(ref s)) if s == "missing"));

    hub.add_provider(CalcPlugin::Adder(Adder::new())).unwrap();
    hub.add_plugin(CalcPlugin::Multiplier(Multiplier::new())).unwrap();

    let r = hub.get_func(&String::from("missing"));
    assert!(matches!(r, Err(Error::FunctionNotFound(ref s)) if s == "missing"));
}

#[test]
fn first_writer_wins_on_collision() {
    let make = |k: i64| {
        move |_d: JsonData| -> Result<JsonData, Error> {
            Ok(JsonData::from_bytes(encode_value(&Value::Int(k))))
        }
    };
    let p1 = SingleProvider::new(String::from("X"), make(1));
    let p2 = SingleProvider::new(String::from("X"), make(2));

    let mut hub: LocalHub<JsonData, SingleProvider<JsonData, _>> = LocalHub::new();
    hub.add_provider(p1).unwrap();
    hub.add_provider(p2).unwrap();

    let h = hub.get_func(&String::from("X")).unwrap();
    let reply = h.call(pair_payload(0, 0)).unwrap();
    let got = decode_int(&JsonCodec, reply).unwrap();
    assert_eq!(got, 1);
}

#[test]
fn unbound_extern_fails_cleanly_then_binds() {
    let mut hub: LocalHub<JsonData, CalcPlugin> = LocalHub::new();
    hub.add_plugin(CalcPlugin::Multiplier(Multiplier::new())).unwrap();

    let f = hub.get_func(&String::from("mult")).unwrap();
    let r = f.call(pair_payload(3, 4));
    assert!(matches!(r, Err(Error::FunctionNotInitialized(ref s)) if s == "add"));

    hub.add_provider(CalcPlugin::Adder(Adder::new())).unwrap();

    let f = hub.get_func(&String::from("mult")).unwrap();
    let reply = f.call(pair_payload(3, 4)).unwrap();
    assert_eq!(decode_int(&JsonCodec, reply), Ok(12));
}

#[test]
fn div_needs_both_externs() {
    let mut hub: LocalHub<JsonData, CalcPlugin> = LocalHub::new();
    hub.add_plugin(CalcPlugin::Multiplier(Multiplier::new())).unwrap();
    hub.add_provider(CalcPlugin::Adder(Adder::new())).unwrap();

    let f = hub.get_func(&String::from("div")).unwrap();
    let reply = f.call(pair_payload(20, 6)).unwrap();
    assert_eq!(decode_int(&JsonCodec, reply), Ok(3));

    // A quotient below one needs no extern call at all.
    let f = hub.get_func(&String::from("div")).unwrap();
    let reply = f.call(pair_payload(2, 3)).unwrap();
    assert_eq!(decode_int(&JsonCodec, reply), Ok(0));
}

#[test]
fn hub_catalog_is_concatenation_in_registration_order() {
    let mut hub: LocalHub<JsonData, CalcPlugin> = LocalHub::new();
    hub.add_provider(CalcPlugin::Adder(Adder::new())).unwrap();
    hub.add_plugin(CalcPlugin::Multiplier(Multiplier::new())).unwrap();

    let funcs = hub.provided_funcs().unwrap();
    let ids: Vec<String> = funcs.into_iter().map(|f| f.id).collect();
    assert_eq!(ids, vec!["add", "sub", "mult", "div"]);
}

#[test]
fn mult_with_zero_and_negative_count() {
    let mut hub: LocalHub<JsonData, CalcPlugin> = LocalHub::new();
    hub.add_provider(CalcPlugin::Adder(Adder::new())).unwrap();
    hub.add_plugin(CalcPlugin::Multiplier(Multiplier::new())).unwrap();

    let f = hub.get_func(&String::from("mult")).unwrap();
    let reply = f.call(pair_payload(7, 0)).unwrap();
    assert_eq!(decode_int(&JsonCodec, reply), Ok(0));

    let f = hub.get_func(&String::from("mult")).unwrap();
    let reply = f.call(pair_payload(7, -2)).unwrap();
    assert_eq!(decode_int(&JsonCodec, reply), Ok(0));
}

#[test]
fn simple_handle_calls_its_function() {
    let double = |d: JsonData| -> Result<JsonData, Error> {
        let v = JsonCodec.decode(d)?;
        match v {
            Value::Int(n) => Ok(JsonData::from_bytes(encode_value(&Value::Int(n * 2)))),
            Value::Pair(..) => Err(Error::Decode(String::from("expected an integer"))),
        }
    };
    let h = SimpleHandle::new(double);
    let reply = h.call(JsonData::from_bytes(encode_value(&Value::Int(21)))).unwrap();
    assert_eq!(decode_int(&JsonCodec, reply), Ok(42));
}

#[test]
fn call_with_codec_round_trips_through_a_handle() {
    let echo = |d: JsonData| -> Result<JsonData, Error> { Ok(d) };
    let h = SimpleHandle::new(echo);
    let out = h.call_with_codec(&JsonCodec, &Value::Pair(5, -7)).unwrap();
    assert_eq!(out, Value::Pair(5, -7));
}

#[test]
fn adder_methods_compute_wrapping_arithmetic() {
    let a = Adder::new();
    assert_eq!(a.add(2, 3), 5);
    assert_eq!(a.subtract(2, 3), -1);
    assert_eq!(a.add(i64::MAX, 1), i64::MIN);
    assert_eq!(a.subtract(i64::MIN, 1), i64::MAX);
}

#[test]
fn consumer_role_does_not_provide() {
    let mut hub: LocalHub<JsonData, CalcPlugin> = LocalHub::new();
    hub.add_provider(CalcPlugin::Adder(Adder::new())).unwrap();
    // Registered as a consumer only: it binds its externs but its own
    // exports are not part of the hub's catalog.
    hub.add_consumer(CalcPlugin::Multiplier(Multiplier::new())).unwrap();

    let r = hub.get_func(&String::from("mult"));
    assert!(matches!(r, Err(Error::FunctionNotFound(_))));

    let funcs = hub.provided_funcs().unwrap();
    let ids: Vec<String> = funcs.into_iter().map(|f| f.id).collect();
    assert_eq!(ids, vec!["add", "sub"]);
}
