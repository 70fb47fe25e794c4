use yaps::actor_handle::{codec_step, Actor};
use yaps::error::Error;
use yaps::json::{encode_value, JsonCodec, JsonData};
use yaps::value::Value;

fn payload(n: i64) -> JsonData {
    JsonData::from_bytes(encode_value(&Value::Int(n)))
}

#[test]
fn serialization_of_concurrent_calls() {
    // Many enqueuers, one serial executor: each request increments the
    // actor's private counter; after the run the counter counted every
    // request, one reply each, none lost.
    let increment = |s: u64, d: JsonData| -> (u64, Result<JsonData, Error>) { (s + 1, Ok(d)) };
    let mut actor = Actor::spawn(increment, 0u64);

    let n = 25;
    for k in 0..n {
        actor.send(payload(k)).unwrap();
    }
    assert_eq!(actor.pending(), n as usize);

    let (actor, replies) = actor.run();
    assert_eq!(replies.len(), n as usize);
    assert!(replies.iter().all(|r| r.is_ok()));
    assert_eq!(*actor.state(), n as u64);
    assert_eq!(actor.pending(), 0);
}

#[test]
fn replies_arrive_in_submission_order() {
    let echo = |s: (), d: JsonData| -> ((), Result<JsonData, Error>) { (s, Ok(d)) };
    let mut actor = Actor::spawn(echo, ());
    actor.send(payload(1)).unwrap();
    actor.send(payload(2)).unwrap();
    actor.send(payload(3)).unwrap();
    let (_, replies) = actor.run();
    let got: Vec<JsonData> = replies.into_iter().map(|r| r.unwrap()).collect();
    assert_eq!(got[0].bytes(), payload(1).bytes());
    assert_eq!(got[1].bytes(), payload(2).bytes());
    assert_eq!(got[2].bytes(), payload(3).bytes());
}

#[test]
fn actor_teardown_fails_pending_calls() {
    let echo = |s: (), d: JsonData| -> ((), Result<JsonData, Error>) { (s, Ok(d)) };
    let mut actor = Actor::spawn(echo, ());
    actor.send(payload(1)).unwrap();
    actor.send(payload(2)).unwrap();

    let replies = actor.shutdown();
    assert_eq!(replies.len(), 2);
    for r in replies {
        assert!(matches!(r, Err(Error::HandlerInvalidated)));
    }
}

#[test]
fn send_to_closed_endpoint_fails_with_channel_send() {
    let echo = |s: (), d: JsonData| -> ((), Result<JsonData, Error>) { (s, Ok(d)) };
    let mut actor = Actor::spawn(echo, ());
    actor.close();
    let r = actor.send(payload(9));
    assert!(matches!(r, Err(Error::ChannelSend(_))));
}

#[test]
fn codec_step_applies_a_typed_implementation() {
    let sum_pair = |s: u64, v: Value| -> (u64, Result<Value, Error>) {
        match v {
            Value::Pair(a, b) => (s + 1, Ok(Value::Int(a.wrapping_add(b)))),
            Value::Int(_) => (s, Err(Error::Decode(String::from("expected a pair")))),
        }
    };

    let (count, reply) = codec_step(&JsonCodec, &sum_pair, 0u64, pair_payload(3, 4));
    assert_eq!(count, 1);
    assert_eq!(reply.unwrap().bytes(), &b"7".to_vec());

    // A payload that is no encoding leaves the state unchanged.
    let bad = JsonData::from_bytes(b"nonsense".to_vec());
    let (count, reply) = codec_step(&JsonCodec, &sum_pair, 9u64, bad);
    assert_eq!(count, 9);
    assert!(matches!(reply, Err(Error::Decode(_))));
}

fn pair_payload(a: i64, b: i64) -> JsonData {
    JsonData::from_bytes(encode_value(&Value::Pair(a, b)))
}
