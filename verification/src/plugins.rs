//! Example plugins: an arithmetic provider and two consumers built on it.
//!
//! `Adder` exports the primitive functions; `Multiplier` requires them as
//! externs and exports multiplication and division computed through them;
//! `Calculator` requires them and exports a small formula. Handles are a
//! closed set of forwarder shapes over the primitive operations, so every
//! handle value is plain data (`Copy`) and a snapshot of a bound slot is
//! exactly the bound handle. A consumer's slot starts as a vacant sentinel
//! and is bound at most once, to an arithmetic handle it understands.

use vstd::prelude::*;

use crate::consumer_provider::{advertises, catalog_ids, FuncConsumer, FuncMetadata, FuncProvider};
use crate::error::Error;
use crate::func_handle::FuncHandle;
use crate::orchestrator::{orch_plugin_set, orch_resolution_map, Orchestrator, PluginConnector};
use crate::json::{decode_value, encode_value, json_bytes, lemma_json_round_trip, parse_value, JsonData};
use crate::value::Value;

verus! {

/// The name a vacant extern slot reports when called before binding.
#[derive(Debug, Clone, Copy, PartialEq, Eq, Structural)]
pub enum ExternName {
    /// The `add` extern.
    AddExtern,
    /// The `sub` extern.
    SubExtern,
    /// The `calculate` extern.
    CalculateExtern,
}

/// The id a vacant slot's name stands for.
pub open spec fn extern_id(n: ExternName) -> Seq<char> {
    match n {
        ExternName::AddExtern => "add"@,
        ExternName::SubExtern => "sub"@,
        ExternName::CalculateExtern => "calculate"@,
    }
}

/// The id as an owned string, for error values.
pub fn extern_id_string(n: ExternName) -> (s: String)
    ensures
        s@ == extern_id(n),
{
    match n {
        ExternName::AddExtern => String::from_str("add"),
        ExternName::SubExtern => String::from_str("sub"),
        ExternName::CalculateExtern => String::from_str("calculate"),
    }
}

/// One of the two primitive arithmetic functions.
#[derive(Debug, Clone, Copy, PartialEq, Eq, Structural)]
pub enum ArithOp {
    /// Wrapping addition.
    AddOp,
    /// Wrapping subtraction.
    SubOp,
}

/// An extern slot for a primitive function: vacant until a provider
/// advertising the id appears, then bound once.
#[derive(Debug, Clone, Copy, PartialEq, Eq, Structural)]
pub enum Slot {
    /// Not yet bound; calls through it fail with `FunctionNotInitialized`.
    Vacant(ExternName),
    /// Bound to a primitive handle.
    Op(ArithOp),
}

/// An extern slot for the calculate function.
#[derive(Debug, Clone, Copy, PartialEq, Eq, Structural)]
pub enum CalcSlot {
    /// Not yet bound.
    Vacant(ExternName),
    /// Bound to a calculate handle, itself carrying two primitive slots.
    Bound(Slot, Slot),
}

/// A callable handle in the example world: a primitive operation or a
/// forwarder that reaches other functions through its captured slots.
#[derive(Debug, Clone, Copy, PartialEq, Eq, Structural)]
pub enum CalcHandle {
    /// An extern slot that was never bound.
    Unbound(ExternName),
    /// A primitive operation.
    Arith(ArithOp),
    /// Multiplication by repeated addition through the captured slot.
    Mult(Slot),
    /// Division by repeated subtraction, counting through `add`.
    Div(Slot, Slot),
    /// The calculate formula over the two primitive slots.
    Calculate(Slot, Slot),
    /// A forwarder to a bound calculate handle, shifting both arguments
    /// up by one first.
    Forward(CalcSlot),
}

/// Wrapping addition, the semantics of the `add` export.
pub open spec fn wadd(a: i64, b: i64) -> i64 {
    vstd::wrapping::i64_specs::wrapping_add(a, b)
}

/// Wrapping subtraction, the semantics of the `sub` export.
pub open spec fn wsub(a: i64, b: i64) -> i64 {
    vstd::wrapping::i64_specs::wrapping_sub(a, b)
}

/// The result of one primitive operation.
pub open spec fn arith_spec(op: ArithOp, a: i64, b: i64) -> i64 {
    match op {
        ArithOp::AddOp => wadd(a, b),
        ArithOp::SubOp => wsub(a, b),
    }
}

/// `b` repeated additions of `a`, the semantics of `mult` when its extern
/// is bound to addition; zero for a nonpositive count.
pub open spec fn mult_spec(a: i64, b: i64) -> i64
    decreases b,
{
    if b <= 0 {
        0
    } else {
        wadd(mult_spec(a, (b - 1) as i64), a)
    }
}

/// How many times `b` can be subtracted from `a` before the remainder
/// drops below `b`; the semantics of `div` on bound externs.
pub open spec fn div_steps(a: int, b: int) -> int
    decreases a,
{
    if b <= 0 || a < b || a < 0 {
        0
    } else {
        1 + div_steps(a - b, b)
    }
}

/// The calculate formula: with `add` and `sub` bound to the primitives,
/// `calculate(a, b)` doubles `a` twice, doubles `b` once, and subtracts.
pub open spec fn calc_spec(a: i64, b: i64) -> i64 {
    wsub(wadd(wadd(a, a), wadd(a, a)), wadd(b, b))
}

/// The reply is the canonical rendering of the integer `n`.
pub open spec fn r_is_int(r: Result<JsonData, Error>, n: i64) -> bool {
    r matches Ok(d) && d@ == json_bytes(Value::Int(n))
}

/// The reply is `FunctionNotInitialized` naming `id`.
pub open spec fn r_is_fni(r: Result<JsonData, Error>, id: Seq<char>) -> bool {
    r matches Err(e) && (e matches Error::FunctionNotInitialized(s) && s@ == id)
}

/// The reply is a decode failure.
pub open spec fn r_is_dec(r: Result<JsonData, Error>) -> bool {
    r matches Err(e) && e is Decode
}

/// Behavior of the `mult` forwarder, by the state of its `add` slot.
pub open spec fn mult_ens(add: Slot, din: Seq<u8>, r: Result<JsonData, Error>) -> bool {
    match parse_value(din) {
        Some(Value::Pair(a, b)) => if b <= 0 {
            r_is_int(r, 0)
        } else {
            match add {
                Slot::Op(ArithOp::AddOp) => r_is_int(r, mult_spec(a, b)),
                Slot::Vacant(n) => r_is_fni(r, extern_id(n)),
                Slot::Op(ArithOp::SubOp) => true,
            }
        },
        _ => r_is_dec(r),
    }
}

/// Behavior of the `div` forwarder, by the state of its two slots.
pub open spec fn div_ens(add: Slot, sub: Slot, din: Seq<u8>, r: Result<JsonData, Error>) -> bool {
    match parse_value(din) {
        Some(Value::Pair(a, b)) => if b <= 0 || a < b {
            r_is_int(r, 0)
        } else {
            match (add, sub) {
                (Slot::Op(ArithOp::AddOp), Slot::Op(ArithOp::SubOp)) => r_is_int(
                    r,
                    div_steps(a as int, b as int) as i64,
                ),
                (Slot::Vacant(n), _) => r_is_fni(r, extern_id(n)),
                (Slot::Op(ArithOp::AddOp), Slot::Vacant(n)) => r_is_fni(r, extern_id(n)),
                _ => true,
            }
        },
        _ => r_is_dec(r),
    }
}

/// Behavior of the calculate export, by the state of its two slots.
pub open spec fn calc_ens(add: Slot, sub: Slot, din: Seq<u8>, r: Result<JsonData, Error>) -> bool {
    match parse_value(din) {
        Some(Value::Pair(a, b)) => match (add, sub) {
            (Slot::Op(ArithOp::AddOp), Slot::Op(ArithOp::SubOp)) => r_is_int(r, calc_spec(a, b)),
            (Slot::Vacant(n), _) => r_is_fni(r, extern_id(n)),
            (Slot::Op(ArithOp::AddOp), Slot::Vacant(n)) => r_is_fni(r, extern_id(n)),
            _ => true,
        },
        _ => r_is_dec(r),
    }
}

/// Behavior of the calculate forwarder, by the state of its slot.
pub open spec fn fwd_ens(calc: CalcSlot, din: Seq<u8>, r: Result<JsonData, Error>) -> bool {
    match parse_value(din) {
        Some(Value::Pair(a, b)) => match calc {
            CalcSlot::Vacant(n) => r_is_fni(r, extern_id(n)),
            CalcSlot::Bound(add, sub) => match (add, sub) {
                (Slot::Op(ArithOp::AddOp), Slot::Op(ArithOp::SubOp)) => r_is_int(
                    r,
                    calc_spec(wadd(a, 1), wadd(b, 1)),
                ),
                (Slot::Vacant(n), _) => r_is_fni(r, extern_id(n)),
                (Slot::Op(ArithOp::AddOp), Slot::Vacant(n)) => r_is_fni(r, extern_id(n)),
                _ => true,
            },
        },
        _ => r_is_dec(r),
    }
}

/// What each handle shape promises of every call outcome.
pub open spec fn handle_ens(h: CalcHandle, din: Seq<u8>, r: Result<JsonData, Error>) -> bool {
    match h {
        CalcHandle::Unbound(n) => r_is_fni(r, extern_id(n)),
        CalcHandle::Arith(op) => match parse_value(din) {
            Some(Value::Pair(a, b)) => r_is_int(r, arith_spec(op, a, b)),
            _ => r_is_dec(r),
        },
        CalcHandle::Mult(add) => mult_ens(add, din, r),
        CalcHandle::Div(add, sub) => div_ens(add, sub, din, r),
        CalcHandle::Calculate(add, sub) => calc_ens(add, sub, din, r),
        CalcHandle::Forward(calc) => fwd_ens(calc, din, r),
    }
}

/// Repeated subtraction is division: for a nonnegative dividend and a
/// positive divisor, the subtraction count is the integer quotient.
pub proof fn lemma_div_steps_is_division(a: int, b: int)
    requires
        0 <= a,
        0 < b,
    ensures
        div_steps(a, b) == a / b,
    decreases a,
{
    if a < b {
        vstd::arithmetic::div_mod::lemma_basic_div(a, b);
    } else {
        lemma_div_steps_is_division(a - b, b);
        vstd::arithmetic::div_mod::lemma_div_plus_one(a - b, b);
        assert(b + (a - b) == a);
    }
}

/// Repeated addition is multiplication: when the product fits an `i64`,
/// `b` additions of `a` compute exactly `a * b`. Every partial sum lies
/// between `0` and the product, so no step wraps.
pub proof fn lemma_mult_spec_is_product(a: i64, b: i64)
    requires
        0 <= b,
        i64::MIN <= a * b <= i64::MAX,
    ensures
        mult_spec(a, b) == a * b,
    decreases b,
{
    if b > 0 {
        assert(i64::MIN <= a * (b - 1) <= i64::MAX && a * (b - 1) + a == a * b) by (nonlinear_arith)
            requires
                0 < b,
                i64::MIN <= a * b <= i64::MAX,
        ;
        lemma_mult_spec_is_product(a, (b - 1) as i64);
    } else {
        assert(a * 0 == 0) by (nonlinear_arith);
    }
}

/// `div_steps` counts at most `a` subtractions and never a negative
/// number of them.
proof fn lemma_div_steps_bounds(a: int, b: int)
    requires
        0 <= a,
    ensures
        0 <= div_steps(a, b) <= a,
    decreases a,
{
    if !(b <= 0 || a < b || a < 0) {
        lemma_div_steps_bounds(a - b, b);
    }
}

/// Call through a slot: a vacant slot fails with its extern's id; a
/// bound primitive computes in place, the in-process form of one call
/// across the payload boundary.
fn call_slot(s: &Slot, x: i64, y: i64) -> (r: Result<i64, Error>)
    ensures
        *s matches Slot::Op(op) ==> r == Ok::<i64, Error>(arith_spec(op, x, y)),
        *s matches Slot::Vacant(n) ==> (r matches Err(e) && (e
            matches Error::FunctionNotInitialized(id) && id@ == extern_id(n))),
{
    match s {
        Slot::Vacant(n) => Err(Error::FunctionNotInitialized(extern_id_string(*n))),
        Slot::Op(ArithOp::AddOp) => Ok(x.wrapping_add(y)),
        Slot::Op(ArithOp::SubOp) => Ok(x.wrapping_sub(y)),
    }
}

/// The calculate formula through two slots: double `a` twice, double
/// `b` once, subtract; the first vacant slot reached decides the error.
fn run_calculate(add: &Slot, sub: &Slot, a: i64, b: i64) -> (r: Result<i64, Error>)
    ensures
        (*add == Slot::Op(ArithOp::AddOp) && *sub == Slot::Op(ArithOp::SubOp)) ==> r == Ok::<
            i64,
            Error,
        >(calc_spec(a, b)),
        *add matches Slot::Vacant(n) ==> (r matches Err(e) && (e
            matches Error::FunctionNotInitialized(id) && id@ == extern_id(n))),
        *add == Slot::Op(ArithOp::AddOp) ==> (*sub matches Slot::Vacant(n) ==> (r matches Err(e)
            && (e matches Error::FunctionNotInitialized(id) && id@ == extern_id(n)))),
{
    let a1 = match call_slot(add, a, a) {
        Ok(n) => n,
        Err(e) => {
            return Err(e);
        },
    };
    let a2 = match call_slot(add, a1, a1) {
        Ok(n) => n,
        Err(e) => {
            return Err(e);
        },
    };
    let b1 = match call_slot(add, b, b) {
        Ok(n) => n,
        Err(e) => {
            return Err(e);
        },
    };
    let res = match call_slot(sub, a2, b1) {
        Ok(n) => n,
        Err(e) => {
            return Err(e);
        },
    };
    Ok(res)
}

impl CalcHandle {
    /// Interpret one call: decode the payload, do this shape's work
    /// through its slots, encode the reply.
    #[verifier::loop_isolation(false)]
    #[verifier::rlimit(60)]
    pub fn run(&self, args: JsonData) -> (r: Result<JsonData, Error>)
        ensures
            handle_ens(*self, args@, r),
    {
        match self {
            CalcHandle::Unbound(n) => Err(Error::FunctionNotInitialized(extern_id_string(*n))),
            CalcHandle::Arith(op) => {
                let v = match decode_value(args.bytes()) {
                    Some(v) => v,
                    None => {
                        return Err(Error::Decode(String::from_str("expected a pair")));
                    },
                };
                match v {
                    Value::Pair(a, b) => {
                        let n = match op {
                            ArithOp::AddOp => a.wrapping_add(b),
                            ArithOp::SubOp => a.wrapping_sub(b),
                        };
                        Ok(JsonData::from_bytes(encode_value(&Value::Int(n))))
                    },
                    _ => Err(Error::Decode(String::from_str("expected a pair"))),
                }
            },
            CalcHandle::Mult(add) => {
                let v = match decode_value(args.bytes()) {
                    Some(Value::Pair(a, b)) => (a, b),
                    _ => {
                        return Err(Error::Decode(String::from_str("expected a pair")));
                    },
                };
                let (a, b) = v;
                if b <= 0 {
                    return Ok(JsonData::from_bytes(encode_value(&Value::Int(0))));
                }
                let mut sum: i64 = 0;
                let mut k: i64 = 0;
                while k < b
                    invariant
                        0 <= k <= b,
                        *add matches Slot::Op(ArithOp::AddOp) ==> sum == mult_spec(a, k),
                        *add matches Slot::Vacant(_) ==> k == 0,
                    decreases b - k,
                {
                    match call_slot(add, sum, a) {
                        Ok(n) => {
                            sum = n;
                        },
                        Err(e) => {
                            return Err(e);
                        },
                    }
                    k += 1;
                }
                Ok(JsonData::from_bytes(encode_value(&Value::Int(sum))))
            },
            CalcHandle::Div(add, sub) => {
                let v = match decode_value(args.bytes()) {
                    Some(Value::Pair(a, b)) => (a, b),
                    _ => {
                        return Err(Error::Decode(String::from_str("expected a pair")));
                    },
                };
                let (a0, b) = v;
                if b <= 0 || a0 < b {
                    return Ok(JsonData::from_bytes(encode_value(&Value::Int(0))));
                }
                let ghost proper = *add == Slot::Op(ArithOp::AddOp) && *sub == Slot::Op(
                    ArithOp::SubOp,
                );
                proof {
                    lemma_div_steps_bounds(a0 as int, b as int);
                }
                let mut a = a0;
                let mut i: i64 = 0;
                let mut fuel = a0;
                while a >= b && fuel > 0
                    invariant
                        b > 0,
                        a0 >= b,
                        0 <= fuel <= a0,
                        proper == (*add == Slot::Op(ArithOp::AddOp) && *sub == Slot::Op(
                            ArithOp::SubOp,
                        )),
                        proper ==> {
                            &&& 0 <= a
                            &&& 0 <= i
                            &&& fuel == a0 - i
                            &&& div_steps(a0 as int, b as int) == i + div_steps(a as int, b as int)
                            &&& i <= div_steps(a0 as int, b as int)
                        },
                        *add matches Slot::Vacant(_) ==> (fuel == a0 && a == a0),
                        (*add == Slot::Op(ArithOp::AddOp) && *sub matches Slot::Vacant(_)) ==> (
                        fuel == a0 && a == a0),
                    decreases fuel,
                {
                    proof {
                        if proper {
                            lemma_div_steps_bounds((a - b) as int, b as int);
                            assert(div_steps(a as int, b as int) >= 1);
                            assert(i < div_steps(a0 as int, b as int));
                            lemma_div_steps_bounds(a0 as int, b as int);
                        }
                    }
                    match call_slot(add, i, 1) {
                        Ok(n) => {
                            i = n;
                        },
                        Err(e) => {
                            return Err(e);
                        },
                    }
                    match call_slot(sub, a, b) {
                        Ok(n) => {
                            a = n;
                        },
                        Err(e) => {
                            return Err(e);
                        },
                    }
                    fuel = fuel - 1;
                }
                proof {
                    if proper {
                        if a >= b {
                            lemma_div_steps_bounds((a - b) as int, b as int);
                            assert(div_steps(a as int, b as int) >= 1);
                            lemma_div_steps_bounds(a0 as int, b as int);
                            assert(false);
                        }
                        assert(a < b);
                        assert(i == div_steps(a0 as int, b as int));
                    }
                }
                Ok(JsonData::from_bytes(encode_value(&Value::Int(i))))
            },
            CalcHandle::Calculate(add, sub) => {
                let v = match decode_value(args.bytes()) {
                    Some(Value::Pair(a, b)) => (a, b),
                    _ => {
                        return Err(Error::Decode(String::from_str("expected a pair")));
                    },
                };
                let (a, b) = v;
                let res = match run_calculate(add, sub, a, b) {
                    Ok(n) => n,
                    Err(e) => {
                        return Err(e);
                    },
                };
                Ok(JsonData::from_bytes(encode_value(&Value::Int(res))))
            },
            CalcHandle::Forward(calc) => {
                let v = match decode_value(args.bytes()) {
                    Some(Value::Pair(a, b)) => (a, b),
                    _ => {
                        return Err(Error::Decode(String::from_str("expected a pair")));
                    },
                };
                let (a, b) = v;
                match calc {
                    CalcSlot::Vacant(n) => Err(
                        Error::FunctionNotInitialized(extern_id_string(*n)),
                    ),
                    CalcSlot::Bound(add, sub) => {
                        let res = match run_calculate(add, sub, a.wrapping_add(1), b.wrapping_add(1)) {
                            Ok(n) => n,
                            Err(e) => {
                                return Err(e);
                            },
                        };
                        Ok(JsonData::from_bytes(encode_value(&Value::Int(res))))
                    },
                }
            },
        }
    }
}

impl FuncHandle<JsonData> for CalcHandle {
    /// Every handle accepts every payload.
    open spec fn call_req(&self, args: JsonData) -> bool {
        true
    }

    open spec fn call_ens(&self, args: JsonData, r: Result<JsonData, Error>) -> bool {
        handle_ens(*self, args@, r)
    }

    fn call(&self, args: JsonData) -> (r: Result<JsonData, Error>) {
        self.run(args)
    }
}


/// The arithmetic provider: exports `add` and `sub`, and owns a
/// once-settable slot for an external calculate function it can forward
/// to.
pub struct Adder {
    calc_slot: CalcSlot,
}

impl Adder {
    /// The calculate extern slot.
    pub closed spec fn calc_slot_spec(&self) -> CalcSlot {
        self.calc_slot
    }

    /// A fresh provider; its calculate extern starts unbound.
    pub fn new() -> (r: Adder)
        ensures
            r.calc_slot_spec() == CalcSlot::Vacant(ExternName::CalculateExtern),
    {
        Adder { calc_slot: CalcSlot::Vacant(ExternName::CalculateExtern) }
    }

    /// The `add` export: wrapping addition.
    pub fn add(&self, a: i64, b: i64) -> (r: i64)
        ensures
            r == wadd(a, b),
    {
        a.wrapping_add(b)
    }

    /// The `sub` export: wrapping subtraction.
    pub fn subtract(&self, a: i64, b: i64) -> (r: i64)
        ensures
            r == wsub(a, b),
    {
        a.wrapping_sub(b)
    }

    /// The `calculate` export: shift both arguments up by one and forward
    /// to the bound calculate extern; fails with `FunctionNotInitialized`
    /// while an extern on the path is unbound.
    pub fn calculate(&self, a: i64, b: i64) -> (r: Result<i64, Error>)
        ensures
            self.calc_slot_spec() matches CalcSlot::Vacant(n) ==> (r matches Err(e) && (e
                matches Error::FunctionNotInitialized(id) && id@ == extern_id(n))),
            self.calc_slot_spec() == CalcSlot::Bound(
                Slot::Op(ArithOp::AddOp),
                Slot::Op(ArithOp::SubOp),
            ) ==> r == Ok::<i64, Error>(calc_spec(wadd(a, 1), wadd(b, 1))),
    {
        match &self.calc_slot {
            CalcSlot::Vacant(n) => Err(Error::FunctionNotInitialized(extern_id_string(*n))),
            CalcSlot::Bound(add, sub) => run_calculate(add, sub, a.wrapping_add(1), b.wrapping_add(1)),
        }
    }
}

/// The consumer-and-provider plugin: requires `add` and `sub` as externs
/// and exports `mult` and `div` computed through them.
pub struct Multiplier {
    add_slot: Slot,
    sub_slot: Slot,
}

impl Multiplier {
    /// The `add` extern slot.
    pub closed spec fn add_slot_spec(&self) -> Slot {
        self.add_slot
    }

    /// The `sub` extern slot.
    pub closed spec fn sub_slot_spec(&self) -> Slot {
        self.sub_slot
    }

    /// A fresh plugin; both extern slots start unbound.
    pub fn new() -> (r: Multiplier)
        ensures
            r.add_slot_spec() == Slot::Vacant(ExternName::AddExtern),
            r.sub_slot_spec() == Slot::Vacant(ExternName::SubExtern),
    {
        Multiplier {
            add_slot: Slot::Vacant(ExternName::AddExtern),
            sub_slot: Slot::Vacant(ExternName::SubExtern),
        }
    }
}

/// The formula consumer: requires `add` and `sub` and exports `calculate`.
pub struct Calculator {
    add_slot: Slot,
    sub_slot: Slot,
}

impl Calculator {
    /// The `add` extern slot.
    pub closed spec fn add_slot_spec(&self) -> Slot {
        self.add_slot
    }

    /// The `sub` extern slot.
    pub closed spec fn sub_slot_spec(&self) -> Slot {
        self.sub_slot
    }

    /// A fresh consumer; both extern slots start unbound.
    pub fn new() -> (r: Calculator)
        ensures
            r.add_slot_spec() == Slot::Vacant(ExternName::AddExtern),
            r.sub_slot_spec() == Slot::Vacant(ExternName::SubExtern),
    {
        Calculator {
            add_slot: Slot::Vacant(ExternName::AddExtern),
            sub_slot: Slot::Vacant(ExternName::SubExtern),
        }
    }

    /// The `calculate` export, computed through the two externs; fails
    /// with `FunctionNotInitialized` while one on the path is unbound.
    pub fn calculate(&self, a: i64, b: i64) -> (r: Result<i64, Error>)
        ensures
            (self.add_slot_spec() == Slot::Op(ArithOp::AddOp) && self.sub_slot_spec() == Slot::Op(
                ArithOp::SubOp,
            )) ==> r == Ok::<i64, Error>(calc_spec(a, b)),
            self.add_slot_spec() matches Slot::Vacant(n) ==> (r matches Err(e) && (e
                matches Error::FunctionNotInitialized(id) && id@ == extern_id(n))),
            self.add_slot_spec() == Slot::Op(ArithOp::AddOp) ==> (self.sub_slot_spec()
                matches Slot::Vacant(n) ==> (r matches Err(e) && (e
                matches Error::FunctionNotInitialized(id) && id@ == extern_id(n)))),
    {
        run_calculate(&self.add_slot, &self.sub_slot, a, b)
    }
}

/// How one extern slot changes when a provider is offered: a bound slot
/// is never rebound; a vacant slot binds exactly when the provider
/// advertises the id and resolves it to a primitive handle this plugin
/// understands, and stays vacant otherwise (in particular when the id is
/// not advertised).
pub open spec fn slot_connect<P: FuncProvider<JsonData, Handle = CalcHandle>>(
    pre: Slot,
    post: Slot,
    p: P,
    id: Seq<char>,
) -> bool {
    if pre matches Slot::Op(_) {
        post == pre
    } else if advertises(p.catalog(), id) {
        post == (match p.handle_of(id) {
            CalcHandle::Arith(op) => Slot::Op(op),
            _ => pre,
        })
    } else {
        post == pre
    }
}

/// Bind one vacant slot from a provider, if it advertises the id and
/// resolves it to a primitive handle this plugin understands.
fn connect_slot<P: FuncProvider<JsonData, Handle = CalcHandle>>(
    slot: &mut Slot,
    p: &P,
    name: ExternName,
) -> (r: Result<(), Error>)
    requires
        p.inv(),
    ensures
        r is Ok,
        slot_connect(*old(slot), *final(slot), *p, extern_id(name)),
{
    if let Slot::Op(_) = slot {
        return Ok(());
    }
    let id = extern_id_string(name);
    match p.get_func(&id) {
        Ok(CalcHandle::Arith(op)) => {
            *slot = Slot::Op(op);
        },
        Ok(_) => {
        },
        Err(_) => {
        },
    }
    Ok(())
}

/// The plugin universe a hub or orchestrator of this example wires
/// together.
pub enum CalcPlugin {
    /// The arithmetic provider.
    Adder(Adder),
    /// The multiplication plugin, consumer and provider.
    Multiplier(Multiplier),
}

impl FuncProvider<JsonData> for CalcPlugin {
    type Handle = CalcHandle;

    open spec fn inv(&self) -> bool {
        true
    }

    open spec fn catalog(&self) -> Seq<Seq<char>> {
        match self {
            CalcPlugin::Adder(_) => seq!["add"@, "sub"@],
            CalcPlugin::Multiplier(_) => seq!["mult"@, "div"@],
        }
    }

    open spec fn handle_of(&self, id: Seq<char>) -> CalcHandle {
        match self {
            CalcPlugin::Adder(_) => if id == "add"@ {
                CalcHandle::Arith(ArithOp::AddOp)
            } else {
                CalcHandle::Arith(ArithOp::SubOp)
            },
            CalcPlugin::Multiplier(m) => if id == "mult"@ {
                CalcHandle::Mult(m.add_slot_spec())
            } else {
                CalcHandle::Div(m.add_slot_spec(), m.sub_slot_spec())
            },
        }
    }

    open spec fn func_req(&self, id: Seq<char>, args: JsonData) -> bool {
        true
    }

    open spec fn func_ens(&self, id: Seq<char>, args: JsonData, r: Result<JsonData, Error>) -> bool {
        match self {
            CalcPlugin::Adder(_) => if id == "add"@ {
                handle_ens(CalcHandle::Arith(ArithOp::AddOp), args@, r)
            } else if id == "sub"@ {
                handle_ens(CalcHandle::Arith(ArithOp::SubOp), args@, r)
            } else {
                true
            },
            CalcPlugin::Multiplier(m) => if id == "mult"@ {
                mult_ens(m.add_slot_spec(), args@, r)
            } else if id == "div"@ {
                div_ens(m.add_slot_spec(), m.sub_slot_spec(), args@, r)
            } else {
                true
            },
        }
    }

    fn provided_funcs(&self) -> (r: Result<Vec<FuncMetadata>, Error>) {
        let mut v: Vec<FuncMetadata> = Vec::new();
        match self {
            CalcPlugin::Adder(_) => {
                v.push(FuncMetadata { id: String::from_str("add") });
                v.push(FuncMetadata { id: String::from_str("sub") });
            },
            CalcPlugin::Multiplier(_) => {
                v.push(FuncMetadata { id: String::from_str("mult") });
                v.push(FuncMetadata { id: String::from_str("div") });
            },
        }
        proof {
            assert(catalog_ids(v@) =~= self.catalog());
        }
        Ok(v)
    }

    fn get_func(&self, id: &String) -> (r: Result<CalcHandle, Error>) {
        match self {
            CalcPlugin::Adder(_) => {
                if *id == String::from_str("add") {
                    proof {
                        assert(self.catalog()[0] == id@);
                    }
                    Ok(CalcHandle::Arith(ArithOp::AddOp))
                } else if *id == String::from_str("sub") {
                    proof {
                        assert(self.catalog()[1] == id@);
                    }
                    Ok(CalcHandle::Arith(ArithOp::SubOp))
                } else {
                    proof {
                        assert(!advertises(self.catalog(), id@)) by {
                            assert(self.catalog()[0] == "add"@ && self.catalog()[1] == "sub"@);
                            assert(forall|i: int|
                                0 <= i < self.catalog().len() ==> #[trigger] self.catalog()[i]
                                    != id@);
                        }
                    }
                    Err(Error::FunctionNotFound(id.clone()))
                }
            },
            CalcPlugin::Multiplier(m) => {
                if *id == String::from_str("mult") {
                    proof {
                        assert(self.catalog()[0] == id@);
                    }
                    Ok(CalcHandle::Mult(m.add_slot))
                } else if *id == String::from_str("div") {
                    proof {
                        assert(self.catalog()[1] == id@);
                    }
                    Ok(CalcHandle::Div(m.add_slot, m.sub_slot))
                } else {
                    proof {
                        assert(!advertises(self.catalog(), id@)) by {
                            assert(self.catalog()[0] == "mult"@ && self.catalog()[1] == "div"@);
                            assert(forall|i: int|
                                0 <= i < self.catalog().len() ==> #[trigger] self.catalog()[i]
                                    != id@);
                        }
                    }
                    Err(Error::FunctionNotFound(id.clone()))
                }
            },
        }
    }
}

impl<P: FuncProvider<JsonData, Handle = CalcHandle>> FuncConsumer<JsonData, P> for CalcPlugin {
    open spec fn connect_ens(pre: Self, post: Self, p: P, r: Result<(), Error>) -> bool {
        &&& r is Ok
        &&& match pre {
            CalcPlugin::Adder(_) => post == pre,
            CalcPlugin::Multiplier(m) => post matches CalcPlugin::Multiplier(m2) && slot_connect(
                m.add_slot_spec(),
                m2.add_slot_spec(),
                p,
                "add"@,
            ) && slot_connect(m.sub_slot_spec(), m2.sub_slot_spec(), p, "sub"@),
        }
    }

    /// Bind whichever of this plugin's required externs the provider
    /// satisfies; ids it does not advertise are left unbound, which is
    /// not an error.
    fn connect(&mut self, provider: &P) -> (r: Result<(), Error>) {
        match self {
            CalcPlugin::Adder(_) => Ok(()),
            CalcPlugin::Multiplier(m) => {
                let _ = connect_slot(&mut m.add_slot, provider, ExternName::AddExtern);
                let _ = connect_slot(&mut m.sub_slot, provider, ExternName::SubExtern);
                Ok(())
            },
        }
    }
}

/// Connecting a plugin never changes its advertised catalog and keeps it
/// valid as a provider: the law the hub's wiring relies on.
pub proof fn lemma_calc_plugin_facet()
    ensures
        crate::local_hub::connect_keeps_provider_facet::<JsonData, CalcPlugin, CalcPlugin>(),
{
    assert forall|pre: CalcPlugin, post: CalcPlugin, p: CalcPlugin, r: Result<(), Error>|
        #[trigger] <CalcPlugin as FuncConsumer<JsonData, CalcPlugin>>::connect_ens(
        pre,
        post,
        p,
        r,
    ) implies (post.catalog() == pre.catalog() && (pre.inv() ==> post.inv())) by {
        match pre {
            CalcPlugin::Adder(_) => {
            },
            CalcPlugin::Multiplier(_) => {
                assert(post is Multiplier);
            },
        }
    }
}

/// No connect in the example plugin universe can fail, so hub
/// registration always succeeds there.
pub proof fn lemma_calc_plugin_connect_total()
    ensures
        crate::local_hub::connect_always_ok::<JsonData, CalcPlugin, CalcPlugin>(),
{
    assert forall|a: CalcPlugin, b: CalcPlugin, q: CalcPlugin, rr: Result<(), Error>|
        #[trigger] <CalcPlugin as FuncConsumer<JsonData, CalcPlugin>>::connect_ens(
        a,
        b,
        q,
        rr,
    ) implies rr is Ok by {
    }
}

/// An unbound extern fails cleanly: a call through the `mult` forwarder
/// whose `add` extern was never bound fails with `FunctionNotInitialized`
/// naming the extern, on every payload that asks for work.
pub proof fn lemma_unbound_extern_fails(
    m: Multiplier,
    args: JsonData,
    r: Result<JsonData, Error>,
)
    requires
        m.add_slot_spec() == Slot::Vacant(ExternName::AddExtern),
        handle_ens(CalcHandle::Mult(m.add_slot_spec()), args@, r),
        parse_value(args@) matches Some(Value::Pair(a, b)) && b > 0,
    ensures
        r_is_fni(r, "add"@),
{
}


/// How `Adder::init` changes its state, given the registry views: a
/// bound slot is kept; a failed resolution of the calculate key is
/// propagated with nothing changed; a resolved calculate handle is bound,
/// and a handle of another shape leaves the slot vacant.
pub open spec fn adder_init_ens(
    pre: Adder,
    post: Adder,
    plugins: Set<Seq<char>>,
    m: Map<(Seq<char>, Seq<char>), CalcHandle>,
    r: Result<(), Error>,
) -> bool {
    let key = ("Calculator"@, "calculate"@);
    if pre.calc_slot_spec() matches CalcSlot::Bound(_, _) {
        post.calc_slot_spec() == pre.calc_slot_spec() && r is Ok
    } else if !plugins.contains(key.0) {
        post.calc_slot_spec() == pre.calc_slot_spec() && (r matches Err(e) && (e
            matches Error::PluginNotFound(s) && s@ == key.0))
    } else if !m.dom().contains(key) {
        post.calc_slot_spec() == pre.calc_slot_spec() && (r matches Err(e) && (e
            matches Error::FunctionNotFound(s) && s@ == key.1))
    } else {
        r is Ok && post.calc_slot_spec() == (match m[key] {
            CalcHandle::Calculate(x, y) => CalcSlot::Bound(x, y),
            _ => pre.calc_slot_spec(),
        })
    }
}

/// The second phase of `Calculator::init`, binding the `sub` extern once
/// the `add` slot has reached `add2`.
pub open spec fn calculator_sub_phase(
    pre: Calculator,
    post: Calculator,
    add2: Slot,
    plugins: Set<Seq<char>>,
    m: Map<(Seq<char>, Seq<char>), CalcHandle>,
    r: Result<(), Error>,
) -> bool {
    let ks = ("Adder"@, "subtract"@);
    if pre.sub_slot_spec() matches Slot::Vacant(_) {
        if !plugins.contains(ks.0) {
            post.add_slot_spec() == add2 && post.sub_slot_spec() == pre.sub_slot_spec() && (r
                matches Err(e) && (e matches Error::PluginNotFound(s) && s@ == ks.0))
        } else if !m.dom().contains(ks) {
            post.add_slot_spec() == add2 && post.sub_slot_spec() == pre.sub_slot_spec() && (r
                matches Err(e) && (e matches Error::FunctionNotFound(s) && s@ == ks.1))
        } else {
            r is Ok && post.add_slot_spec() == add2 && post.sub_slot_spec() == (match m[ks] {
                CalcHandle::Arith(op) => Slot::Op(op),
                _ => pre.sub_slot_spec(),
            })
        }
    } else {
        r is Ok && post.add_slot_spec() == add2 && post.sub_slot_spec() == pre.sub_slot_spec()
    }
}

/// How `Calculator::init` changes its state, given the registry views:
/// each vacant slot is bound from its key in turn, and the first failing
/// resolution is propagated, keeping what was bound before it.
pub open spec fn calculator_init_ens(
    pre: Calculator,
    post: Calculator,
    plugins: Set<Seq<char>>,
    m: Map<(Seq<char>, Seq<char>), CalcHandle>,
    r: Result<(), Error>,
) -> bool {
    let ka = ("Adder"@, "add"@);
    if pre.add_slot_spec() matches Slot::Vacant(_) {
        if !plugins.contains(ka.0) {
            post.add_slot_spec() == pre.add_slot_spec() && post.sub_slot_spec()
                == pre.sub_slot_spec() && (r matches Err(e) && (e matches Error::PluginNotFound(s)
                && s@ == ka.0))
        } else if !m.dom().contains(ka) {
            post.add_slot_spec() == pre.add_slot_spec() && post.sub_slot_spec()
                == pre.sub_slot_spec() && (r matches Err(e) && (e
                matches Error::FunctionNotFound(s) && s@ == ka.1))
        } else {
            calculator_sub_phase(
                pre,
                post,
                match m[ka] {
                    CalcHandle::Arith(op) => Slot::Op(op),
                    _ => pre.add_slot_spec(),
                },
                plugins,
                m,
                r,
            )
        }
    } else {
        calculator_sub_phase(pre, post, pre.add_slot_spec(), plugins, m, r)
    }
}

impl Adder {
    /// Bind the calculate extern from the registry's calculate function,
    /// under the keyed convention; a resolution error propagates.
    pub fn init<O: Orchestrator<JsonData, Handle = CalcHandle>>(&mut self, orch: &O) -> (r: Result<
        (),
        Error,
    >)
        requires
            orch.inv(),
        ensures
            adder_init_ens(
                *old(self),
                *final(self),
                orch_plugin_set::<JsonData, O>(*orch),
                orch_resolution_map::<JsonData, O>(*orch),
                r,
            ),
    {
        if let CalcSlot::Bound(_, _) = self.calc_slot {
            return Ok(());
        }
        let key = (String::from_str("Calculator"), String::from_str("calculate"));
        match orch.get_func(&key) {
            Ok(CalcHandle::Calculate(a, s)) => {
                self.calc_slot = CalcSlot::Bound(a, s);
                Ok(())
            },
            Ok(_) => Ok(()),
            Err(e) => Err(e),
        }
    }
}

impl Calculator {
    /// Bind the two arithmetic externs from the registry's `Adder`
    /// plugin, under the keyed convention; a resolution error propagates.
    pub fn init<O: Orchestrator<JsonData, Handle = CalcHandle>>(&mut self, orch: &O) -> (r: Result<
        (),
        Error,
    >)
        requires
            orch.inv(),
        ensures
            calculator_init_ens(
                *old(self),
                *final(self),
                orch_plugin_set::<JsonData, O>(*orch),
                orch_resolution_map::<JsonData, O>(*orch),
                r,
            ),
    {
        if let Slot::Vacant(_) = self.add_slot {
            let key = (String::from_str("Adder"), String::from_str("add"));
            match orch.get_func(&key) {
                Ok(CalcHandle::Arith(op)) => {
                    self.add_slot = Slot::Op(op);
                },
                Ok(_) => {
                },
                Err(e) => {
                    return Err(e);
                },
            }
        }
        if let Slot::Vacant(_) = self.sub_slot {
            let key = (String::from_str("Adder"), String::from_str("subtract"));
            match orch.get_func(&key) {
                Ok(CalcHandle::Arith(op)) => {
                    self.sub_slot = Slot::Op(op);
                },
                Ok(_) => {
                },
                Err(e) => {
                    return Err(e);
                },
            }
        }
        Ok(())
    }
}

/// The plugin universe of the keyed registry: the same components,
/// addressed by plugin id.
pub enum KeyedPlugin {
    /// The arithmetic provider, exporting its formula too.
    Adder(Adder),
    /// The formula consumer.
    Calculator(Calculator),
}

impl PluginConnector<JsonData> for KeyedPlugin {
    type Handle = CalcHandle;

    open spec fn catalog(&self) -> Seq<Seq<char>> {
        match self {
            KeyedPlugin::Adder(_) => seq!["add"@, "subtract"@, "calculate"@],
            KeyedPlugin::Calculator(_) => seq!["calculate"@],
        }
    }

    open spec fn handle_of(&self, id: Seq<char>) -> CalcHandle {
        match self {
            KeyedPlugin::Adder(a) => if id == "add"@ {
                CalcHandle::Arith(ArithOp::AddOp)
            } else if id == "subtract"@ {
                CalcHandle::Arith(ArithOp::SubOp)
            } else {
                CalcHandle::Forward(a.calc_slot_spec())
            },
            KeyedPlugin::Calculator(c) => CalcHandle::Calculate(
                c.add_slot_spec(),
                c.sub_slot_spec(),
            ),
        }
    }

    open spec fn func_req(&self, id: Seq<char>, args: JsonData) -> bool {
        true
    }

    open spec fn func_ens(&self, id: Seq<char>, args: JsonData, r: Result<JsonData, Error>) -> bool {
        match self {
            KeyedPlugin::Adder(a) => if id == "add"@ {
                handle_ens(CalcHandle::Arith(ArithOp::AddOp), args@, r)
            } else if id == "subtract"@ {
                handle_ens(CalcHandle::Arith(ArithOp::SubOp), args@, r)
            } else if id == "calculate"@ {
                fwd_ens(a.calc_slot_spec(), args@, r)
            } else {
                true
            },
            KeyedPlugin::Calculator(c) => if id == "calculate"@ {
                calc_ens(c.add_slot_spec(), c.sub_slot_spec(), args@, r)
            } else {
                true
            },
        }
    }

    open spec fn init_ens(
        pre: Self,
        post: Self,
        plugins: Set<Seq<char>>,
        resolutions: Map<(Seq<char>, Seq<char>), CalcHandle>,
        r: Result<(), Error>,
    ) -> bool {
        match pre {
            KeyedPlugin::Adder(a) => post matches KeyedPlugin::Adder(a2) && adder_init_ens(
                a,
                a2,
                plugins,
                resolutions,
                r,
            ),
            KeyedPlugin::Calculator(c) => post matches KeyedPlugin::Calculator(c2)
                && calculator_init_ens(c, c2, plugins, resolutions, r),
        }
    }

    fn provided_funcs(&self) -> (r: Vec<String>) {
        let mut v: Vec<String> = Vec::new();
        match self {
            KeyedPlugin::Adder(_) => {
                v.push(String::from_str("add"));
                v.push(String::from_str("subtract"));
                v.push(String::from_str("calculate"));
            },
            KeyedPlugin::Calculator(_) => {
                v.push(String::from_str("calculate"));
            },
        }
        proof {
            assert(v@.map_values(|s: String| s@) =~= self.catalog());
        }
        v
    }

    fn get_func(&self, id: &String) -> (r: Result<CalcHandle, Error>) {
        match self {
            KeyedPlugin::Adder(a) => {
                if *id == String::from_str("add") {
                    proof {
                        assert(self.catalog()[0] == id@);
                    }
                    Ok(CalcHandle::Arith(ArithOp::AddOp))
                } else if *id == String::from_str("subtract") {
                    proof {
                        assert(self.catalog()[1] == id@);
                    }
                    Ok(CalcHandle::Arith(ArithOp::SubOp))
                } else if *id == String::from_str("calculate") {
                    proof {
                        assert(self.catalog()[2] == id@);
                    }
                    Ok(CalcHandle::Forward(a.calc_slot))
                } else {
                    proof {
                        assert(!advertises(self.catalog(), id@)) by {
                            assert(self.catalog()[0] == "add"@ && self.catalog()[1] == "subtract"@
                                && self.catalog()[2] == "calculate"@);
                            assert(forall|i: int|
                                0 <= i < self.catalog().len() ==> #[trigger] self.catalog()[i]
                                    != id@);
                        }
                    }
                    Err(Error::FunctionNotFound(id.clone()))
                }
            },
            KeyedPlugin::Calculator(c) => {
                if *id == String::from_str("calculate") {
                    proof {
                        assert(self.catalog()[0] == id@);
                    }
                    Ok(CalcHandle::Calculate(c.add_slot, c.sub_slot))
                } else {
                    proof {
                        assert(!advertises(self.catalog(), id@)) by {
                            assert(self.catalog()[0] == "calculate"@);
                            assert(forall|i: int|
                                0 <= i < self.catalog().len() ==> #[trigger] self.catalog()[i]
                                    != id@);
                        }
                    }
                    Err(Error::FunctionNotFound(id.clone()))
                }
            },
        }
    }

    fn init<O: Orchestrator<JsonData, Handle = CalcHandle>>(&mut self, orch: &O) -> (r: Result<
        (),
        Error,
    >) {
        match self {
            KeyedPlugin::Adder(a) => a.init(orch),
            KeyedPlugin::Calculator(c) => c.init(orch),
        }
    }
}

/// Within one provider's advertised catalog, every function id occurs
/// exactly once.
pub proof fn lemma_calc_plugin_catalog_unique(p: CalcPlugin)
    ensures
        forall|i: int, j: int|
            0 <= i < j < p.catalog().len() ==> #[trigger] p.catalog()[i] != #[trigger] p.catalog()[j],
{
    assert forall|i: int, j: int|
        0 <= i < j < p.catalog().len() implies #[trigger] p.catalog()[i]
        != #[trigger] p.catalog()[j] by {
        match p {
            CalcPlugin::Adder(_) => {
                reveal_strlit("add");
                reveal_strlit("sub");
                assert("add"@.len() == 3 && "sub"@.len() == 3);
                assert("add"@[0] != "sub"@[0]);
            },
            CalcPlugin::Multiplier(_) => {
                reveal_strlit("mult");
                reveal_strlit("div");
                assert("mult"@.len() == 4 && "div"@.len() == 3);
            },
        }
    }
}

/// Within one keyed plugin's advertised catalog, every function id occurs
/// exactly once.
pub proof fn lemma_keyed_plugin_catalog_unique(p: KeyedPlugin)
    ensures
        forall|i: int, j: int|
            0 <= i < j < <KeyedPlugin as PluginConnector<JsonData>>::catalog(&p).len()
                ==> #[trigger] <KeyedPlugin as PluginConnector<JsonData>>::catalog(&p)[i]
                != #[trigger] <KeyedPlugin as PluginConnector<JsonData>>::catalog(&p)[j],
{
    assert forall|i: int, j: int|
        0 <= i < j < <KeyedPlugin as PluginConnector<JsonData>>::catalog(&p).len()
            implies #[trigger] <KeyedPlugin as PluginConnector<JsonData>>::catalog(&p)[i]
        != #[trigger] <KeyedPlugin as PluginConnector<JsonData>>::catalog(&p)[j] by {
        match p {
            KeyedPlugin::Adder(_) => {
                reveal_strlit("add");
                reveal_strlit("subtract");
                reveal_strlit("calculate");
                assert("add"@.len() == 3 && "subtract"@.len() == 8 && "calculate"@.len() == 9);
            },
            KeyedPlugin::Calculator(_) => {
            },
        }
    }
}

/// Offering the arithmetic provider to a multiplier binds every vacant
/// slot: `add` becomes the addition handle and `sub` the subtraction
/// handle, already-bound slots stay, and the offer succeeds. With
/// [`mult_ens`] and [`div_ens`] this gives the positive half of the
/// unbound-extern story: after such a provider is registered, the same
/// extern call that failed now computes.
pub proof fn lemma_adder_binds_multiplier(
    m: Multiplier,
    post: CalcPlugin,
    a: Adder,
    r: Result<(), Error>,
)
    requires
        <CalcPlugin as FuncConsumer<JsonData, CalcPlugin>>::connect_ens(
            CalcPlugin::Multiplier(m),
            post,
            CalcPlugin::Adder(a),
            r,
        ),
    ensures
        r is Ok,
        post matches CalcPlugin::Multiplier(m2) && m2.add_slot_spec() == (
        if m.add_slot_spec() matches Slot::Vacant(_) {
            Slot::Op(ArithOp::AddOp)
        } else {
            m.add_slot_spec()
        }) && m2.sub_slot_spec() == (if m.sub_slot_spec() matches Slot::Vacant(_) {
            Slot::Op(ArithOp::SubOp)
        } else {
            m.sub_slot_spec()
        }),
{
    let p = CalcPlugin::Adder(a);
    reveal_strlit("add");
    reveal_strlit("sub");
    assert("add"@.len() == 3 && "sub"@.len() == 3 && "add"@[0] != "sub"@[0]);
    assert(advertises(p.catalog(), "add"@)) by {
        assert(p.catalog()[0] == "add"@);
    }
    assert(advertises(p.catalog(), "sub"@)) by {
        assert(p.catalog()[1] == "sub"@);
    }
    assert(p.handle_of("add"@) == CalcHandle::Arith(ArithOp::AddOp));
    assert(p.handle_of("sub"@) == CalcHandle::Arith(ArithOp::SubOp));
}

} // verus!
