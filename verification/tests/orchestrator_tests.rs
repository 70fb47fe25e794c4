use yaps::error::Error;
use yaps::func_handle::FuncHandle;
use yaps::json::{decode_value, encode_value, JsonData};
use yaps::orchestrator::{LocalOrchestrator, Orchestrator, PluginConnector};
use yaps::plugins::{Adder, Calculator, KeyedPlugin};
use yaps::value::Value;

fn pair_payload(a: i64, b: i64) -> JsonData {
    JsonData::from_bytes(encode_value(&Value::Pair(a, b)))
}

fn key(p: &str, f: &str) -> (String, String) {
    (String::from(p), String::from(f))
}

fn built_registry() -> LocalOrchestrator<JsonData, KeyedPlugin> {
    let mut orch: LocalOrchestrator<JsonData, KeyedPlugin> = LocalOrchestrator::new();
    orch.register_plugin(String::from("Calculator"), KeyedPlugin::Calculator(Calculator::new()))
        .unwrap();
    orch.register_plugin(String::from("Adder"), KeyedPlugin::Adder(Adder::new())).unwrap();
    orch
}

#[test]
fn duplicate_registration_is_rejected() {
    let mut orch = built_registry();
    let r = orch.register_plugin(String::from("Adder"), KeyedPlugin::Adder(Adder::new()));
    assert!(matches!(r, Err(Error::PluginRegistered(ref s)) if s == "Adder"));
}

#[test]
fn unknown_plugin_and_function() {
    let orch = built_registry();
    let r = orch.get_func(&key("Ghost", "calculate"));
    assert!(matches!(r, Err(Error::PluginNotFound(ref s)) if s == "Ghost"));

    let r = orch.get_func(&key("Adder", "missing"));
    assert!(matches!(r, Err(Error::FunctionNotFound(ref s)) if s == "missing"));
}

#[test]
fn keyed_end_to_end() {
    let mut orch = built_registry();
    orch.init().unwrap();

    let func = orch.get_func(&key("Adder", "calculate")).unwrap();
    let reply = func.call(pair_payload(1, 2)).unwrap();
    // calculate(a, b) forwards (a + 1, b + 1) = (2, 3) to the formula:
    // 4 * 2 - 2 * 3 = 2.
    assert_eq!(decode_value(reply.bytes()), Some(Value::Int(2)));

    let func = orch.get_func(&key("Calculator", "calculate")).unwrap();
    let reply = func.call(pair_payload(3, 4)).unwrap();
    // 4 * 3 - 2 * 4 = 4.
    assert_eq!(decode_value(reply.bytes()), Some(Value::Int(4)));
}

#[test]
fn uninitialized_forwarder_fails_cleanly() {
    let orch = built_registry();
    let func = orch.get_func(&key("Adder", "calculate")).unwrap();
    let r = func.call(pair_payload(1, 2));
    assert!(matches!(r, Err(Error::FunctionNotInitialized(ref s)) if s == "calculate"));
}

#[test]
fn calculator_method_after_manual_init() {
    let mut orch: LocalOrchestrator<JsonData, KeyedPlugin> = LocalOrchestrator::new();
    orch.register_plugin(String::from("Adder"), KeyedPlugin::Adder(Adder::new())).unwrap();

    let mut calc = Calculator::new();
    assert!(matches!(
        calc.calculate(3, 4),
        Err(Error::FunctionNotInitialized(ref s)) if s == "add"
    ));

    calc.init(&orch).unwrap();
    assert_eq!(calc.calculate(3, 4), Ok(4));
    assert_eq!(calc.calculate(0, 5), Ok(-10));
}

#[test]
fn keyed_catalogs() {
    let adder = KeyedPlugin::Adder(Adder::new());
    assert_eq!(adder.provided_funcs(), vec!["add", "subtract", "calculate"]);
    let calc = KeyedPlugin::Calculator(Calculator::new());
    assert_eq!(calc.provided_funcs(), vec!["calculate"]);
}

#[test]
fn init_propagates_the_first_failure() {
    // Only the Calculator is registered: its initialization cannot
    // resolve the Adder plugin and the pass aborts with that error.
    let mut orch: LocalOrchestrator<JsonData, KeyedPlugin> = LocalOrchestrator::new();
    orch.register_plugin(String::from("Calculator"), KeyedPlugin::Calculator(Calculator::new()))
        .unwrap();
    let r = orch.init();
    assert!(matches!(r, Err(Error::PluginNotFound(ref s)) if s == "Adder"));
}
