use uplc::bigint::BigNum;
use uplc::constant::Constant;
use uplc::cost::{CostModel, ExBudget};
use uplc::error::MachineError;
use uplc::machine::Machine;
use uplc::runtime::BuiltinSemantics;
use uplc::builtin::DefaultFunction;
use uplc::value::{Runtime, Value};
use std::rc::Rc;

fn machine() -> Machine {
    Machine::new(
        CostModel::default_model(),
        BuiltinSemantics::V2,
        ExBudget { cpu: 1_000_000, mem: 1_000_000 },
    )
}

fn int_value(x: i64) -> Value {
    Value::Con(Rc::new(Constant::Integer(BigNum::from_i64(x))))
}

fn saturated(fun: DefaultFunction, args: Vec<Value>) -> Runtime {
    Runtime { args, fun, forces: fun.force_count() }
}

#[test]
fn add_integer_saturates_to_sum() {
    let mut m = machine();
    let rt = saturated(DefaultFunction::AddInteger, vec![int_value(2), int_value(3)]);
    let before = m.budget;
    let r = m.call(&rt).unwrap();
    match r {
        Value::Con(c) => match &*c {
            Constant::Integer(n) => {
                let five = BigNum::from_i64(5);
                assert!(n.neg == five.neg && n.mag == five.mag);
            }
            _ => panic!("expected an integer"),
        },
        _ => panic!("expected a constant"),
    }
    assert!(m.budget.cpu < before.cpu);
}

#[test]
fn divide_by_zero_is_fatal() {
    let mut m = machine();
    let rt = saturated(DefaultFunction::DivideInteger, vec![int_value(1), int_value(0)]);
    let r = m.call(&rt);
    assert!(matches!(r, Err(MachineError::DivisionByZero)));
}

#[test]
fn if_then_else_selects_without_touching_the_other_branch() {
    let mut m = machine();
    let cond = Value::Con(Rc::new(Constant::Bool(true)));
    let rt = saturated(DefaultFunction::IfThenElse, vec![cond, int_value(1), int_value(99)]);
    let r = m.call(&rt).unwrap();
    match r {
        Value::Con(c) => match &*c {
            Constant::Integer(n) => {
                let one = BigNum::from_i64(1);
                assert!(n.neg == one.neg && n.mag == one.mag);
            }
            _ => panic!("expected an integer"),
        },
        _ => panic!("expected a constant"),
    }
}

#[test]
fn trace_appends_to_the_log_and_returns_its_value() {
    let mut m = machine();
    let msg = Value::Con(Rc::new(Constant::String(String::from("hi"))));
    let rt = saturated(DefaultFunction::Trace, vec![msg, int_value(9)]);
    let r = m.call(&rt).unwrap();
    assert!(matches!(r, Value::Con(_)));
    assert_eq!(m.logs, vec![String::from("hi")]);
}

#[test]
fn tiny_budget_exhausts_with_a_negative_component() {
    let mut m = Machine::new(
        CostModel::default_model(),
        BuiltinSemantics::V2,
        ExBudget { cpu: 1, mem: 1 },
    );
    let rt = saturated(DefaultFunction::AddInteger, vec![int_value(2), int_value(3)]);
    let r = m.call(&rt);
    assert!(matches!(r, Err(MachineError::OutOfBudget)));
    assert!(m.budget.cpu < 0 || m.budget.mem < 0);
}

#[test]
fn sha2_256_matches_the_known_vector_for_abc() {
    let mut m = machine();
    let input = Value::Con(Rc::new(Constant::ByteString(b"abc".to_vec())));
    let rt = saturated(DefaultFunction::Sha2_256, vec![input]);
    let r = m.call(&rt).unwrap();
    match r {
        Value::Con(c) => match &*c {
            Constant::ByteString(b) => {
                let expected =
                    hex::decode("ba7816bf8f01cfea414140de5dae2223b00361a396177a9cb410ff61f20015ad")
                        .unwrap();
                assert_eq!(*b, expected);
            }
            _ => panic!("expected bytes"),
        },
        _ => panic!("expected a constant"),
    }
}

#[test]
fn byte_string_round_trips_through_integer() {
    let mut m = machine();
    let be = Value::Con(Rc::new(Constant::Bool(true)));
    let bytes = Value::Con(Rc::new(Constant::ByteString(vec![1, 2, 3])));
    let rt = saturated(DefaultFunction::ByteStringToInteger, vec![be, bytes]);
    let n = m.call(&rt).unwrap();
    let be2 = Value::Con(Rc::new(Constant::Bool(true)));
    let size = int_value(0);
    let rt2 = saturated(DefaultFunction::IntegerToByteString, vec![be2, size, n]);
    let r = m.call(&rt2).unwrap();
    match r {
        Value::Con(c) => match &*c {
            Constant::ByteString(b) => assert_eq!(*b, vec![1, 2, 3]),
            _ => panic!("expected bytes"),
        },
        _ => panic!("expected a constant"),
    }
}
