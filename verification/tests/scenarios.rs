use std::rc::Rc;
use uplc::bigint::BigNum;
use uplc::builtin::DefaultFunction;
use uplc::constant::Constant;
use uplc::cost::{CostModel, ExBudget};
use uplc::error::MachineError;
use uplc::machine::{evaluate, Machine};
use uplc::runtime::BuiltinSemantics;
use uplc::term::{DeBruijn, Term};
use uplc::value::Value;

fn budget() -> ExBudget {
    ExBudget { cpu: 10_000_000, mem: 10_000_000 }
}

fn eval(term: Term) -> (Result<Value, MachineError>, ExBudget, Vec<String>) {
    evaluate(
        &Rc::new(term),
        CostModel::default_model(),
        BuiltinSemantics::V2,
        budget(),
    )
}

fn int_term(x: i64) -> Term {
    Term::Constant(Rc::new(Constant::Integer(BigNum::from_i64(x))))
}

fn apply(f: Term, x: Term) -> Term {
    Term::Apply { function: Rc::new(f), argument: Rc::new(x) }
}

fn expect_int(v: &Value, x: i64) {
    match v {
        Value::Con(c) => match &**c {
            Constant::Integer(n) => {
                let want = BigNum::from_i64(x);
                assert!(n.neg == want.neg && n.mag == want.mag);
            }
            _ => panic!("expected an integer"),
        },
        _ => panic!("expected a constant"),
    }
}

#[test]
fn identity_applied_to_integer_reduces_and_spends() {
    let body = Term::Var(DeBruijn::new(0));
    let id = Term::Lambda { parameter: DeBruijn::zero(), body: Rc::new(body) };
    let (r, left, logs) = eval(apply(id, int_term(42)));
    expect_int(&r.unwrap(), 42);
    assert!(left.cpu < budget().cpu && left.mem < budget().mem);
    assert!(logs.is_empty());
}

#[test]
fn force_of_delay_hands_the_body_back() {
    let t = Term::Force(Rc::new(Term::Delay(Rc::new(int_term(7)))));
    let (r, _, _) = eval(t);
    expect_int(&r.unwrap(), 7);
}

#[test]
fn builtin_saturates_through_the_machine() {
    let t = apply(
        apply(Term::Builtin(DefaultFunction::AddInteger), int_term(2)),
        int_term(3),
    );
    let (r, _, _) = eval(t);
    expect_int(&r.unwrap(), 5);
}

#[test]
fn division_by_zero_through_the_machine_is_fatal() {
    let t = apply(
        apply(Term::Builtin(DefaultFunction::DivideInteger), int_term(1)),
        int_term(0),
    );
    let (r, _, _) = eval(t);
    assert!(matches!(r, Err(MachineError::DivisionByZero)));
}

#[test]
fn if_then_else_takes_the_live_branch_and_errors_on_the_other() {
    let branchy = |c: bool| {
        Term::Force(Rc::new(apply(
            apply(
                apply(
                    Term::Force(Rc::new(Term::Builtin(DefaultFunction::IfThenElse))),
                    Term::Constant(Rc::new(Constant::Bool(c))),
                ),
                Term::Delay(Rc::new(int_term(1))),
            ),
            Term::Delay(Rc::new(Term::Error)),
        )))
    };
    let (r, _, _) = eval(branchy(true));
    expect_int(&r.unwrap(), 1);
    let (r, _, _) = eval(branchy(false));
    assert!(matches!(r, Err(MachineError::EvaluationFailure)));
}

#[test]
fn trace_accumulates_through_the_machine() {
    let t = apply(
        apply(
            Term::Force(Rc::new(Term::Builtin(DefaultFunction::Trace))),
            Term::Constant(Rc::new(Constant::String(String::from("hi")))),
        ),
        int_term(9),
    );
    let (r, _, logs) = eval(t);
    expect_int(&r.unwrap(), 9);
    assert_eq!(logs, vec![String::from("hi")]);
}

#[test]
fn budget_exhaustion_halts_with_a_negative_component() {
    let mut tower = int_term(1);
    for _ in 0..100 {
        tower = apply(
            apply(Term::Builtin(DefaultFunction::AddInteger), tower),
            int_term(1),
        );
    }
    let mut m = Machine::new(
        CostModel::default_model(),
        BuiltinSemantics::V2,
        ExBudget { cpu: 200, mem: 200 },
    );
    let r = m.run(&Rc::new(tower));
    assert!(matches!(r, Err(MachineError::OutOfBudget)));
    assert!(m.budget.cpu < 0 || m.budget.mem < 0);
}

#[test]
fn determinism_two_runs_agree_exactly() {
    let t = Rc::new(apply(
        apply(Term::Builtin(DefaultFunction::MultiplyInteger), int_term(6)),
        int_term(7),
    ));
    let (r1, b1, l1) = evaluate(
        &t,
        CostModel::default_model(),
        BuiltinSemantics::V2,
        budget(),
    );
    let (r2, b2, l2) = evaluate(
        &t,
        CostModel::default_model(),
        BuiltinSemantics::V2,
        budget(),
    );
    expect_int(&r1.unwrap(), 42);
    expect_int(&r2.unwrap(), 42);
    assert_eq!(b1, b2);
    assert_eq!(l1, l2);
}

#[test]
fn open_term_is_fatal() {
    let t = Term::Var(DeBruijn::new(3));
    let (r, _, _) = eval(t);
    assert!(matches!(r, Err(MachineError::OpenTermEvaluated(DeBruijn(3)))));
}

#[test]
fn constr_and_case_select_the_branch_and_apply_the_fields() {
    let scrutinee = Term::Constr { tag: 1, fields: vec![Rc::new(int_term(10))] };
    let inc = Term::Lambda {
        parameter: DeBruijn::zero(),
        body: Rc::new(apply(
            apply(Term::Builtin(DefaultFunction::AddInteger), Term::Var(DeBruijn::new(0))),
            int_term(1),
        )),
    };
    let dead = Term::Lambda { parameter: DeBruijn::zero(), body: Rc::new(Term::Error) };
    let t = Term::Case {
        constr: Rc::new(scrutinee),
        branches: vec![Rc::new(dead), Rc::new(inc)],
    };
    let (r, _, _) = eval(t);
    expect_int(&r.unwrap(), 11);
}
