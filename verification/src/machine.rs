//! The CEK machine: a small-step reducer with explicit Compute and Return
//! modes over a stack of frames. Its transition function is written once as
//! a specification, `spec_step`, and the executable machine is proved to
//! follow it step for step; determinism and budget monotonicity are
//! theorems about `spec_step`.

use vstd::prelude::*;
use std::rc::Rc;
use crate::builtin::DefaultFunction;
use crate::cost::{CostModel, ExBudget};
use crate::error::MachineError;
use crate::runtime::{
    budget_view, call_builtin, exhausted, logs_view, spec_call, spec_spend, BuiltinSemantics,
};
use crate::term::{lemma_term_unfold, rc_clone, rc_term_view, term_view, wf_term_exec, DeBruijn, Term, TermV};
use crate::value::{
    clone_env, clone_value, env_cons, env_lookup, env_view, lemma_value_unfold,
    runtime_view, value_view, wf_env_exec, wf_envv, wf_runtimev, wf_termv, wf_value_exec,
    wf_valuev, Env, Runtime, RuntimeV, Value, ValueV,
};

verus! {

/// The machine's control: computing a term, returning a value, or halted.
#[derive(Debug)]
pub enum MachineStep {
    Compute(Rc<Term>, Env),
    Return(Value),
    Done(Value),
    Failed(MachineError),
}

/// A pending context on the machine's stack.
#[derive(Debug)]
pub enum Frame {
    AwaitFunTerm(Rc<Term>, Env),
    AwaitArg(Value),
    AwaitFunValue(Value),
    ForceF,
    ConstrF { tag: u64, done: Vec<Value>, rest: Vec<Rc<Term>>, env: Env },
    CasesF { branches: Vec<Rc<Term>>, env: Env },
}

pub enum StepV {
    Compute(TermV, Seq<ValueV>),
    Return(ValueV),
    Done(ValueV),
    Failed(MachineError),
}

pub enum FrameV {
    AwaitFunTerm(TermV, Seq<ValueV>),
    AwaitArg(ValueV),
    AwaitFunValue(ValueV),
    ForceF,
    ConstrF { tag: nat, done: Seq<ValueV>, rest: Seq<TermV>, env: Seq<ValueV> },
    CasesF { branches: Seq<TermV>, env: Seq<ValueV> },
}

/// The whole machine state the specification steps over.
pub struct StateV {
    pub step: StepV,
    pub stack: Seq<FrameV>,
    pub budget: (int, int),
    pub logs: Seq<Seq<char>>,
}

pub open spec fn terms_view(ts: Seq<Rc<Term>>) -> Seq<TermV> {
    Seq::new(
        ts.len(),
        |i: int|
            if 0 <= i < ts.len() {
                term_view(*ts[i])
            } else {
                TermV::Error
            },
    )
}

pub open spec fn step_view(s: MachineStep) -> StepV {
    match s {
        MachineStep::Compute(t, env) => StepV::Compute(term_view(*t), env_view(env)),
        MachineStep::Return(v) => StepV::Return(value_view(v)),
        MachineStep::Done(v) => StepV::Done(value_view(v)),
        MachineStep::Failed(e) => StepV::Failed(e),
    }
}

pub open spec fn frame_view(f: Frame) -> FrameV {
    match f {
        Frame::AwaitFunTerm(t, env) => FrameV::AwaitFunTerm(term_view(*t), env_view(env)),
        Frame::AwaitArg(v) => FrameV::AwaitArg(value_view(v)),
        Frame::AwaitFunValue(v) => FrameV::AwaitFunValue(value_view(v)),
        Frame::ForceF => FrameV::ForceF,
        Frame::ConstrF { tag, done, rest, env } => FrameV::ConstrF {
            tag: tag as nat,
            done: crate::runtime::vals_view(done@),
            rest: terms_view(rest@),
            env: env_view(env),
        },
        Frame::CasesF { branches, env } => FrameV::CasesF {
            branches: terms_view(branches@),
            env: env_view(env),
        },
    }
}

pub open spec fn stack_view(st: Seq<Frame>) -> Seq<FrameV> {
    Seq::new(
        st.len(),
        |i: int|
            if 0 <= i < st.len() {
                frame_view(st[i])
            } else {
                FrameV::ForceF
            },
    )
}

pub open spec fn terminal(s: StateV) -> bool {
    s.step is Done || s.step is Failed
}

/// Debits one fixed machine-step charge; a negative component halts.
pub open spec fn spec_charge_step(
    cost: ExBudget,
    s: StateV,
    cont: StateV,
) -> StateV {
    let b2 = spec_spend(s.budget, budget_view(cost));
    if exhausted(b2) {
        StateV { step: StepV::Failed(MachineError::OutOfBudget), stack: s.stack, budget: b2, logs: s.logs }
    } else {
        StateV { budget: b2, ..cont }
    }
}

/// One Compute transition.
pub open spec fn spec_compute(
    cm: CostModel,
    t: TermV,
    env: Seq<ValueV>,
    s: StateV,
) -> StateV {
    match t {
        TermV::Var(i) => spec_charge_step(
            cm.machine.variable,
            s,
            if i < env.len() {
                StateV { step: StepV::Return(env[i as int]), ..s }
            } else {
                StateV { step: StepV::Failed(MachineError::OpenTermEvaluated(DeBruijn(i as usize))), ..s }
            },
        ),
        TermV::Constant(c) => spec_charge_step(
            cm.machine.constant,
            s,
            StateV { step: StepV::Return(ValueV::Con(c)), ..s },
        ),
        TermV::Lambda(body) => spec_charge_step(
            cm.machine.lambda,
            s,
            StateV { step: StepV::Return(ValueV::Lambda { body: *body, env }), ..s },
        ),
        TermV::Delay(body) => spec_charge_step(
            cm.machine.delay,
            s,
            StateV { step: StepV::Return(ValueV::Delay { body: *body, env }), ..s },
        ),
        TermV::Force(t1) => spec_charge_step(
            cm.machine.force,
            s,
            StateV {
                step: StepV::Compute(*t1, env),
                stack: s.stack.push(FrameV::ForceF),
                ..s
            },
        ),
        TermV::Apply(f, x) => spec_charge_step(
            cm.machine.apply,
            s,
            StateV {
                step: StepV::Compute(*f, env),
                stack: s.stack.push(FrameV::AwaitFunTerm(*x, env)),
                ..s
            },
        ),
        TermV::Builtin(b) => spec_charge_step(
            cm.machine.builtin,
            s,
            StateV {
                step: StepV::Return(
                    ValueV::Builtin(RuntimeV { fun: b, args: Seq::empty(), forces: 0 }),
                ),
                ..s
            },
        ),
        TermV::Error => StateV { step: StepV::Failed(MachineError::EvaluationFailure), ..s },
        TermV::Constr(tag, ts) => spec_charge_step(
            cm.machine.constr,
            s,
            if ts.len() == 0 {
                StateV {
                    step: StepV::Return(ValueV::Constr { tag, values: Seq::empty() }),
                    ..s
                }
            } else {
                StateV {
                    step: StepV::Compute(ts[0], env),
                    stack: s.stack.push(
                        FrameV::ConstrF {
                            tag,
                            done: Seq::empty(),
                            rest: ts.drop_first(),
                            env,
                        },
                    ),
                    ..s
                }
            },
        ),
        TermV::Case(scrut, branches) => spec_charge_step(
            cm.machine.case_branch,
            s,
            StateV {
                step: StepV::Compute(*scrut, env),
                stack: s.stack.push(FrameV::CasesF { branches, env }),
                ..s
            },
        ),
    }
}

/// Applying a function value to an argument value, dispatching a builtin
/// the moment it saturates.
pub open spec fn spec_apply(
    cm: CostModel,
    sem: BuiltinSemantics,
    f: ValueV,
    arg: ValueV,
    s: StateV,
) -> StateV {
    match f {
        ValueV::Lambda { body, env } => StateV {
            step: StepV::Compute(body, seq![arg] + env),
            ..s
        },
        ValueV::Builtin(rt) => {
            if rt.args.len() < rt.fun.spec_arity() && rt.forces == rt.fun.spec_force_count() {
                let rt2 = RuntimeV { fun: rt.fun, args: rt.args.push(arg), forces: rt.forces };
                if rt2.args.len() == rt.fun.spec_arity() {
                    let out = spec_call(cm, sem, rt.fun, rt2.args, s.budget, s.logs);
                    match out.res {
                        Ok(v) => StateV { step: StepV::Return(v), budget: out.budget, logs: out.logs, ..s },
                        Err(e) => StateV { step: StepV::Failed(e), budget: out.budget, logs: out.logs, ..s },
                    }
                } else {
                    StateV { step: StepV::Return(ValueV::Builtin(rt2)), ..s }
                }
            } else {
                StateV { step: StepV::Failed(MachineError::UnexpectedBuiltinTermArgument), ..s }
            }
        },
        _ => StateV { step: StepV::Failed(MachineError::NonFunctionApplication), ..s },
    }
}

/// Forcing a value: unwrap a delay, or count a force toward a builtin.
pub open spec fn spec_force(
    cm: CostModel,
    sem: BuiltinSemantics,
    v: ValueV,
    s: StateV,
) -> StateV {
    match v {
        ValueV::Delay { body, env } => StateV { step: StepV::Compute(body, env), ..s },
        ValueV::Builtin(rt) => {
            if rt.forces < rt.fun.spec_force_count() {
                let rt2 = RuntimeV { fun: rt.fun, args: rt.args, forces: rt.forces + 1 };
                if rt2.forces == rt.fun.spec_force_count() && rt.args.len()
                    == rt.fun.spec_arity() {
                    let out = spec_call(cm, sem, rt.fun, rt2.args, s.budget, s.logs);
                    match out.res {
                        Ok(v2) => StateV { step: StepV::Return(v2), budget: out.budget, logs: out.logs, ..s },
                        Err(e) => StateV { step: StepV::Failed(e), budget: out.budget, logs: out.logs, ..s },
                    }
                } else {
                    StateV { step: StepV::Return(ValueV::Builtin(rt2)), ..s }
                }
            } else {
                StateV { step: StepV::Failed(MachineError::UnexpectedBuiltinTermArgument), ..s }
            }
        },
        _ => StateV { step: StepV::Failed(MachineError::NonPolymorphicInstantiation), ..s },
    }
}

/// One Return transition against the top frame.
pub open spec fn spec_return(cm: CostModel, sem: BuiltinSemantics, v: ValueV, s: StateV) -> StateV {
    if s.stack.len() == 0 {
        if v is Builtin {
            StateV { step: StepV::Failed(MachineError::UnderAppliedBuiltin), ..s }
        } else {
            StateV { step: StepV::Done(v), ..s }
        }
    } else {
        let top = s.stack.last();
        let rest = s.stack.drop_last();
        let s1 = StateV { stack: rest, ..s };
        match top {
            FrameV::AwaitFunTerm(x, env) => StateV {
                step: StepV::Compute(x, env),
                stack: rest.push(FrameV::AwaitArg(v)),
                ..s
            },
            FrameV::AwaitArg(f) => spec_apply(cm, sem, f, v, s1),
            FrameV::AwaitFunValue(arg) => spec_apply(cm, sem, v, arg, s1),
            FrameV::ForceF => spec_force(cm, sem, v, s1),
            FrameV::ConstrF { tag, done, rest: ts, env } => {
                let done2 = done.push(v);
                if ts.len() == 0 {
                    StateV { step: StepV::Return(ValueV::Constr { tag, values: done2 }), stack: rest, ..s }
                } else {
                    StateV {
                        step: StepV::Compute(ts[0], env),
                        stack: rest.push(
                            FrameV::ConstrF { tag, done: done2, rest: ts.drop_first(), env },
                        ),
                        ..s
                    }
                }
            },
            FrameV::CasesF { branches, env } => {
                if v is Constr {
                    let tag = v->Constr_tag;
                    let cargs = v->Constr_values;
                    if tag < branches.len() {
                        StateV {
                            step: StepV::Compute(branches[tag as int], env),
                            stack: rest + Seq::new(
                                cargs.len(),
                                |i: int| FrameV::AwaitFunValue(cargs[cargs.len() - 1 - i]),
                            ),
                            ..s
                        }
                    } else {
                        StateV { step: StepV::Failed(MachineError::MissingCaseBranch), ..s1 }
                    }
                } else {
                    StateV { step: StepV::Failed(MachineError::NonConstrScrutinized), ..s1 }
                }
            },
        }
    }
}

/// The machine's transition function: total, with halted states as fixed
/// points.
pub open spec fn spec_step(cm: CostModel, sem: BuiltinSemantics, s: StateV) -> StateV {
    match s.step {
        StepV::Done(_) => s,
        StepV::Failed(_) => s,
        StepV::Compute(t, env) => spec_compute(cm, t, env, s),
        StepV::Return(v) => spec_return(cm, sem, v, s),
    }
}

/// `n` transitions from `s`.
pub open spec fn spec_steps(cm: CostModel, sem: BuiltinSemantics, s: StateV, n: nat) -> StateV
    decreases n,
{
    if n == 0 {
        s
    } else {
        spec_steps(cm, sem, spec_step(cm, sem, s), (n - 1) as nat)
    }
}

/// Halted states do not move.
pub proof fn lemma_terminal_fixed(cm: CostModel, sem: BuiltinSemantics, s: StateV)
    requires
        terminal(s),
    ensures
        spec_step(cm, sem, s) == s,
{
}

/// Once halted, always halted, at the same state.
pub proof fn lemma_steps_stable(cm: CostModel, sem: BuiltinSemantics, s: StateV, n: nat, m: nat)
    requires
        terminal(spec_steps(cm, sem, s, n)),
        n <= m,
    ensures
        spec_steps(cm, sem, s, m) == spec_steps(cm, sem, s, n),
    decreases m,
{
    if n == 0 {
        if m > 0 {
            lemma_terminal_fixed(cm, sem, s);
            lemma_steps_stable(cm, sem, s, 0, (m - 1) as nat);
        }
    } else {
        lemma_steps_stable(cm, sem, spec_step(cm, sem, s), (n - 1) as nat, (m - 1) as nat);
    }
}

/// Determinism: two halting runs from the same start halt at the same
/// state — the same outcome, the same remaining budget, the same log.
pub proof fn lemma_evaluation_deterministic(
    cm: CostModel,
    sem: BuiltinSemantics,
    s: StateV,
    n1: nat,
    n2: nat,
)
    requires
        terminal(spec_steps(cm, sem, s, n1)),
        terminal(spec_steps(cm, sem, s, n2)),
    ensures
        spec_steps(cm, sem, s, n1) == spec_steps(cm, sem, s, n2),
{
    if n1 <= n2 {
        lemma_steps_stable(cm, sem, s, n1, n2);
    } else {
        lemma_steps_stable(cm, sem, s, n2, n1);
    }
}


#[verifier::rlimit(100)]
#[verifier::spinoff_prover]
proof fn lemma_int_budget(
    cm: CostModel,
    fun: DefaultFunction,
    args: Seq<ValueV>,
    b: (int, int),
    l: Seq<Seq<char>>,
)
    requires
        b.0 >= i64::MIN,
        b.1 >= i64::MIN,
    ensures
        crate::runtime::spec_int_bin(cm, fun, args, b, l).budget.0 <= b.0,
        crate::runtime::spec_int_bin(cm, fun, args, b, l).budget.1 <= b.1,
        !exhausted(b) && crate::runtime::spec_int_bin(cm, fun, args, b, l).res is Ok ==> !exhausted(crate::runtime::spec_int_bin(cm, fun, args, b, l).budget),
{
}

#[verifier::rlimit(100)]
#[verifier::spinoff_prover]
proof fn lemma_bytes_budget(
    cm: CostModel,
    fun: DefaultFunction,
    args: Seq<ValueV>,
    b: (int, int),
    l: Seq<Seq<char>>,
)
    requires
        b.0 >= i64::MIN,
        b.1 >= i64::MIN,
    ensures
        crate::runtime::spec_bytes_group(cm, fun, args, b, l).budget.0 <= b.0,
        crate::runtime::spec_bytes_group(cm, fun, args, b, l).budget.1 <= b.1,
        !exhausted(b) && crate::runtime::spec_bytes_group(cm, fun, args, b, l).res is Ok ==> !exhausted(crate::runtime::spec_bytes_group(cm, fun, args, b, l).budget),
{
}

#[verifier::rlimit(100)]
#[verifier::spinoff_prover]
proof fn lemma_hash_budget(
    cm: CostModel,
    fun: DefaultFunction,
    args: Seq<ValueV>,
    b: (int, int),
    l: Seq<Seq<char>>,
)
    requires
        b.0 >= i64::MIN,
        b.1 >= i64::MIN,
    ensures
        crate::runtime::spec_hash(cm, fun, args, b, l).budget.0 <= b.0,
        crate::runtime::spec_hash(cm, fun, args, b, l).budget.1 <= b.1,
        !exhausted(b) && crate::runtime::spec_hash(cm, fun, args, b, l).res is Ok ==> !exhausted(crate::runtime::spec_hash(cm, fun, args, b, l).budget),
{
}

#[verifier::rlimit(100)]
#[verifier::spinoff_prover]
proof fn lemma_sig_budget(
    cm: CostModel,
    fun: DefaultFunction,
    args: Seq<ValueV>,
    b: (int, int),
    l: Seq<Seq<char>>,
)
    requires
        b.0 >= i64::MIN,
        b.1 >= i64::MIN,
    ensures
        crate::runtime::spec_sig(cm, fun, args, b, l).budget.0 <= b.0,
        crate::runtime::spec_sig(cm, fun, args, b, l).budget.1 <= b.1,
        !exhausted(b) && crate::runtime::spec_sig(cm, fun, args, b, l).res is Ok ==> !exhausted(crate::runtime::spec_sig(cm, fun, args, b, l).budget),
{
}

#[verifier::rlimit(100)]
#[verifier::spinoff_prover]
proof fn lemma_string_budget(
    cm: CostModel,
    fun: DefaultFunction,
    args: Seq<ValueV>,
    b: (int, int),
    l: Seq<Seq<char>>,
)
    requires
        b.0 >= i64::MIN,
        b.1 >= i64::MIN,
    ensures
        crate::runtime::spec_string_group(cm, fun, args, b, l).budget.0 <= b.0,
        crate::runtime::spec_string_group(cm, fun, args, b, l).budget.1 <= b.1,
        !exhausted(b) && crate::runtime::spec_string_group(cm, fun, args, b, l).res is Ok ==> !exhausted(crate::runtime::spec_string_group(cm, fun, args, b, l).budget),
{
}

#[verifier::rlimit(100)]
#[verifier::spinoff_prover]
proof fn lemma_control_budget(
    cm: CostModel,
    fun: DefaultFunction,
    args: Seq<ValueV>,
    b: (int, int),
    l: Seq<Seq<char>>,
)
    requires
        b.0 >= i64::MIN,
        b.1 >= i64::MIN,
    ensures
        crate::runtime::spec_control(cm, fun, args, b, l).budget.0 <= b.0,
        crate::runtime::spec_control(cm, fun, args, b, l).budget.1 <= b.1,
        !exhausted(b) && crate::runtime::spec_control(cm, fun, args, b, l).res is Ok ==> !exhausted(crate::runtime::spec_control(cm, fun, args, b, l).budget),
{
}

#[verifier::rlimit(100)]
#[verifier::spinoff_prover]
proof fn lemma_list_budget(
    cm: CostModel,
    fun: DefaultFunction,
    args: Seq<ValueV>,
    b: (int, int),
    l: Seq<Seq<char>>,
)
    requires
        b.0 >= i64::MIN,
        b.1 >= i64::MIN,
    ensures
        crate::runtime::spec_list_group(cm, fun, args, b, l).budget.0 <= b.0,
        crate::runtime::spec_list_group(cm, fun, args, b, l).budget.1 <= b.1,
        !exhausted(b) && crate::runtime::spec_list_group(cm, fun, args, b, l).res is Ok ==> !exhausted(crate::runtime::spec_list_group(cm, fun, args, b, l).budget),
{
}

#[verifier::rlimit(100)]
#[verifier::spinoff_prover]
proof fn lemma_data_budget(
    cm: CostModel,
    fun: DefaultFunction,
    args: Seq<ValueV>,
    b: (int, int),
    l: Seq<Seq<char>>,
)
    requires
        b.0 >= i64::MIN,
        b.1 >= i64::MIN,
    ensures
        crate::runtime::spec_data_group(cm, fun, args, b, l).budget.0 <= b.0,
        crate::runtime::spec_data_group(cm, fun, args, b, l).budget.1 <= b.1,
        !exhausted(b) && crate::runtime::spec_data_group(cm, fun, args, b, l).res is Ok ==> !exhausted(crate::runtime::spec_data_group(cm, fun, args, b, l).budget),
{
}

#[verifier::rlimit(100)]
#[verifier::spinoff_prover]
proof fn lemma_bls_budget_Bls12_381_G1_Add(
    cm: CostModel,
    fun: DefaultFunction,
    args: Seq<ValueV>,
    b: (int, int),
    l: Seq<Seq<char>>,
)
    requires
        b.0 >= i64::MIN,
        b.1 >= i64::MIN,
        fun == DefaultFunction::Bls12_381_G1_Add,
    ensures
        crate::runtime::spec_bls(cm, fun, args, b, l).budget.0 <= b.0,
        crate::runtime::spec_bls(cm, fun, args, b, l).budget.1 <= b.1,
        !exhausted(b) && crate::runtime::spec_bls(cm, fun, args, b, l).res is Ok ==> !exhausted(crate::runtime::spec_bls(cm, fun, args, b, l).budget),
{
}

#[verifier::rlimit(100)]
#[verifier::spinoff_prover]
proof fn lemma_bls_budget_Bls12_381_G1_Neg(
    cm: CostModel,
    fun: DefaultFunction,
    args: Seq<ValueV>,
    b: (int, int),
    l: Seq<Seq<char>>,
)
    requires
        b.0 >= i64::MIN,
        b.1 >= i64::MIN,
        fun == DefaultFunction::Bls12_381_G1_Neg,
    ensures
        crate::runtime::spec_bls(cm, fun, args, b, l).budget.0 <= b.0,
        crate::runtime::spec_bls(cm, fun, args, b, l).budget.1 <= b.1,
        !exhausted(b) && crate::runtime::spec_bls(cm, fun, args, b, l).res is Ok ==> !exhausted(crate::runtime::spec_bls(cm, fun, args, b, l).budget),
{
}

#[verifier::rlimit(100)]
#[verifier::spinoff_prover]
proof fn lemma_bls_budget_Bls12_381_G1_ScalarMul(
    cm: CostModel,
    fun: DefaultFunction,
    args: Seq<ValueV>,
    b: (int, int),
    l: Seq<Seq<char>>,
)
    requires
        b.0 >= i64::MIN,
        b.1 >= i64::MIN,
        fun == DefaultFunction::Bls12_381_G1_ScalarMul,
    ensures
        crate::runtime::spec_bls(cm, fun, args, b, l).budget.0 <= b.0,
        crate::runtime::spec_bls(cm, fun, args, b, l).budget.1 <= b.1,
        !exhausted(b) && crate::runtime::spec_bls(cm, fun, args, b, l).res is Ok ==> !exhausted(crate::runtime::spec_bls(cm, fun, args, b, l).budget),
{
}

#[verifier::rlimit(100)]
#[verifier::spinoff_prover]
proof fn lemma_bls_budget_Bls12_381_G1_Equal(
    cm: CostModel,
    fun: DefaultFunction,
    args: Seq<ValueV>,
    b: (int, int),
    l: Seq<Seq<char>>,
)
    requires
        b.0 >= i64::MIN,
        b.1 >= i64::MIN,
        fun == DefaultFunction::Bls12_381_G1_Equal,
    ensures
        crate::runtime::spec_bls(cm, fun, args, b, l).budget.0 <= b.0,
        crate::runtime::spec_bls(cm, fun, args, b, l).budget.1 <= b.1,
        !exhausted(b) && crate::runtime::spec_bls(cm, fun, args, b, l).res is Ok ==> !exhausted(crate::runtime::spec_bls(cm, fun, args, b, l).budget),
{
}

#[verifier::rlimit(100)]
#[verifier::spinoff_prover]
proof fn lemma_bls_budget_Bls12_381_G1_Compress(
    cm: CostModel,
    fun: DefaultFunction,
    args: Seq<ValueV>,
    b: (int, int),
    l: Seq<Seq<char>>,
)
    requires
        b.0 >= i64::MIN,
        b.1 >= i64::MIN,
        fun == DefaultFunction::Bls12_381_G1_Compress,
    ensures
        crate::runtime::spec_bls(cm, fun, args, b, l).budget.0 <= b.0,
        crate::runtime::spec_bls(cm, fun, args, b, l).budget.1 <= b.1,
        !exhausted(b) && crate::runtime::spec_bls(cm, fun, args, b, l).res is Ok ==> !exhausted(crate::runtime::spec_bls(cm, fun, args, b, l).budget),
{
}

#[verifier::rlimit(100)]
#[verifier::spinoff_prover]
proof fn lemma_bls_budget_Bls12_381_G1_Uncompress(
    cm: CostModel,
    fun: DefaultFunction,
    args: Seq<ValueV>,
    b: (int, int),
    l: Seq<Seq<char>>,
)
    requires
        b.0 >= i64::MIN,
        b.1 >= i64::MIN,
        fun == DefaultFunction::Bls12_381_G1_Uncompress,
    ensures
        crate::runtime::spec_bls(cm, fun, args, b, l).budget.0 <= b.0,
        crate::runtime::spec_bls(cm, fun, args, b, l).budget.1 <= b.1,
        !exhausted(b) && crate::runtime::spec_bls(cm, fun, args, b, l).res is Ok ==> !exhausted(crate::runtime::spec_bls(cm, fun, args, b, l).budget),
{
}

#[verifier::rlimit(100)]
#[verifier::spinoff_prover]
proof fn lemma_bls_budget_Bls12_381_G1_HashToGroup(
    cm: CostModel,
    fun: DefaultFunction,
    args: Seq<ValueV>,
    b: (int, int),
    l: Seq<Seq<char>>,
)
    requires
        b.0 >= i64::MIN,
        b.1 >= i64::MIN,
        fun == DefaultFunction::Bls12_381_G1_HashToGroup,
    ensures
        crate::runtime::spec_bls(cm, fun, args, b, l).budget.0 <= b.0,
        crate::runtime::spec_bls(cm, fun, args, b, l).budget.1 <= b.1,
        !exhausted(b) && crate::runtime::spec_bls(cm, fun, args, b, l).res is Ok ==> !exhausted(crate::runtime::spec_bls(cm, fun, args, b, l).budget),
{
}

#[verifier::rlimit(100)]
#[verifier::spinoff_prover]
proof fn lemma_bls_budget_Bls12_381_G2_Add(
    cm: CostModel,
    fun: DefaultFunction,
    args: Seq<ValueV>,
    b: (int, int),
    l: Seq<Seq<char>>,
)
    requires
        b.0 >= i64::MIN,
        b.1 >= i64::MIN,
        fun == DefaultFunction::Bls12_381_G2_Add,
    ensures
        crate::runtime::spec_bls(cm, fun, args, b, l).budget.0 <= b.0,
        crate::runtime::spec_bls(cm, fun, args, b, l).budget.1 <= b.1,
        !exhausted(b) && crate::runtime::spec_bls(cm, fun, args, b, l).res is Ok ==> !exhausted(crate::runtime::spec_bls(cm, fun, args, b, l).budget),
{
}

#[verifier::rlimit(100)]
#[verifier::spinoff_prover]
proof fn lemma_bls_budget_Bls12_381_G2_Neg(
    cm: CostModel,
    fun: DefaultFunction,
    args: Seq<ValueV>,
    b: (int, int),
    l: Seq<Seq<char>>,
)
    requires
        b.0 >= i64::MIN,
        b.1 >= i64::MIN,
        fun == DefaultFunction::Bls12_381_G2_Neg,
    ensures
        crate::runtime::spec_bls(cm, fun, args, b, l).budget.0 <= b.0,
        crate::runtime::spec_bls(cm, fun, args, b, l).budget.1 <= b.1,
        !exhausted(b) && crate::runtime::spec_bls(cm, fun, args, b, l).res is Ok ==> !exhausted(crate::runtime::spec_bls(cm, fun, args, b, l).budget),
{
}

#[verifier::rlimit(100)]
#[verifier::spinoff_prover]
proof fn lemma_bls_budget_Bls12_381_G2_ScalarMul(
    cm: CostModel,
    fun: DefaultFunction,
    args: Seq<ValueV>,
    b: (int, int),
    l: Seq<Seq<char>>,
)
    requires
        b.0 >= i64::MIN,
        b.1 >= i64::MIN,
        fun == DefaultFunction::Bls12_381_G2_ScalarMul,
    ensures
        crate::runtime::spec_bls(cm, fun, args, b, l).budget.0 <= b.0,
        crate::runtime::spec_bls(cm, fun, args, b, l).budget.1 <= b.1,
        !exhausted(b) && crate::runtime::spec_bls(cm, fun, args, b, l).res is Ok ==> !exhausted(crate::runtime::spec_bls(cm, fun, args, b, l).budget),
{
}

#[verifier::rlimit(100)]
#[verifier::spinoff_prover]
proof fn lemma_bls_budget_Bls12_381_G2_Equal(
    cm: CostModel,
    fun: DefaultFunction,
    args: Seq<ValueV>,
    b: (int, int),
    l: Seq<Seq<char>>,
)
    requires
        b.0 >= i64::MIN,
        b.1 >= i64::MIN,
        fun == DefaultFunction::Bls12_381_G2_Equal,
    ensures
        crate::runtime::spec_bls(cm, fun, args, b, l).budget.0 <= b.0,
        crate::runtime::spec_bls(cm, fun, args, b, l).budget.1 <= b.1,
        !exhausted(b) && crate::runtime::spec_bls(cm, fun, args, b, l).res is Ok ==> !exhausted(crate::runtime::spec_bls(cm, fun, args, b, l).budget),
{
}

#[verifier::rlimit(100)]
#[verifier::spinoff_prover]
proof fn lemma_bls_budget_Bls12_381_G2_Compress(
    cm: CostModel,
    fun: DefaultFunction,
    args: Seq<ValueV>,
    b: (int, int),
    l: Seq<Seq<char>>,
)
    requires
        b.0 >= i64::MIN,
        b.1 >= i64::MIN,
        fun == DefaultFunction::Bls12_381_G2_Compress,
    ensures
        crate::runtime::spec_bls(cm, fun, args, b, l).budget.0 <= b.0,
        crate::runtime::spec_bls(cm, fun, args, b, l).budget.1 <= b.1,
        !exhausted(b) && crate::runtime::spec_bls(cm, fun, args, b, l).res is Ok ==> !exhausted(crate::runtime::spec_bls(cm, fun, args, b, l).budget),
{
}

#[verifier::rlimit(100)]
#[verifier::spinoff_prover]
proof fn lemma_bls_budget_Bls12_381_G2_Uncompress(
    cm: CostModel,
    fun: DefaultFunction,
    args: Seq<ValueV>,
    b: (int, int),
    l: Seq<Seq<char>>,
)
    requires
        b.0 >= i64::MIN,
        b.1 >= i64::MIN,
        fun == DefaultFunction::Bls12_381_G2_Uncompress,
    ensures
        crate::runtime::spec_bls(cm, fun, args, b, l).budget.0 <= b.0,
        crate::runtime::spec_bls(cm, fun, args, b, l).budget.1 <= b.1,
        !exhausted(b) && crate::runtime::spec_bls(cm, fun, args, b, l).res is Ok ==> !exhausted(crate::runtime::spec_bls(cm, fun, args, b, l).budget),
{
}

#[verifier::rlimit(100)]
#[verifier::spinoff_prover]
proof fn lemma_bls_budget_Bls12_381_G2_HashToGroup(
    cm: CostModel,
    fun: DefaultFunction,
    args: Seq<ValueV>,
    b: (int, int),
    l: Seq<Seq<char>>,
)
    requires
        b.0 >= i64::MIN,
        b.1 >= i64::MIN,
        fun == DefaultFunction::Bls12_381_G2_HashToGroup,
    ensures
        crate::runtime::spec_bls(cm, fun, args, b, l).budget.0 <= b.0,
        crate::runtime::spec_bls(cm, fun, args, b, l).budget.1 <= b.1,
        !exhausted(b) && crate::runtime::spec_bls(cm, fun, args, b, l).res is Ok ==> !exhausted(crate::runtime::spec_bls(cm, fun, args, b, l).budget),
{
}

#[verifier::rlimit(100)]
#[verifier::spinoff_prover]
proof fn lemma_bls_budget_Bls12_381_MillerLoop(
    cm: CostModel,
    fun: DefaultFunction,
    args: Seq<ValueV>,
    b: (int, int),
    l: Seq<Seq<char>>,
)
    requires
        b.0 >= i64::MIN,
        b.1 >= i64::MIN,
        fun == DefaultFunction::Bls12_381_MillerLoop,
    ensures
        crate::runtime::spec_bls(cm, fun, args, b, l).budget.0 <= b.0,
        crate::runtime::spec_bls(cm, fun, args, b, l).budget.1 <= b.1,
        !exhausted(b) && crate::runtime::spec_bls(cm, fun, args, b, l).res is Ok ==> !exhausted(crate::runtime::spec_bls(cm, fun, args, b, l).budget),
{
}

#[verifier::rlimit(100)]
#[verifier::spinoff_prover]
proof fn lemma_bls_budget_Bls12_381_MulMlResult(
    cm: CostModel,
    fun: DefaultFunction,
    args: Seq<ValueV>,
    b: (int, int),
    l: Seq<Seq<char>>,
)
    requires
        b.0 >= i64::MIN,
        b.1 >= i64::MIN,
        fun == DefaultFunction::Bls12_381_MulMlResult,
    ensures
        crate::runtime::spec_bls(cm, fun, args, b, l).budget.0 <= b.0,
        crate::runtime::spec_bls(cm, fun, args, b, l).budget.1 <= b.1,
        !exhausted(b) && crate::runtime::spec_bls(cm, fun, args, b, l).res is Ok ==> !exhausted(crate::runtime::spec_bls(cm, fun, args, b, l).budget),
{
}

#[verifier::rlimit(100)]
#[verifier::spinoff_prover]
proof fn lemma_bls_budget_Bls12_381_FinalVerify(
    cm: CostModel,
    fun: DefaultFunction,
    args: Seq<ValueV>,
    b: (int, int),
    l: Seq<Seq<char>>,
)
    requires
        b.0 >= i64::MIN,
        b.1 >= i64::MIN,
        fun == DefaultFunction::Bls12_381_FinalVerify,
    ensures
        crate::runtime::spec_bls(cm, fun, args, b, l).budget.0 <= b.0,
        crate::runtime::spec_bls(cm, fun, args, b, l).budget.1 <= b.1,
        !exhausted(b) && crate::runtime::spec_bls(cm, fun, args, b, l).res is Ok ==> !exhausted(crate::runtime::spec_bls(cm, fun, args, b, l).budget),
{
}

#[verifier::rlimit(100)]
#[verifier::spinoff_prover]
proof fn lemma_bls_budget(
    cm: CostModel,
    fun: DefaultFunction,
    args: Seq<ValueV>,
    b: (int, int),
    l: Seq<Seq<char>>,
)
    requires
        b.0 >= i64::MIN,
        b.1 >= i64::MIN,
        fun == DefaultFunction::Bls12_381_G1_Add || fun == DefaultFunction::Bls12_381_G1_Neg || fun == DefaultFunction::Bls12_381_G1_ScalarMul || fun == DefaultFunction::Bls12_381_G1_Equal || fun == DefaultFunction::Bls12_381_G1_Compress || fun == DefaultFunction::Bls12_381_G1_Uncompress || fun == DefaultFunction::Bls12_381_G1_HashToGroup || fun == DefaultFunction::Bls12_381_G2_Add || fun == DefaultFunction::Bls12_381_G2_Neg || fun == DefaultFunction::Bls12_381_G2_ScalarMul || fun == DefaultFunction::Bls12_381_G2_Equal || fun == DefaultFunction::Bls12_381_G2_Compress || fun == DefaultFunction::Bls12_381_G2_Uncompress || fun == DefaultFunction::Bls12_381_G2_HashToGroup || fun == DefaultFunction::Bls12_381_MillerLoop || fun == DefaultFunction::Bls12_381_MulMlResult || fun == DefaultFunction::Bls12_381_FinalVerify,
    ensures
        crate::runtime::spec_bls(cm, fun, args, b, l).budget.0 <= b.0,
        crate::runtime::spec_bls(cm, fun, args, b, l).budget.1 <= b.1,
        !exhausted(b) && crate::runtime::spec_bls(cm, fun, args, b, l).res is Ok ==> !exhausted(crate::runtime::spec_bls(cm, fun, args, b, l).budget),
{
    if fun == DefaultFunction::Bls12_381_G1_Add {
        lemma_bls_budget_Bls12_381_G1_Add(cm, fun, args, b, l);
    }
    if fun == DefaultFunction::Bls12_381_G1_Neg {
        lemma_bls_budget_Bls12_381_G1_Neg(cm, fun, args, b, l);
    }
    if fun == DefaultFunction::Bls12_381_G1_ScalarMul {
        lemma_bls_budget_Bls12_381_G1_ScalarMul(cm, fun, args, b, l);
    }
    if fun == DefaultFunction::Bls12_381_G1_Equal {
        lemma_bls_budget_Bls12_381_G1_Equal(cm, fun, args, b, l);
    }
    if fun == DefaultFunction::Bls12_381_G1_Compress {
        lemma_bls_budget_Bls12_381_G1_Compress(cm, fun, args, b, l);
    }
    if fun == DefaultFunction::Bls12_381_G1_Uncompress {
        lemma_bls_budget_Bls12_381_G1_Uncompress(cm, fun, args, b, l);
    }
    if fun == DefaultFunction::Bls12_381_G1_HashToGroup {
        lemma_bls_budget_Bls12_381_G1_HashToGroup(cm, fun, args, b, l);
    }
    if fun == DefaultFunction::Bls12_381_G2_Add {
        lemma_bls_budget_Bls12_381_G2_Add(cm, fun, args, b, l);
    }
    if fun == DefaultFunction::Bls12_381_G2_Neg {
        lemma_bls_budget_Bls12_381_G2_Neg(cm, fun, args, b, l);
    }
    if fun == DefaultFunction::Bls12_381_G2_ScalarMul {
        lemma_bls_budget_Bls12_381_G2_ScalarMul(cm, fun, args, b, l);
    }
    if fun == DefaultFunction::Bls12_381_G2_Equal {
        lemma_bls_budget_Bls12_381_G2_Equal(cm, fun, args, b, l);
    }
    if fun == DefaultFunction::Bls12_381_G2_Compress {
        lemma_bls_budget_Bls12_381_G2_Compress(cm, fun, args, b, l);
    }
    if fun == DefaultFunction::Bls12_381_G2_Uncompress {
        lemma_bls_budget_Bls12_381_G2_Uncompress(cm, fun, args, b, l);
    }
    if fun == DefaultFunction::Bls12_381_G2_HashToGroup {
        lemma_bls_budget_Bls12_381_G2_HashToGroup(cm, fun, args, b, l);
    }
    if fun == DefaultFunction::Bls12_381_MillerLoop {
        lemma_bls_budget_Bls12_381_MillerLoop(cm, fun, args, b, l);
    }
    if fun == DefaultFunction::Bls12_381_MulMlResult {
        lemma_bls_budget_Bls12_381_MulMlResult(cm, fun, args, b, l);
    }
    if fun == DefaultFunction::Bls12_381_FinalVerify {
        lemma_bls_budget_Bls12_381_FinalVerify(cm, fun, args, b, l);
    }
}

#[verifier::rlimit(100)]
#[verifier::spinoff_prover]
proof fn lemma_bits_budget_IntegerToByteString(
    cm: CostModel,
    fun: DefaultFunction,
    args: Seq<ValueV>,
    b: (int, int),
    l: Seq<Seq<char>>,
)
    requires
        b.0 >= i64::MIN,
        b.1 >= i64::MIN,
        fun == DefaultFunction::IntegerToByteString,
    ensures
        crate::runtime::spec_bits_group(cm, fun, args, b, l).budget.0 <= b.0,
        crate::runtime::spec_bits_group(cm, fun, args, b, l).budget.1 <= b.1,
        !exhausted(b) && crate::runtime::spec_bits_group(cm, fun, args, b, l).res is Ok ==> !exhausted(crate::runtime::spec_bits_group(cm, fun, args, b, l).budget),
{
}

#[verifier::rlimit(100)]
#[verifier::spinoff_prover]
proof fn lemma_bits_budget_ByteStringToInteger(
    cm: CostModel,
    fun: DefaultFunction,
    args: Seq<ValueV>,
    b: (int, int),
    l: Seq<Seq<char>>,
)
    requires
        b.0 >= i64::MIN,
        b.1 >= i64::MIN,
        fun == DefaultFunction::ByteStringToInteger,
    ensures
        crate::runtime::spec_bits_group(cm, fun, args, b, l).budget.0 <= b.0,
        crate::runtime::spec_bits_group(cm, fun, args, b, l).budget.1 <= b.1,
        !exhausted(b) && crate::runtime::spec_bits_group(cm, fun, args, b, l).res is Ok ==> !exhausted(crate::runtime::spec_bits_group(cm, fun, args, b, l).budget),
{
}

#[verifier::rlimit(100)]
#[verifier::spinoff_prover]
proof fn lemma_bits_budget_AndByteString(
    cm: CostModel,
    fun: DefaultFunction,
    args: Seq<ValueV>,
    b: (int, int),
    l: Seq<Seq<char>>,
)
    requires
        b.0 >= i64::MIN,
        b.1 >= i64::MIN,
        fun == DefaultFunction::AndByteString,
    ensures
        crate::runtime::spec_bits_group(cm, fun, args, b, l).budget.0 <= b.0,
        crate::runtime::spec_bits_group(cm, fun, args, b, l).budget.1 <= b.1,
        !exhausted(b) && crate::runtime::spec_bits_group(cm, fun, args, b, l).res is Ok ==> !exhausted(crate::runtime::spec_bits_group(cm, fun, args, b, l).budget),
{
}

#[verifier::rlimit(100)]
#[verifier::spinoff_prover]
proof fn lemma_bits_budget_OrByteString(
    cm: CostModel,
    fun: DefaultFunction,
    args: Seq<ValueV>,
    b: (int, int),
    l: Seq<Seq<char>>,
)
    requires
        b.0 >= i64::MIN,
        b.1 >= i64::MIN,
        fun == DefaultFunction::OrByteString,
    ensures
        crate::runtime::spec_bits_group(cm, fun, args, b, l).budget.0 <= b.0,
        crate::runtime::spec_bits_group(cm, fun, args, b, l).budget.1 <= b.1,
        !exhausted(b) && crate::runtime::spec_bits_group(cm, fun, args, b, l).res is Ok ==> !exhausted(crate::runtime::spec_bits_group(cm, fun, args, b, l).budget),
{
}

#[verifier::rlimit(100)]
#[verifier::spinoff_prover]
proof fn lemma_bits_budget_XorByteString(
    cm: CostModel,
    fun: DefaultFunction,
    args: Seq<ValueV>,
    b: (int, int),
    l: Seq<Seq<char>>,
)
    requires
        b.0 >= i64::MIN,
        b.1 >= i64::MIN,
        fun == DefaultFunction::XorByteString,
    ensures
        crate::runtime::spec_bits_group(cm, fun, args, b, l).budget.0 <= b.0,
        crate::runtime::spec_bits_group(cm, fun, args, b, l).budget.1 <= b.1,
        !exhausted(b) && crate::runtime::spec_bits_group(cm, fun, args, b, l).res is Ok ==> !exhausted(crate::runtime::spec_bits_group(cm, fun, args, b, l).budget),
{
}

#[verifier::rlimit(100)]
#[verifier::spinoff_prover]
proof fn lemma_bits_budget_ComplementByteString(
    cm: CostModel,
    fun: DefaultFunction,
    args: Seq<ValueV>,
    b: (int, int),
    l: Seq<Seq<char>>,
)
    requires
        b.0 >= i64::MIN,
        b.1 >= i64::MIN,
        fun == DefaultFunction::ComplementByteString,
    ensures
        crate::runtime::spec_bits_group(cm, fun, args, b, l).budget.0 <= b.0,
        crate::runtime::spec_bits_group(cm, fun, args, b, l).budget.1 <= b.1,
        !exhausted(b) && crate::runtime::spec_bits_group(cm, fun, args, b, l).res is Ok ==> !exhausted(crate::runtime::spec_bits_group(cm, fun, args, b, l).budget),
{
}

#[verifier::rlimit(100)]
#[verifier::spinoff_prover]
proof fn lemma_bits_budget_ReadBit(
    cm: CostModel,
    fun: DefaultFunction,
    args: Seq<ValueV>,
    b: (int, int),
    l: Seq<Seq<char>>,
)
    requires
        b.0 >= i64::MIN,
        b.1 >= i64::MIN,
        fun == DefaultFunction::ReadBit,
    ensures
        crate::runtime::spec_bits_group(cm, fun, args, b, l).budget.0 <= b.0,
        crate::runtime::spec_bits_group(cm, fun, args, b, l).budget.1 <= b.1,
        !exhausted(b) && crate::runtime::spec_bits_group(cm, fun, args, b, l).res is Ok ==> !exhausted(crate::runtime::spec_bits_group(cm, fun, args, b, l).budget),
{
}

#[verifier::rlimit(100)]
#[verifier::spinoff_prover]
proof fn lemma_bits_budget_WriteBits(
    cm: CostModel,
    fun: DefaultFunction,
    args: Seq<ValueV>,
    b: (int, int),
    l: Seq<Seq<char>>,
)
    requires
        b.0 >= i64::MIN,
        b.1 >= i64::MIN,
        fun == DefaultFunction::WriteBits,
    ensures
        crate::runtime::spec_bits_group(cm, fun, args, b, l).budget.0 <= b.0,
        crate::runtime::spec_bits_group(cm, fun, args, b, l).budget.1 <= b.1,
        !exhausted(b) && crate::runtime::spec_bits_group(cm, fun, args, b, l).res is Ok ==> !exhausted(crate::runtime::spec_bits_group(cm, fun, args, b, l).budget),
{
}

#[verifier::rlimit(100)]
#[verifier::spinoff_prover]
proof fn lemma_bits_budget_ReplicateByte(
    cm: CostModel,
    fun: DefaultFunction,
    args: Seq<ValueV>,
    b: (int, int),
    l: Seq<Seq<char>>,
)
    requires
        b.0 >= i64::MIN,
        b.1 >= i64::MIN,
        fun == DefaultFunction::ReplicateByte,
    ensures
        crate::runtime::spec_bits_group(cm, fun, args, b, l).budget.0 <= b.0,
        crate::runtime::spec_bits_group(cm, fun, args, b, l).budget.1 <= b.1,
        !exhausted(b) && crate::runtime::spec_bits_group(cm, fun, args, b, l).res is Ok ==> !exhausted(crate::runtime::spec_bits_group(cm, fun, args, b, l).budget),
{
}

#[verifier::rlimit(100)]
#[verifier::spinoff_prover]
proof fn lemma_bits_budget_ShiftByteString(
    cm: CostModel,
    fun: DefaultFunction,
    args: Seq<ValueV>,
    b: (int, int),
    l: Seq<Seq<char>>,
)
    requires
        b.0 >= i64::MIN,
        b.1 >= i64::MIN,
        fun == DefaultFunction::ShiftByteString,
    ensures
        crate::runtime::spec_bits_group(cm, fun, args, b, l).budget.0 <= b.0,
        crate::runtime::spec_bits_group(cm, fun, args, b, l).budget.1 <= b.1,
        !exhausted(b) && crate::runtime::spec_bits_group(cm, fun, args, b, l).res is Ok ==> !exhausted(crate::runtime::spec_bits_group(cm, fun, args, b, l).budget),
{
}

#[verifier::rlimit(100)]
#[verifier::spinoff_prover]
proof fn lemma_bits_budget_RotateByteString(
    cm: CostModel,
    fun: DefaultFunction,
    args: Seq<ValueV>,
    b: (int, int),
    l: Seq<Seq<char>>,
)
    requires
        b.0 >= i64::MIN,
        b.1 >= i64::MIN,
        fun == DefaultFunction::RotateByteString,
    ensures
        crate::runtime::spec_bits_group(cm, fun, args, b, l).budget.0 <= b.0,
        crate::runtime::spec_bits_group(cm, fun, args, b, l).budget.1 <= b.1,
        !exhausted(b) && crate::runtime::spec_bits_group(cm, fun, args, b, l).res is Ok ==> !exhausted(crate::runtime::spec_bits_group(cm, fun, args, b, l).budget),
{
}

#[verifier::rlimit(100)]
#[verifier::spinoff_prover]
proof fn lemma_bits_budget_CountSetBits(
    cm: CostModel,
    fun: DefaultFunction,
    args: Seq<ValueV>,
    b: (int, int),
    l: Seq<Seq<char>>,
)
    requires
        b.0 >= i64::MIN,
        b.1 >= i64::MIN,
        fun == DefaultFunction::CountSetBits,
    ensures
        crate::runtime::spec_bits_group(cm, fun, args, b, l).budget.0 <= b.0,
        crate::runtime::spec_bits_group(cm, fun, args, b, l).budget.1 <= b.1,
        !exhausted(b) && crate::runtime::spec_bits_group(cm, fun, args, b, l).res is Ok ==> !exhausted(crate::runtime::spec_bits_group(cm, fun, args, b, l).budget),
{
}

#[verifier::rlimit(100)]
#[verifier::spinoff_prover]
proof fn lemma_bits_budget_FindFirstSetBit(
    cm: CostModel,
    fun: DefaultFunction,
    args: Seq<ValueV>,
    b: (int, int),
    l: Seq<Seq<char>>,
)
    requires
        b.0 >= i64::MIN,
        b.1 >= i64::MIN,
        fun == DefaultFunction::FindFirstSetBit,
    ensures
        crate::runtime::spec_bits_group(cm, fun, args, b, l).budget.0 <= b.0,
        crate::runtime::spec_bits_group(cm, fun, args, b, l).budget.1 <= b.1,
        !exhausted(b) && crate::runtime::spec_bits_group(cm, fun, args, b, l).res is Ok ==> !exhausted(crate::runtime::spec_bits_group(cm, fun, args, b, l).budget),
{
}

#[verifier::rlimit(100)]
#[verifier::spinoff_prover]
proof fn lemma_bits_budget(
    cm: CostModel,
    fun: DefaultFunction,
    args: Seq<ValueV>,
    b: (int, int),
    l: Seq<Seq<char>>,
)
    requires
        b.0 >= i64::MIN,
        b.1 >= i64::MIN,
        fun == DefaultFunction::IntegerToByteString || fun == DefaultFunction::ByteStringToInteger || fun == DefaultFunction::AndByteString || fun == DefaultFunction::OrByteString || fun == DefaultFunction::XorByteString || fun == DefaultFunction::ComplementByteString || fun == DefaultFunction::ReadBit || fun == DefaultFunction::WriteBits || fun == DefaultFunction::ReplicateByte || fun == DefaultFunction::ShiftByteString || fun == DefaultFunction::RotateByteString || fun == DefaultFunction::CountSetBits || fun == DefaultFunction::FindFirstSetBit,
    ensures
        crate::runtime::spec_bits_group(cm, fun, args, b, l).budget.0 <= b.0,
        crate::runtime::spec_bits_group(cm, fun, args, b, l).budget.1 <= b.1,
        !exhausted(b) && crate::runtime::spec_bits_group(cm, fun, args, b, l).res is Ok ==> !exhausted(crate::runtime::spec_bits_group(cm, fun, args, b, l).budget),
{
    if fun == DefaultFunction::IntegerToByteString {
        lemma_bits_budget_IntegerToByteString(cm, fun, args, b, l);
    }
    if fun == DefaultFunction::ByteStringToInteger {
        lemma_bits_budget_ByteStringToInteger(cm, fun, args, b, l);
    }
    if fun == DefaultFunction::AndByteString {
        lemma_bits_budget_AndByteString(cm, fun, args, b, l);
    }
    if fun == DefaultFunction::OrByteString {
        lemma_bits_budget_OrByteString(cm, fun, args, b, l);
    }
    if fun == DefaultFunction::XorByteString {
        lemma_bits_budget_XorByteString(cm, fun, args, b, l);
    }
    if fun == DefaultFunction::ComplementByteString {
        lemma_bits_budget_ComplementByteString(cm, fun, args, b, l);
    }
    if fun == DefaultFunction::ReadBit {
        lemma_bits_budget_ReadBit(cm, fun, args, b, l);
    }
    if fun == DefaultFunction::WriteBits {
        lemma_bits_budget_WriteBits(cm, fun, args, b, l);
    }
    if fun == DefaultFunction::ReplicateByte {
        lemma_bits_budget_ReplicateByte(cm, fun, args, b, l);
    }
    if fun == DefaultFunction::ShiftByteString {
        lemma_bits_budget_ShiftByteString(cm, fun, args, b, l);
    }
    if fun == DefaultFunction::RotateByteString {
        lemma_bits_budget_RotateByteString(cm, fun, args, b, l);
    }
    if fun == DefaultFunction::CountSetBits {
        lemma_bits_budget_CountSetBits(cm, fun, args, b, l);
    }
    if fun == DefaultFunction::FindFirstSetBit {
        lemma_bits_budget_FindFirstSetBit(cm, fun, args, b, l);
    }
}

/// Every dispatch leaves the budget no larger.
#[verifier::rlimit(100)]
#[verifier::spinoff_prover]
proof fn lemma_call_budget(
    cm: CostModel,
    sem: BuiltinSemantics,
    fun: DefaultFunction,
    args: Seq<ValueV>,
    b: (int, int),
    l: Seq<Seq<char>>,
)
    requires
        b.0 >= i64::MIN,
        b.1 >= i64::MIN,
    ensures
        spec_call(cm, sem, fun, args, b, l).budget.0 <= b.0,
        spec_call(cm, sem, fun, args, b, l).budget.1 <= b.1,
        !exhausted(b) && spec_call(cm, sem, fun, args, b, l).res is Ok ==> !exhausted(
            spec_call(cm, sem, fun, args, b, l).budget,
        ),
{
    reveal(crate::runtime::spec_call);
    lemma_int_budget(cm, fun, args, b, l);
    lemma_bytes_budget(cm, fun, args, b, l);
    lemma_hash_budget(cm, fun, args, b, l);
    lemma_sig_budget(cm, fun, args, b, l);
    lemma_string_budget(cm, fun, args, b, l);
    lemma_control_budget(cm, fun, args, b, l);
    lemma_list_budget(cm, fun, args, b, l);
    lemma_data_budget(cm, fun, args, b, l);
    if fun is Bls12_381_G1_Add || fun is Bls12_381_G1_Neg || fun is Bls12_381_G1_ScalarMul
        || fun is Bls12_381_G1_Equal || fun is Bls12_381_G1_Compress
        || fun is Bls12_381_G1_Uncompress || fun is Bls12_381_G1_HashToGroup
        || fun is Bls12_381_G2_Add || fun is Bls12_381_G2_Neg || fun is Bls12_381_G2_ScalarMul
        || fun is Bls12_381_G2_Equal || fun is Bls12_381_G2_Compress
        || fun is Bls12_381_G2_Uncompress || fun is Bls12_381_G2_HashToGroup
        || fun is Bls12_381_MillerLoop || fun is Bls12_381_MulMlResult
        || fun is Bls12_381_FinalVerify {
        lemma_bls_budget(cm, fun, args, b, l);
    }
    if fun is IntegerToByteString || fun is ByteStringToInteger || fun is AndByteString
        || fun is OrByteString || fun is XorByteString || fun is ComplementByteString
        || fun is ReadBit || fun is WriteBits || fun is ReplicateByte || fun is ShiftByteString
        || fun is RotateByteString || fun is CountSetBits || fun is FindFirstSetBit {
        lemma_bits_budget(cm, fun, args, b, l);
    }
    if fun == DefaultFunction::ConsByteString {
        assert(spec_call(cm, sem, fun, args, b, l) == crate::runtime::spec_cons_byte(
            cm,
            sem,
            args,
            b,
            l,
        ));
    }
}

#[verifier::rlimit(100)]
#[verifier::spinoff_prover]
proof fn lemma_compute_budget(cm: CostModel, t: TermV, env: Seq<ValueV>, s: StateV)
    requires
        cm.wf(),
        s.budget.0 >= i64::MIN,
        s.budget.1 >= i64::MIN,
    ensures
        spec_compute(cm, t, env, s).budget.0 <= s.budget.0,
        spec_compute(cm, t, env, s).budget.1 <= s.budget.1,
        !exhausted(s.budget) && !terminal(spec_compute(cm, t, env, s)) ==> !exhausted(
            spec_compute(cm, t, env, s).budget,
        ),
{
}

#[verifier::rlimit(100)]
#[verifier::spinoff_prover]
proof fn lemma_return_budget(cm: CostModel, sem: BuiltinSemantics, v: ValueV, s: StateV)
    requires
        cm.wf(),
        s.step == StepV::Return(v),
        s.budget.0 >= i64::MIN,
        s.budget.1 >= i64::MIN,
    ensures
        spec_return(cm, sem, v, s).budget.0 <= s.budget.0,
        spec_return(cm, sem, v, s).budget.1 <= s.budget.1,
        !exhausted(s.budget) && !terminal(spec_return(cm, sem, v, s)) ==> !exhausted(
            spec_return(cm, sem, v, s).budget,
        ),
{
    if s.stack.len() > 0 {
        let top = s.stack.last();
        match top {
            FrameV::AwaitArg(f) => {
                if f is Builtin {
                    let rt = f->Builtin_0;
                    lemma_call_budget(cm, sem, rt.fun, rt.args.push(v), s.budget, s.logs);
                }
            },
            FrameV::AwaitFunValue(arg) => {
                if v is Builtin {
                    let rt = v->Builtin_0;
                    lemma_call_budget(cm, sem, rt.fun, rt.args.push(arg), s.budget, s.logs);
                }
            },
            FrameV::ForceF => {
                if v is Builtin {
                    let rt = v->Builtin_0;
                    lemma_call_budget(cm, sem, rt.fun, rt.args, s.budget, s.logs);
                }
            },
            _ => {},
        }
    }
}

/// Budget monotonicity: one step never increases either budget counter,
/// and a step that drives a counter negative halts the machine at once.
pub proof fn lemma_budget_monotone(cm: CostModel, sem: BuiltinSemantics, s: StateV)
    requires
        cm.wf(),
        s.budget.0 >= i64::MIN,
        s.budget.1 >= i64::MIN,
    ensures
        spec_step(cm, sem, s).budget.0 <= s.budget.0,
        spec_step(cm, sem, s).budget.1 <= s.budget.1,
        !exhausted(s.budget) && !terminal(spec_step(cm, sem, s)) ==> !exhausted(
            spec_step(cm, sem, s).budget,
        ),
{
    match s.step {
        StepV::Done(_) => {},
        StepV::Failed(_) => {},
        StepV::Compute(t, env) => {
            lemma_compute_budget(cm, t, env, s);
        },
        StepV::Return(v) => {
            lemma_return_budget(cm, sem, v, s);
        },
    }
}

/// The machine instance: the cost table, the semantics variant, the
/// remaining budget and the trace log it owns.
#[derive(Debug)]
pub struct Machine {
    pub costs: CostModel,
    pub semantics: BuiltinSemantics,
    pub budget: ExBudget,
    pub logs: Vec<String>,
}

impl Machine {
    pub open spec fn wf(self) -> bool {
        self.costs.wf()
    }

    /// A machine with the whole initial budget and an empty log.
    pub fn new(costs: CostModel, semantics: BuiltinSemantics, budget: ExBudget) -> (r: Machine)
        requires
            costs.wf(),
        ensures
            r.wf(),
            r.costs == costs,
            r.semantics == semantics,
            r.budget == budget,
            logs_view(r.logs@) == Seq::<Seq<char>>::empty(),
    {
        let r = Machine { costs, semantics, budget, logs: Vec::new() };
        proof {
            assert(logs_view(r.logs@) =~= Seq::<Seq<char>>::empty());
        }
        r
    }

    /// Dispatches one saturated builtin: exactly what `spec_call` says,
    /// debiting this machine's budget and extending its log.
    pub fn call(&mut self, runtime: &Runtime) -> (r: Result<Value, MachineError>)
        requires
            old(self).wf(),
            runtime.args@.len() == runtime.fun.spec_arity(),
            crate::runtime::wf_args(runtime.args@),
        ensures
            final(self).wf(),
            final(self).costs == old(self).costs,
            final(self).semantics == old(self).semantics,
            ({
                let out = spec_call(
                    old(self).costs,
                    old(self).semantics,
                    runtime.fun,
                    crate::runtime::vals_view(runtime.args@),
                    budget_view(old(self).budget),
                    logs_view(old(self).logs@),
                );
                &&& budget_view(final(self).budget) == out.budget
                &&& logs_view(final(self).logs@) == out.logs
                &&& match (r, out.res) {
                    (Ok(v), Ok(vv)) => value_view(v) == vv && wf_value_exec(v) && wf_valuev(vv),
                    (Err(e), Err(ee)) => e == ee,
                    _ => false,
                }
            }),
            crate::runtime::is_hash_fun(runtime.fun) && r is Ok ==> value_view(r->Ok_0) is Con
                && value_view(r->Ok_0)->Con_0 is ByteString && value_view(
                r->Ok_0,
            )->Con_0->ByteString_0.len() == crate::runtime::digest_len(runtime.fun),
    {
        call_builtin(
            &self.costs,
            self.semantics,
            &mut self.budget,
            &mut self.logs,
            runtime.fun,
            &runtime.args,
        )
    }

    /// Debits one budget charge, as every machine step and dispatch does.
    pub fn spend_budget(&mut self, cost: ExBudget) -> (r: Result<(), MachineError>)
        requires
            cost.non_negative(),
        ensures
            final(self).costs == old(self).costs,
            final(self).semantics == old(self).semantics,
            final(self).logs == old(self).logs,
            budget_view(final(self).budget) == spec_spend(
                budget_view(old(self).budget),
                budget_view(cost),
            ),
            r is Ok <==> !exhausted(budget_view(final(self).budget)),
            r is Err ==> r->Err_0 == MachineError::OutOfBudget,
    {
        crate::runtime::spend_budget(&mut self.budget, cost)
    }
}


pub open spec fn max0(x: int) -> int {
    if x < 0 {
        0
    } else {
        x
    }
}

pub open spec fn mode_flag(s: MachineStep) -> int {
    if s is Return {
        1
    } else {
        0
    }
}

/// Well-formed at both levels: canonical payloads and well-formed views.
pub open spec fn wf2_value(v: Value) -> bool {
    wf_value_exec(v) && wf_valuev(value_view(v))
}

pub open spec fn wf2_env(e: Env) -> bool {
    wf_env_exec(e) && wf_envv(env_view(e))
}

pub open spec fn wf2_term(t: Term) -> bool {
    wf_term_exec(t) && wf_termv(term_view(t))
}

pub open spec fn wf_frame(f: Frame) -> bool {
    match f {
        Frame::AwaitFunTerm(t, env) => wf2_term(*t) && wf2_env(env),
        Frame::AwaitArg(v) => wf2_value(v),
        Frame::AwaitFunValue(v) => wf2_value(v),
        Frame::ForceF => true,
        Frame::ConstrF { tag, done, rest, env } => {
            &&& forall|i: int| 0 <= i < done@.len() ==> wf2_value(#[trigger] done@[i])
            &&& forall|i: int| 0 <= i < rest@.len() ==> wf2_term(*(#[trigger] rest@[i]))
            &&& wf2_env(env)
        },
        Frame::CasesF { branches, env } => {
            &&& forall|i: int| 0 <= i < branches@.len() ==> wf2_term(*(#[trigger] branches@[i]))
            &&& wf2_env(env)
        },
    }
}

pub open spec fn wf_stack(st: Seq<Frame>) -> bool {
    forall|i: int| 0 <= i < st.len() ==> wf_frame(#[trigger] st[i])
}

pub open spec fn wf_mstep(s: MachineStep) -> bool {
    match s {
        MachineStep::Compute(t, env) => wf2_term(*t) && wf2_env(env),
        MachineStep::Return(v) => wf2_value(v),
        MachineStep::Done(v) => wf2_value(v),
        MachineStep::Failed(_) => true,
    }
}

pub open spec fn mk_state(
    st: MachineStep,
    stack: Seq<Frame>,
    budget: ExBudget,
    logs: Seq<String>,
) -> StateV {
    StateV {
        step: step_view(st),
        stack: stack_view(stack),
        budget: budget_view(budget),
        logs: logs_view(logs),
    }
}

/// Clones the tail of a shared-term vector from `from` on.
fn rc_terms_tail(v: &Vec<Rc<Term>>, from: usize) -> (r: Vec<Rc<Term>>)
    requires
        from <= v@.len(),
    ensures
        r@.len() == v@.len() - from,
        forall|i: int| 0 <= i < r@.len() ==> r@[i] == v@[from + i],
{
    let mut r: Vec<Rc<Term>> = Vec::new();
    let mut i: usize = from;
    while i < v.len()
        invariant
            from <= i <= v@.len(),
            r@.len() == i - from,
            forall|k: int| 0 <= k < r@.len() ==> r@[k] == v@[from + k],
        decreases v@.len() - i,
    {
        r.push(rc_clone(&v[i]));
        i += 1;
    }
    r
}


impl Machine {
    /// One Compute transition, proved to follow `spec_compute`.
    #[verifier::rlimit(100)]
    #[verifier::spinoff_prover]
    fn compute_step(&mut self, t: Rc<Term>, env: Env, stack: &mut Vec<Frame>) -> (r: MachineStep)
        requires
            old(self).wf(),
            wf2_term(*t),
            wf2_env(env),
            wf_stack(old(stack)@),
        ensures
            final(self).wf(),
            final(self).costs == old(self).costs,
            final(self).semantics == old(self).semantics,
            wf_mstep(r),
            wf_stack(final(stack)@),
            ({
                let pre = mk_state(
                    MachineStep::Compute(t, env),
                    old(stack)@,
                    old(self).budget,
                    old(self).logs@,
                );
                let post = spec_compute(old(self).costs, term_view(*t), env_view(env), pre);
                &&& step_view(r) == post.step
                &&& stack_view(final(stack)@) == post.stack
                &&& budget_view(final(self).budget) == post.budget
                &&& logs_view(final(self).logs@) == post.logs
            }),
            !(r is Done || r is Failed) ==> max0(budget_view(final(self).budget).0) < max0(
                budget_view(old(self).budget).0,
            ),
    {
        proof {
            lemma_term_unfold(&*t);
        }
        match &*t {
            Term::Var(d) => {
                let cost = self.costs.machine.variable;
                if let Err(e) = self.spend_budget(cost) {
                    return MachineStep::Failed(e);
                }
                let i = d.index();
                match env_lookup(&env, i) {
                    Some(v) => {
                        let r2 = MachineStep::Return(v);
                        proof {
                            assert(wf_valuev(env_view(env)[i as int]));
                            assert(wf_mstep(r2));
                        }
                        r2
                    },
                    None => MachineStep::Failed(MachineError::OpenTermEvaluated(*d)),
                }
            },
            Term::Constant(c) => {
                let cost = self.costs.machine.constant;
                if let Err(e) = self.spend_budget(cost) {
                    return MachineStep::Failed(e);
                }
                let r = MachineStep::Return(Value::Con(rc_clone(c)));
                proof {
                    lemma_value_unfold(&r->Return_0);
                    assert(wf_mstep(r));
                }
                r
            },
            Term::Lambda { parameter, body } => {
                let cost = self.costs.machine.lambda;
                if let Err(e) = self.spend_budget(cost) {
                    return MachineStep::Failed(e);
                }
                let r = MachineStep::Return(
                    Value::Lambda { parameter: *parameter, body: rc_clone(body), env },
                );
                proof {
                    lemma_value_unfold(&r->Return_0);
                    assert(wf_termv(rc_term_view(&t)));
                    assert(rc_term_view(&t) == TermV::Lambda(
                        Box::new(term_view(*t->Lambda_body)),
                    ));
                    assert(wf_termv(term_view(*t->Lambda_body)));
                    assert(wf_mstep(r));
                }
                r
            },
            Term::Delay(body) => {
                let cost = self.costs.machine.delay;
                if let Err(e) = self.spend_budget(cost) {
                    return MachineStep::Failed(e);
                }
                let r = MachineStep::Return(Value::Delay { body: rc_clone(body), env });
                proof {
                    lemma_value_unfold(&r->Return_0);
                    assert(wf_termv(rc_term_view(&t)));
                    assert(rc_term_view(&t) == TermV::Delay(Box::new(term_view(*t->Delay_0))));
                    assert(wf_termv(term_view(*t->Delay_0)));
                    assert(wf_mstep(r));
                }
                r
            },
            Term::Force(t1) => {
                let cost = self.costs.machine.force;
                if let Err(e) = self.spend_budget(cost) {
                    return MachineStep::Failed(e);
                }
                stack.push(Frame::ForceF);
                proof {
                    assert(stack_view(stack@) =~= stack_view(old(stack)@).push(FrameV::ForceF));
                    assert(wf_termv(rc_term_view(&t)));
                    assert(rc_term_view(&t) == TermV::Force(Box::new(term_view(*t->Force_0))));
                    assert(wf_termv(term_view(*t->Force_0)));
                }
                let r2 = MachineStep::Compute(rc_clone(t1), env);
                proof {
                    assert(wf_mstep(r2));
                }
                r2
            },
            Term::Apply { function, argument } => {
                let cost = self.costs.machine.apply;
                if let Err(e) = self.spend_budget(cost) {
                    return MachineStep::Failed(e);
                }
                let f = Frame::AwaitFunTerm(rc_clone(argument), clone_env(&env));
                proof {
                    assert(frame_view(f) == FrameV::AwaitFunTerm(
                        term_view(*t->Apply_argument),
                        env_view(env),
                    ));
                }
                stack.push(f);
                proof {
                    assert(stack_view(stack@) =~= stack_view(old(stack)@).push(
                        FrameV::AwaitFunTerm(term_view(*t->Apply_argument), env_view(env)),
                    ));
                }
                proof {
                    assert(wf_termv(rc_term_view(&t)));
                    assert(rc_term_view(&t) == TermV::Apply(
                        Box::new(term_view(*t->Apply_function)),
                        Box::new(term_view(*t->Apply_argument)),
                    ));
                    assert(wf_termv(term_view(*t->Apply_function)));
                    assert(wf_termv(term_view(*t->Apply_argument)));
                }
                let r2 = MachineStep::Compute(rc_clone(function), env);
                proof {
                    assert(wf_mstep(r2));
                }
                r2
            },
            Term::Builtin(b) => {
                let cost = self.costs.machine.builtin;
                if let Err(e) = self.spend_budget(cost) {
                    return MachineStep::Failed(e);
                }
                let rt = Runtime::new(*b);
                proof {
                    assert(runtime_view(rt).args.len() == 0);
                    assert(wf_runtimev(runtime_view(rt)));
                    assert(rt.args@.len() == 0);
                }
                let r = MachineStep::Return(Value::Builtin(rt));
                proof {
                    lemma_value_unfold(&r->Return_0);
                    assert(wf_value_exec(r->Return_0));
                    assert(wf_valuev(value_view(r->Return_0)));
                    assert(wf_mstep(r));
                }
                r
            },
            Term::Error => MachineStep::Failed(MachineError::EvaluationFailure),
            Term::Constr { tag, fields } => {
                let cost = self.costs.machine.constr;
                if let Err(e) = self.spend_budget(cost) {
                    return MachineStep::Failed(e);
                }
                if fields.len() == 0 {
                    let r = MachineStep::Return(Value::Constr { tag: *tag, values: Vec::new() });
                    proof {
                        lemma_value_unfold(&r->Return_0);
                        assert(value_view(r->Return_0)->Constr_values =~= Seq::<ValueV>::empty());
                        assert(term_view(*t)->Constr_1.len() == 0);
                        assert(wf_mstep(r));
                    }
                    r
                } else {
                    let next = rc_clone(&fields[0]);
                    let rest = rc_terms_tail(fields, 1);
                    let f = Frame::ConstrF {
                        tag: *tag,
                        done: Vec::new(),
                        rest,
                        env: clone_env(&env),
                    };
                    proof {
                        let ts = rc_term_view(&t)->Constr_1;
                        assert(frame_view(f)->ConstrF_done =~= Seq::<ValueV>::empty());
                        assert forall|i: int|
                            0 <= i < frame_view(f)->ConstrF_rest.len() implies frame_view(
                            f,
                        )->ConstrF_rest[i] == ts.drop_first()[i] by {
                            assert(f->ConstrF_rest@[i] == t->Constr_fields@[1 + i]);
                        }
                        assert(frame_view(f)->ConstrF_rest =~= ts.drop_first());
                        assert(wf_frame(f));
                    }
                    stack.push(f);
                    proof {
                        let ts = rc_term_view(&t)->Constr_1;
                        assert(stack_view(stack@) =~= stack_view(old(stack)@).push(
                            FrameV::ConstrF {
                                tag: t->Constr_tag as nat,
                                done: Seq::empty(),
                                rest: ts.drop_first(),
                                env: env_view(env),
                            },
                        ));
                        assert(term_view(*t->Constr_fields@[0]) == ts[0]);
                        assert(wf_termv(rc_term_view(&t)));
                        assert forall|i: int| 0 <= i < ts.len() implies wf_termv(
                            #[trigger] ts[i],
                        ) by {}
                    }
                    let r2 = MachineStep::Compute(next, env);
                    proof {
                        assert(wf_mstep(r2));
                    }
                    r2
                }
            },
            Term::Case { constr, branches } => {
                let cost = self.costs.machine.case_branch;
                if let Err(e) = self.spend_budget(cost) {
                    return MachineStep::Failed(e);
                }
                let bs = rc_terms_tail(branches, 0);
                let f = Frame::CasesF { branches: bs, env: clone_env(&env) };
                proof {
                    let tv = rc_term_view(&t)->Case_1;
                    assert forall|i: int|
                        0 <= i < frame_view(f)->CasesF_branches.len() implies frame_view(
                        f,
                    )->CasesF_branches[i] == tv[i] by {
                        assert(f->CasesF_branches@[i] == t->Case_branches@[i]);
                    }
                    assert(frame_view(f)->CasesF_branches =~= tv);
                    assert(wf_frame(f));
                }
                stack.push(f);
                proof {
                    let tv = rc_term_view(&t)->Case_1;
                    assert(stack_view(stack@) =~= stack_view(old(stack)@).push(
                        FrameV::CasesF { branches: tv, env: env_view(env) },
                    ));
                }
                proof {
                    assert(wf_termv(rc_term_view(&t)));
                    assert(rc_term_view(&t) == TermV::Case(
                        Box::new(term_view(*t->Case_constr)),
                        rc_term_view(&t)->Case_1,
                    ));
                    assert(wf_termv(term_view(*t->Case_constr)));
                    assert forall|i: int|
                        0 <= i < rc_term_view(&t)->Case_1.len() implies wf_termv(
                        #[trigger] rc_term_view(&t)->Case_1[i],
                    ) by {}
                }
                let r2 = MachineStep::Compute(rc_clone(constr), env);
                proof {
                    assert(wf_mstep(r2));
                }
                r2
            },
        }
    }
}


impl Machine {
    /// Applies a function value to an argument value, dispatching the
    /// builtin the moment it saturates; follows `spec_apply`.
    #[verifier::rlimit(100)]
    #[verifier::spinoff_prover]
    fn apply_value(&mut self, f: Value, arg: Value, Ghost(s): Ghost<StateV>) -> (r: MachineStep)
        requires
            old(self).wf(),
            wf2_value(f),
            wf2_value(arg),
            s.budget == budget_view(old(self).budget),
            s.logs == logs_view(old(self).logs@),
        ensures
            final(self).wf(),
            final(self).costs == old(self).costs,
            final(self).semantics == old(self).semantics,
            wf_mstep(r),
            !(r is Done),
            ({
                let out = spec_apply(
                    old(self).costs,
                    old(self).semantics,
                    value_view(f),
                    value_view(arg),
                    s,
                );
                &&& step_view(r) == out.step
                &&& budget_view(final(self).budget) == out.budget
                &&& logs_view(final(self).logs@) == out.logs
            }),
            budget_view(final(self).budget).0 <= budget_view(old(self).budget).0,
    {
        proof {
            lemma_value_unfold(&f);
            if f is Lambda {
                assert(wf_valuev(value_view(f)));
                assert(wf_envv(env_view(f->Lambda_env)));
                assert(wf_termv(term_view(*f->Lambda_body)));
            }
        }
        match f {
            Value::Lambda { parameter, body, env } => {
                let ghost env0 = env_view(env);
                let env2 = env_cons(arg, env);
                let r = MachineStep::Compute(body, env2);
                proof {
                    assert(env_view(r->Compute_1) == seq![value_view(arg)] + env0);
                    assert(wf_envv(env_view(r->Compute_1))) by {
                        let ev = env_view(r->Compute_1);
                        assert forall|i: int| 0 <= i < ev.len() implies wf_valuev(
                            #[trigger] ev[i],
                        ) by {
                            if i == 0 {
                                assert(ev[0] == value_view(arg));
                            } else {
                                assert(ev[i] == env0[i - 1]);
                                assert(wf_valuev(env0[i - 1]));
                            }
                        }
                    }
                    assert(wf_mstep(r));
                }
                r
            },
            Value::Builtin(rt) => {
                if rt.is_arrow() && !rt.needs_force() {
                    let ghost rtv = runtime_view(rt);
                    proof {
                        assert(wf_runtimev(rtv));
                        assert(rtv.forces == rtv.fun.spec_force_count());
                    }
                    let rt2 = rt.push(arg);
                    if rt2.is_ready() {
                        proof {
                            assert(runtime_view(rt2).args == rtv.args.push(value_view(arg)));
                            assert(crate::runtime::wf_args(rt2.args@)) by {
                                assert forall|i: int| 0 <= i < rt2.args@.len() implies
                                    wf_value_exec(#[trigger] rt2.args@[i]) && wf_valuev(
                                    value_view(rt2.args@[i]),
                                ) by {
                                    assert(value_view(rt2.args@[i]) == runtime_view(rt2).args[i]);
                                    if i < rt.args@.len() {
                                        assert(runtime_view(rt2).args[i] == rtv.args[i]);
                                        assert(wf_valuev(rtv.args[i]));
                                        assert(wf_value_exec(rt.args@[i]));
                                    }
                                }
                            }
                            assert(crate::runtime::vals_view(rt2.args@) =~= rtv.args.push(
                                value_view(arg),
                            ));
                        }
                        let out = call_builtin(
                            &self.costs,
                            self.semantics,
                            &mut self.budget,
                            &mut self.logs,
                            rt2.fun,
                            &rt2.args,
                        );
                        proof {
                            lemma_call_budget(
                                old(self).costs,
                                old(self).semantics,
                                rt2.fun,
                                crate::runtime::vals_view(rt2.args@),
                                budget_view(old(self).budget),
                                logs_view(old(self).logs@),
                            );
                        }
                        match out {
                            Ok(v) => MachineStep::Return(v),
                            Err(e) => MachineStep::Failed(e),
                        }
                    } else {
                        let r = MachineStep::Return(Value::Builtin(rt2));
                        proof {
                            lemma_value_unfold(&r->Return_0);
                            assert(wf_value_exec(r->Return_0));
                            assert(wf_valuev(value_view(r->Return_0))) by {
                                assert forall|i: int|
                                    0 <= i < runtime_view(rt2).args.len() implies wf_valuev(
                                    #[trigger] runtime_view(rt2).args[i],
                                ) by {
                                    if i < rtv.args.len() {
                                        assert(runtime_view(rt2).args[i] == rtv.args[i]);
                                    } else {
                                        assert(runtime_view(rt2).args[i] == value_view(arg));
                                    }
                                }
                                assert(runtime_view(rt2).args.len() == rtv.args.len() + 1);
                                assert(runtime_view(rt2).args.len() <= rt2.fun.spec_arity());
                                assert(runtime_view(rt2).forces == rtv.forces);
                                assert(wf_runtimev(runtime_view(rt2)));
                            }
                            assert(wf_mstep(r));
                        }
                        r
                    }
                } else {
                    MachineStep::Failed(MachineError::UnexpectedBuiltinTermArgument)
                }
            },
            _ => MachineStep::Failed(MachineError::NonFunctionApplication),
        }
    }

    /// Forces a value: unwraps a delay or counts a force toward a builtin;
    /// follows `spec_force`.
    #[verifier::rlimit(100)]
    #[verifier::spinoff_prover]
    fn force_value(&mut self, v: Value, Ghost(s): Ghost<StateV>) -> (r: MachineStep)
        requires
            old(self).wf(),
            wf2_value(v),
            s.budget == budget_view(old(self).budget),
            s.logs == logs_view(old(self).logs@),
        ensures
            final(self).wf(),
            final(self).costs == old(self).costs,
            final(self).semantics == old(self).semantics,
            wf_mstep(r),
            !(r is Done),
            ({
                let out = spec_force(old(self).costs, old(self).semantics, value_view(v), s);
                &&& step_view(r) == out.step
                &&& budget_view(final(self).budget) == out.budget
                &&& logs_view(final(self).logs@) == out.logs
            }),
            budget_view(final(self).budget).0 <= budget_view(old(self).budget).0,
    {
        proof {
            lemma_value_unfold(&v);
        }
        match v {
            Value::Delay { body, env } => {
                let r = MachineStep::Compute(body, env);
                proof {
                    assert(wf_mstep(r));
                }
                r
            },
            Value::Builtin(rt) => {
                if rt.needs_force() {
                    let ghost rtv = runtime_view(rt);
                    proof {
                        assert(wf_runtimev(rtv));
                        assert(rt.forces < usize::MAX);
                    }
                    let rt2 = rt.force();
                    if rt2.is_ready() && !rt2.needs_force() {
                        proof {
                            assert(crate::runtime::wf_args(rt2.args@)) by {
                                assert forall|i: int| 0 <= i < rt2.args@.len() implies
                                    wf_value_exec(#[trigger] rt2.args@[i]) && wf_valuev(
                                    value_view(rt2.args@[i]),
                                ) by {
                                    assert(value_view(rt2.args@[i]) == runtime_view(rt2).args[i]);
                                    assert(runtime_view(rt2).args[i] == rtv.args[i]);
                                    assert(wf_valuev(rtv.args[i]));
                                    assert(wf_value_exec(rt.args@[i]));
                                }
                            }
                            assert(crate::runtime::vals_view(rt2.args@) =~= rtv.args);
                        }
                        let out = call_builtin(
                            &self.costs,
                            self.semantics,
                            &mut self.budget,
                            &mut self.logs,
                            rt2.fun,
                            &rt2.args,
                        );
                        proof {
                            lemma_call_budget(
                                old(self).costs,
                                old(self).semantics,
                                rt2.fun,
                                crate::runtime::vals_view(rt2.args@),
                                budget_view(old(self).budget),
                                logs_view(old(self).logs@),
                            );
                        }
                        match out {
                            Ok(v2) => MachineStep::Return(v2),
                            Err(e) => MachineStep::Failed(e),
                        }
                    } else {
                        let r = MachineStep::Return(Value::Builtin(rt2));
                        proof {
                            lemma_value_unfold(&r->Return_0);
                            assert(wf_value_exec(r->Return_0));
                            assert(wf_valuev(value_view(r->Return_0))) by {
                                assert forall|i: int|
                                    0 <= i < runtime_view(rt2).args.len() implies wf_valuev(
                                    #[trigger] runtime_view(rt2).args[i],
                                ) by {
                                    assert(runtime_view(rt2).args[i] == rtv.args[i]);
                                }
                                assert(runtime_view(rt2).args.len() == rtv.args.len());
                                assert(runtime_view(rt2).forces == rtv.forces + 1);
                                assert(runtime_view(rt2).forces <= rt2.fun.spec_force_count());
                                assert(wf_runtimev(runtime_view(rt2)));
                            }
                            assert(wf_mstep(r));
                        }
                        r
                    }
                } else {
                    MachineStep::Failed(MachineError::UnexpectedBuiltinTermArgument)
                }
            },
            _ => MachineStep::Failed(MachineError::NonPolymorphicInstantiation),
        }
    }
}


impl Machine {
    /// One Return transition against the top frame; follows `spec_return`.
    #[verifier::rlimit(100)]
    #[verifier::spinoff_prover]
    fn return_step(&mut self, v: Value, stack: &mut Vec<Frame>) -> (r: MachineStep)
        requires
            old(self).wf(),
            wf2_value(v),
            wf_stack(old(stack)@),
        ensures
            final(self).wf(),
            final(self).costs == old(self).costs,
            final(self).semantics == old(self).semantics,
            wf_mstep(r),
            wf_stack(final(stack)@),
            ({
                let pre = mk_state(
                    MachineStep::Return(v),
                    old(stack)@,
                    old(self).budget,
                    old(self).logs@,
                );
                let post = spec_return(old(self).costs, old(self).semantics, value_view(v), pre);
                &&& step_view(r) == post.step
                &&& stack_view(final(stack)@) == post.stack
                &&& budget_view(final(self).budget) == post.budget
                &&& logs_view(final(self).logs@) == post.logs
            }),
            !(r is Done || r is Failed) ==> max0(budget_view(final(self).budget).0) < max0(
                budget_view(old(self).budget).0,
            ) || (max0(budget_view(final(self).budget).0) == max0(
                budget_view(old(self).budget).0,
            ) && (r is Compute || final(stack)@.len() < old(stack)@.len())),
    {
        proof {
            lemma_value_unfold(&v);
        }
        if stack.len() == 0 {
            if matches!(&v, Value::Builtin(_)) {
                MachineStep::Failed(MachineError::UnderAppliedBuiltin)
            } else {
                MachineStep::Done(v)
            }
        } else {
            let ghost pre_stack = stack_view(stack@);
            let top = match stack.pop() {
                Some(t) => t,
                None => {
                    proof {
                        assert(false);
                    }
                    return MachineStep::Failed(MachineError::UnderAppliedBuiltin);
                },
            };
            proof {
                assert(stack_view(stack@) =~= pre_stack.drop_last());
                assert(frame_view(top) == pre_stack.last());
                assert(wf_frame(top));
            }
            let ghost s1 = StateV {
                step: StepV::Return(value_view(v)),
                stack: pre_stack.drop_last(),
                budget: budget_view(self.budget),
                logs: logs_view(self.logs@),
            };
            match top {
                Frame::AwaitFunTerm(x, env) => {
                    stack.push(Frame::AwaitArg(v));
                    proof {
                        assert(stack_view(stack@) =~= pre_stack.drop_last().push(
                            FrameV::AwaitArg(value_view(v)),
                        ));
                    }
                    let r = MachineStep::Compute(x, env);
                    proof {
                        assert(wf_mstep(r));
                    }
                    r
                },
                Frame::AwaitArg(f) => self.apply_value(f, v, Ghost(s1)),
                Frame::AwaitFunValue(arg) => self.apply_value(v, arg, Ghost(s1)),
                Frame::ForceF => self.force_value(v, Ghost(s1)),
                Frame::ConstrF { tag, done, rest, env } => {
                    let ghost done0 = crate::runtime::vals_view(done@);
                    let mut done2 = done;
                    done2.push(v);
                    proof {
                        assert(crate::runtime::vals_view(done2@) =~= done0.push(value_view(v)));
                    }
                    if rest.len() == 0 {
                        let r = MachineStep::Return(Value::Constr { tag, values: done2 });
                        proof {
                            lemma_value_unfold(&r->Return_0);
                            assert(value_view(r->Return_0)->Constr_values =~= done0.push(
                                value_view(v),
                            ));
                            assert(terms_view(rest@).len() == 0);
                            assert(wf_value_exec(r->Return_0)) by {
                                assert forall|i: int| 0 <= i < done2@.len() implies wf_value_exec(
                                    #[trigger] done2@[i],
                                ) by {
                                    if i < done0.len() {
                                        assert(done2@[i] == done@[i]);
                                    }
                                }
                            }
                            assert(wf_valuev(value_view(r->Return_0))) by {
                                assert forall|i: int|
                                    0 <= i < value_view(r->Return_0)->Constr_values.len() implies
                                    wf_valuev(
                                    #[trigger] value_view(r->Return_0)->Constr_values[i],
                                ) by {
                                    if i < done0.len() {
                                        assert(value_view(r->Return_0)->Constr_values[i]
                                            == done0[i]);
                                        assert(done0[i] == value_view(done@[i]));
                                    }
                                }
                            }
                            assert(wf_mstep(r));
                        }
                        r
                    } else {
                        let next = rc_clone(&rest[0]);
                        let rest2 = rc_terms_tail(&rest, 1);
                        let f = Frame::ConstrF {
                            tag,
                            done: done2,
                            rest: rest2,
                            env: clone_env(&env),
                        };
                        proof {
                            let ts = terms_view(rest@);
                            assert(frame_view(f)->ConstrF_done =~= done0.push(value_view(v)));
                            assert forall|i: int|
                                0 <= i < frame_view(f)->ConstrF_rest.len() implies frame_view(
                                f,
                            )->ConstrF_rest[i] == ts.drop_first()[i] by {
                                assert(f->ConstrF_rest@[i] == rest@[1 + i]);
                            }
                            assert(frame_view(f)->ConstrF_rest =~= ts.drop_first());
                            assert(wf_frame(f)) by {
                                assert forall|i: int|
                                    0 <= i < f->ConstrF_done@.len() implies wf2_value(
                                    #[trigger] f->ConstrF_done@[i],
                                ) by {
                                    if i < done0.len() {
                                        assert(f->ConstrF_done@[i] == done@[i]);
                                        assert(value_view(done@[i]) == done0[i]);
                                    }
                                }
                                assert forall|i: int|
                                    0 <= i < f->ConstrF_rest@.len() implies wf2_term(
                                    *(#[trigger] f->ConstrF_rest@[i]),
                                ) by {
                                    assert(f->ConstrF_rest@[i] == rest@[1 + i]);
                                }
                            }
                            assert(term_view(*rest@[0]) == ts[0]);
                        }
                        stack.push(f);
                        proof {
                            let ts = terms_view(rest@);
                            assert(stack_view(stack@) =~= pre_stack.drop_last().push(
                                FrameV::ConstrF {
                                    tag: tag as nat,
                                    done: done0.push(value_view(v)),
                                    rest: ts.drop_first(),
                                    env: env_view(env),
                                },
                            ));
                        }
                        let r = MachineStep::Compute(next, env);
                        proof {
                            assert(wf_mstep(r));
                        }
                        r
                    }
                },
                Frame::CasesF { branches, env } => {
                    match v {
                        Value::Constr { tag, values } => {
                            if tag < branches.len() as u64 {
                                let n = values.len();
                                let ghost vv = crate::runtime::vals_view(values@);
                                let mut i: usize = 0;
                                while i < n
                                    invariant
                                        i <= n,
                                        n == values@.len(),
                                        vv == crate::runtime::vals_view(values@),
                                        vv.len() == n,
                                        forall|k: int|
                                            0 <= k < values@.len() ==> wf2_value(
                                                #[trigger] values@[k],
                                            ),
                                        stack@.len() == pre_stack.drop_last().len() + i,
                                        stack_view(stack@) =~= pre_stack.drop_last() + Seq::new(
                                            i as nat,
                                            |k: int| FrameV::AwaitFunValue(vv[n - 1 - k]),
                                        ),
                                        wf_stack(stack@),
                                    decreases n - i,
                                {
                                    proof {
                                        assert(vv[n - 1 - i] == value_view(
                                            values@[n - 1 - i],
                                        ));
                                    }
                                    let fv = Frame::AwaitFunValue(
                                        clone_value(&values[n - 1 - i]),
                                    );
                                    proof {
                                        assert(frame_view(fv) == FrameV::AwaitFunValue(
                                            vv[n - 1 - i],
                                        ));
                                        assert(wf_frame(fv));
                                    }
                                    let ghost before = stack_view(stack@);
                                    stack.push(fv);
                                    proof {
                                        assert(stack_view(stack@) =~= before.push(
                                            FrameV::AwaitFunValue(vv[n - 1 - i]),
                                        ));
                                        assert(stack_view(stack@) =~= pre_stack.drop_last()
                                            + Seq::new(
                                            (i + 1) as nat,
                                            |k: int| FrameV::AwaitFunValue(vv[n - 1 - k]),
                                        ));
                                    }
                                    i += 1;
                                }
                                let r = MachineStep::Compute(
                                    rc_clone(&branches[tag as usize]),
                                    env,
                                );
                                proof {
                                    assert(terms_view(branches@)[tag as int] == term_view(
                                        *branches@[tag as int],
                                    ));
                                    assert(wf_mstep(r));
                                    assert(stack_view(stack@) =~= pre_stack.drop_last()
                                        + Seq::new(
                                        vv.len(),
                                        |k: int| FrameV::AwaitFunValue(
                                            vv[vv.len() - 1 - k],
                                        ),
                                    ));
                                }
                                r
                            } else {
                                MachineStep::Failed(MachineError::MissingCaseBranch)
                            }
                        },
                        _ => MachineStep::Failed(MachineError::NonConstrScrutinized),
                    }
                },
            }
        }
    }
}


impl Machine {
    /// One machine transition; the executable counterpart of `spec_step`
    /// for running (non-halted) states.
    fn step(&mut self, st: MachineStep, stack: &mut Vec<Frame>) -> (r: MachineStep)
        requires
            old(self).wf(),
            wf_mstep(st),
            wf_stack(old(stack)@),
            st is Compute || st is Return,
        ensures
            final(self).wf(),
            final(self).costs == old(self).costs,
            final(self).semantics == old(self).semantics,
            wf_mstep(r),
            wf_stack(final(stack)@),
            ({
                let pre = mk_state(st, old(stack)@, old(self).budget, old(self).logs@);
                let post = spec_step(old(self).costs, old(self).semantics, pre);
                &&& step_view(r) == post.step
                &&& stack_view(final(stack)@) == post.stack
                &&& budget_view(final(self).budget) == post.budget
                &&& logs_view(final(self).logs@) == post.logs
            }),
            !(r is Done || r is Failed) ==> max0(budget_view(final(self).budget).0) < max0(
                budget_view(old(self).budget).0,
            ) || (max0(budget_view(final(self).budget).0) == max0(
                budget_view(old(self).budget).0,
            ) && (mode_flag(r) < mode_flag(st) || (mode_flag(r) == mode_flag(st)
                && final(stack)@.len() < old(stack)@.len()))),
    {
        match st {
            MachineStep::Compute(t, env) => self.compute_step(t, env, stack),
            MachineStep::Return(v) => self.return_step(v, stack),
            MachineStep::Done(v) => {
                proof {
                    assert(false);
                }
                MachineStep::Done(v)
            },
            MachineStep::Failed(e) => {
                proof {
                    assert(false);
                }
                MachineStep::Failed(e)
            },
        }
    }

    /// Reduces a term to a value or an error under this machine's budget:
    /// the machine charges the startup cost, then takes `spec_step`
    /// transitions until the state halts, which the budget forces. The
    /// result is exactly what some halting run of the specification gives —
    /// with `lemma_evaluation_deterministic`, the only one.
    pub fn run(&mut self, term: &Rc<Term>) -> (r: Result<Value, MachineError>)
        requires
            old(self).wf(),
            wf_term_exec(**term),
            wf_termv(term_view(**term)),
        ensures
            final(self).wf(),
            final(self).costs == old(self).costs,
            final(self).semantics == old(self).semantics,
            exists|n: nat|
                {
                    let fin = #[trigger] run_steps(
                        old(self).costs,
                        old(self).semantics,
                        term_view(**term),
                        old(self).budget,
                        logs_view(old(self).logs@),
                        n,
                    );
                    &&& terminal(fin)
                    &&& match r {
                        Ok(v) => fin.step == StepV::Done(value_view(v)) && wf_value_exec(v)
                            && wf_valuev(value_view(v)),
                        Err(e) => fin.step == StepV::Failed(e),
                    }
                    &&& fin.budget == budget_view(final(self).budget)
                    &&& fin.logs == logs_view(final(self).logs@)
                },
    {
        let ghost base = StateV {
            step: StepV::Compute(rc_term_view(term), Seq::empty()),
            stack: Seq::empty(),
            budget: budget_view(self.budget),
            logs: logs_view(self.logs@),
        };
        let ghost start = spec_charge_step(old(self).costs.machine.startup, base, base);
        let startup = self.costs.machine.startup;
        if let Err(e) = self.spend_budget(startup) {
            proof {
                let fin = run_steps(
                    old(self).costs,
                    old(self).semantics,
                    rc_term_view(term),
                    old(self).budget,
                    logs_view(old(self).logs@),
                    0,
                );
                assert(fin == start);
                assert(terminal(fin));
            }
            return Err(e);
        }
        let mut st = MachineStep::Compute(rc_clone(term), Env::Nil);
        let mut stack: Vec<Frame> = Vec::new();
        let ghost mut n: nat = 0;
        proof {
            assert(env_view(st->Compute_1) =~= Seq::<ValueV>::empty());
            assert(stack_view(stack@) =~= Seq::<FrameV>::empty());
            assert(mk_state(st, stack@, self.budget, self.logs@) == spec_steps(
                old(self).costs,
                old(self).semantics,
                start,
                n,
            ));
            assert(mk_state(st, stack@, self.budget, self.logs@) == run_steps(
                old(self).costs,
                old(self).semantics,
                rc_term_view(term),
                old(self).budget,
                logs_view(old(self).logs@),
                n,
            ));
        }
        loop
            invariant
                self.wf(),
                self.costs == old(self).costs,
                self.semantics == old(self).semantics,
                wf_mstep(st),
                wf_stack(stack@),
                st is Compute || st is Return,
                mk_state(st, stack@, self.budget, self.logs@) == run_steps(
                    old(self).costs,
                    old(self).semantics,
                    rc_term_view(term),
                    old(self).budget,
                    logs_view(old(self).logs@),
                    n,
                ),
            decreases
                    max0(budget_view(self.budget).0),
                    mode_flag(st),
                    stack@.len(),
        {
            let ghost pre_n = n;
            let ghost pre_state = mk_state(st, stack@, self.budget, self.logs@);
            let next = self.step(st, &mut stack);
            proof {
                n = n + 1;
                lemma_steps_snoc(
                    old(self).costs,
                    old(self).semantics,
                    spec_charge_step(
                        old(self).costs.machine.startup,
                        StateV {
                            step: StepV::Compute(rc_term_view(term), Seq::empty()),
                            stack: Seq::empty(),
                            budget: budget_view(old(self).budget),
                            logs: logs_view(old(self).logs@),
                        },
                        StateV {
                            step: StepV::Compute(rc_term_view(term), Seq::empty()),
                            stack: Seq::empty(),
                            budget: budget_view(old(self).budget),
                            logs: logs_view(old(self).logs@),
                        },
                    ),
                    pre_n,
                );
                assert(run_steps(
                    old(self).costs,
                    old(self).semantics,
                    rc_term_view(term),
                    old(self).budget,
                    logs_view(old(self).logs@),
                    n,
                ) == spec_step(old(self).costs, old(self).semantics, pre_state));
            }
            st = match next {
                MachineStep::Done(v) => {
                    proof {
                        let fin = run_steps(
                            old(self).costs,
                            old(self).semantics,
                            rc_term_view(term),
                            old(self).budget,
                            logs_view(old(self).logs@),
                            n,
                        );
                        assert(fin.step == StepV::Done(value_view(v)));
                        assert(terminal(fin));
                        assert(fin.budget == budget_view(self.budget));
                        assert(fin.logs == logs_view(self.logs@));
                        assert(wf_value_exec(v) && wf_valuev(value_view(v)));
                    }
                    return Ok(v);
                },
                MachineStep::Failed(e) => {
                    proof {
                        let fin = run_steps(
                            old(self).costs,
                            old(self).semantics,
                            rc_term_view(term),
                            old(self).budget,
                            logs_view(old(self).logs@),
                            n,
                        );
                        assert(fin.step == StepV::Failed(e));
                        assert(terminal(fin));
                        assert(fin.budget == budget_view(self.budget));
                        assert(fin.logs == logs_view(self.logs@));
                    }
                    return Err(e);
                },
                other => other,
            };
        }
    }
}

/// The state after the startup charge and `n` transitions, from a fresh
/// machine over the given term, budget and starting log.
pub open spec fn run_steps(
    cm: CostModel,
    sem: BuiltinSemantics,
    t: TermV,
    b0: ExBudget,
    l0: Seq<Seq<char>>,
    n: nat,
) -> StateV {
    let base = StateV {
        step: StepV::Compute(t, Seq::empty()),
        stack: Seq::empty(),
        budget: budget_view(b0),
        logs: l0,
    };
    spec_steps(cm, sem, spec_charge_step(cm.machine.startup, base, base), n)
}

/// Stepping `n + 1` times is stepping once after `n` times.
proof fn lemma_steps_snoc(cm: CostModel, sem: BuiltinSemantics, s: StateV, n: nat)
    ensures
        spec_steps(cm, sem, s, n + 1) == spec_step(cm, sem, spec_steps(cm, sem, s, n)),
    decreases n,
{
    assert(spec_steps(cm, sem, s, n + 1) == spec_steps(cm, sem, spec_step(cm, sem, s), n));
    if n == 0 {
        assert(spec_steps(cm, sem, spec_step(cm, sem, s), 0) == spec_step(cm, sem, s));
        assert(spec_steps(cm, sem, s, 0) == s);
    } else {
        lemma_steps_snoc(cm, sem, spec_step(cm, sem, s), (n - 1) as nat);
        assert(spec_steps(cm, sem, s, n) == spec_steps(
            cm,
            sem,
            spec_step(cm, sem, s),
            (n - 1) as nat,
        ));
    }
}

/// Builds a machine, runs one term, and hands back the outcome together
/// with the remaining budget and the trace log.
pub fn evaluate(
    term: &Rc<Term>,
    costs: CostModel,
    semantics: BuiltinSemantics,
    budget: ExBudget,
) -> (r: (Result<Value, MachineError>, ExBudget, Vec<String>))
    requires
        costs.wf(),
        wf_term_exec(**term),
        wf_termv(term_view(**term)),
    ensures
        exists|n: nat|
            {
                let fin = #[trigger] run_steps(
                    costs,
                    semantics,
                    term_view(**term),
                    budget,
                    Seq::empty(),
                    n,
                );
                &&& terminal(fin)
                &&& match r.0 {
                    Ok(v) => fin.step == StepV::Done(value_view(v)) && wf_value_exec(v)
                        && wf_valuev(value_view(v)),
                    Err(e) => fin.step == StepV::Failed(e),
                }
                &&& fin.budget == budget_view(r.1)
                &&& fin.logs == logs_view(r.2@)
            },
{
    let mut m = Machine::new(costs, semantics, budget);
    let out = m.run(term);
    proof {
        assert(logs_view(m.logs@) == logs_view(m.logs@));
    }
    let Machine { costs: _, semantics: _, budget: left, logs } = m;
    (out, left, logs)
}

} // verus!
