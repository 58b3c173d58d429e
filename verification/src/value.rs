//! Machine-time values, the persistent environment, and the runtime record
//! of a partially applied builtin.

use vstd::prelude::*;
use std::rc::Rc;
use crate::builtin::DefaultFunction;
use crate::constant::{
    clone_constant, const_view, lemma_const_view_unfold, lemma_wf_const_unfold, wf_const,
    wf_const_exec, ConstV, Constant, Type,
};
use crate::error::MachineError;
use crate::term::{rc_clone, term_view, wf_term_exec, Term, TermV};
use crate::bigint::BigNum;

verus! {

/// The environment: a persistent list from de Bruijn index (0 = innermost)
/// to value.
#[derive(Debug)]
pub enum Env {
    Nil,
    Cons(Rc<EnvNode>),
}

#[derive(Debug)]
pub struct EnvNode {
    pub value: Value,
    pub rest: Env,
}

/// A machine-time value: the only thing the machine returns.
#[derive(Debug)]
pub enum Value {
    Con(Rc<Constant>),
    Lambda { parameter: crate::term::DeBruijn, body: Rc<Term>, env: Env },
    Delay { body: Rc<Term>, env: Env },
    Constr { tag: u64, values: Vec<Value> },
    Builtin(Runtime),
}

/// A partially applied builtin: its opcode, the arguments gathered so far,
/// and how many forces it has received.
#[derive(Debug)]
pub struct Runtime {
    pub args: Vec<Value>,
    pub fun: DefaultFunction,
    pub forces: usize,
}

/// Mathematical view of a value.
pub enum ValueV {
    Con(ConstV),
    Lambda { body: TermV, env: Seq<ValueV> },
    Delay { body: TermV, env: Seq<ValueV> },
    Constr { tag: nat, values: Seq<ValueV> },
    Builtin(RuntimeV),
}

pub struct RuntimeV {
    pub fun: DefaultFunction,
    pub args: Seq<ValueV>,
    pub forces: nat,
}

pub open spec fn value_view(v: Value) -> ValueV
    decreases v,
{
    match v {
        Value::Con(c) => ValueV::Con(const_view(*c)),
        Value::Lambda { parameter, body, env } => ValueV::Lambda {
            body: term_view(*body),
            env: env_view(env),
        },
        Value::Delay { body, env } => ValueV::Delay { body: term_view(*body), env: env_view(env) },
        Value::Constr { tag, values } => ValueV::Constr {
            tag: tag as nat,
            values: Seq::new(
                values@.len(),
                |i: int|
                    if 0 <= i < values@.len() {
                        value_view(values@[i])
                    } else {
                        ValueV::Con(ConstV::Unit)
                    },
            ),
        },
        Value::Builtin(rt) => ValueV::Builtin(runtime_view(rt)),
    }
}

pub open spec fn runtime_view(rt: Runtime) -> RuntimeV
    decreases rt,
{
    RuntimeV {
        fun: rt.fun,
        args: Seq::new(
            rt.args@.len(),
            |i: int|
                if 0 <= i < rt.args@.len() {
                    value_view(rt.args@[i])
                } else {
                    ValueV::Con(ConstV::Unit)
                },
        ),
        forces: rt.forces as nat,
    }
}

pub open spec fn env_view(e: Env) -> Seq<ValueV>
    decreases e,
{
    match e {
        Env::Nil => Seq::empty(),
        Env::Cons(node) => seq![value_view(node.value)] + env_view(node.rest),
    }
}

/// Well-formedness of a view: constants are well-formed, captured
/// environments and gathered arguments are well-formed, and a runtime never
/// exceeds its arity or force arity.
pub open spec fn wf_valuev(v: ValueV) -> bool
    decreases v,
{
    match v {
        ValueV::Con(c) => wf_const(c),
        ValueV::Lambda { body, env } => wf_termv(body) && wf_envv(env),
        ValueV::Delay { body, env } => wf_termv(body) && wf_envv(env),
        ValueV::Constr { tag, values } => forall|i: int|
            0 <= i < values.len() ==> wf_valuev(#[trigger] values[i]),
        ValueV::Builtin(rt) => wf_runtimev(rt),
    }
}

pub open spec fn wf_envv(env: Seq<ValueV>) -> bool
    decreases env,
{
    forall|i: int| 0 <= i < env.len() ==> wf_valuev(#[trigger] env[i])
}

pub open spec fn wf_runtimev(rt: RuntimeV) -> bool
    decreases rt,
{
    &&& forall|i: int| 0 <= i < rt.args.len() ==> wf_valuev(#[trigger] rt.args[i])
    &&& rt.args.len() <= rt.fun.spec_arity()
    &&& rt.forces <= rt.fun.spec_force_count()
}

/// Constants embedded in a term are well-formed.
pub open spec fn wf_termv(t: TermV) -> bool
    decreases t,
{
    match t {
        TermV::Var(_) => true,
        TermV::Lambda(b) => wf_termv(*b),
        TermV::Apply(f, a) => wf_termv(*f) && wf_termv(*a),
        TermV::Force(b) => wf_termv(*b),
        TermV::Delay(b) => wf_termv(*b),
        TermV::Constant(c) => wf_const(c),
        TermV::Builtin(_) => true,
        TermV::Error => true,
        TermV::Constr(_, ts) => forall|i: int| 0 <= i < ts.len() ==> wf_termv(#[trigger] ts[i]),
        TermV::Case(s, bs) => wf_termv(*s) && forall|i: int|
            0 <= i < bs.len() ==> wf_termv(#[trigger] bs[i]),
    }
}

/// The exec payloads behind a value are canonical.
pub open spec fn wf_value_exec(v: Value) -> bool
    decreases v,
{
    match v {
        Value::Con(c) => wf_const_exec(*c),
        Value::Lambda { parameter, body, env } => wf_term_exec(*body) && wf_env_exec(env),
        Value::Delay { body, env } => wf_term_exec(*body) && wf_env_exec(env),
        Value::Constr { tag, values } => forall|i: int|
            0 <= i < values@.len() ==> wf_value_exec(#[trigger] values@[i]),
        Value::Builtin(rt) => forall|i: int|
            0 <= i < rt.args@.len() ==> wf_value_exec(#[trigger] rt.args@[i]),
    }
}

pub open spec fn wf_env_exec(e: Env) -> bool
    decreases e,
{
    match e {
        Env::Nil => true,
        Env::Cons(node) => wf_value_exec(node.value) && wf_env_exec(node.rest),
    }
}

/// Unfolds the view and exec well-formedness of a value.
pub proof fn lemma_value_unfold(v: &Value)
    ensures
        v is Con ==> value_view(*v) == ValueV::Con(const_view(*v->Con_0)) && (wf_value_exec(*v)
            <==> wf_const_exec(*v->Con_0)),
        v is Lambda ==> value_view(*v) == (ValueV::Lambda {
            body: term_view(*v->Lambda_body),
            env: env_view(v->Lambda_env),
        }) && (wf_value_exec(*v) <==> wf_term_exec(*v->Lambda_body) && wf_env_exec(v->Lambda_env)),
        v is Delay ==> value_view(*v) == (ValueV::Delay {
            body: term_view(*v->Delay_body),
            env: env_view(v->Delay_env),
        }) && (wf_value_exec(*v) <==> wf_term_exec(*v->Delay_body) && wf_env_exec(v->Delay_env)),
        v is Constr ==> value_view(*v) == (ValueV::Constr {
            tag: v->Constr_tag as nat,
            values: value_view(*v)->Constr_values,
        }) && value_view(*v)->Constr_values.len() == v->Constr_values@.len() && (forall|i: int|
            0 <= i < v->Constr_values@.len() ==> value_view(*v)->Constr_values[i] == value_view(
                #[trigger] v->Constr_values@[i],
            )) && (wf_value_exec(*v) ==> forall|i: int|
            0 <= i < v->Constr_values@.len() ==> wf_value_exec(#[trigger] v->Constr_values@[i])),
        v is Builtin ==> value_view(*v) == ValueV::Builtin(runtime_view(v->Builtin_0))
            && runtime_view(v->Builtin_0).fun == v->Builtin_0.fun && runtime_view(
            v->Builtin_0,
        ).forces == v->Builtin_0.forces as nat && runtime_view(v->Builtin_0).args.len()
            == v->Builtin_0.args@.len() && (forall|i: int|
            0 <= i < v->Builtin_0.args@.len() ==> runtime_view(v->Builtin_0).args[i] == value_view(
                #[trigger] v->Builtin_0.args@[i],
            )) && (wf_value_exec(*v) ==> forall|i: int|
            0 <= i < v->Builtin_0.args@.len() ==> wf_value_exec(#[trigger] v->Builtin_0.args@[i])),
{
}

/// Unfolds the view of an environment one binding at a time.
pub proof fn lemma_env_unfold(e: &Env)
    ensures
        e is Nil ==> env_view(*e) == Seq::<ValueV>::empty(),
        e is Cons ==> env_view(*e) == seq![value_view(e->Cons_0.value)] + env_view(e->Cons_0.rest)
            && env_view(*e).len() == 1 + env_view(e->Cons_0.rest).len() && (wf_env_exec(*e)
            <==> wf_value_exec(e->Cons_0.value) && wf_env_exec(e->Cons_0.rest)),
{
}

pub fn env_nil() -> (r: Env)
    ensures
        env_view(r) == Seq::<ValueV>::empty(),
        wf_env_exec(r),
{
    Env::Nil
}

/// Extends the environment with a new innermost binding.
pub fn env_cons(v: Value, e: Env) -> (r: Env)
    ensures
        env_view(r) == seq![value_view(v)] + env_view(e),
        wf_value_exec(v) && wf_env_exec(e) ==> wf_env_exec(r),
{
    let r = Env::Cons(Rc::new(EnvNode { value: v, rest: e }));
    proof {
        lemma_env_unfold(&r);
    }
    r
}

pub fn clone_env(e: &Env) -> (r: Env)
    ensures
        env_view(r) == env_view(*e),
        wf_env_exec(r) == wf_env_exec(*e),
{
    match e {
        Env::Nil => Env::Nil,
        Env::Cons(node) => Env::Cons(rc_clone(node)),
    }
}

/// Looks the `i`th binding up, counted from the innermost.
pub fn env_lookup(e: &Env, i: usize) -> (r: Option<Value>)
    requires
        wf_env_exec(*e),
    ensures
        match r {
            Some(v) => i < env_view(*e).len() && value_view(v) == env_view(*e)[i as int]
                && wf_value_exec(v),
            None => i >= env_view(*e).len(),
        },
    decreases *e,
{
    proof {
        lemma_env_unfold(e);
    }
    match e {
        Env::Nil => None,
        Env::Cons(node) => {
            if i == 0 {
                Some(clone_value(&node.value))
            } else {
                let r = env_lookup(&node.rest, i - 1);
                proof {
                    if r is Some {
                        assert(env_view(*e)[i as int] == env_view(node.rest)[i - 1]);
                    }
                }
                r
            }
        },
    }
}

pub fn clone_value(v: &Value) -> (r: Value)
    ensures
        value_view(r) == value_view(*v),
        wf_value_exec(r) == wf_value_exec(*v),
    decreases *v,
{
    proof {
        lemma_value_unfold(v);
    }
    match v {
        Value::Con(c) => {
            let r = Value::Con(rc_clone(c));
            proof {
                lemma_value_unfold(&r);
            }
            r
        },
        Value::Lambda { parameter, body, env } => {
            let r = Value::Lambda {
                parameter: *parameter,
                body: rc_clone(body),
                env: clone_env(env),
            };
            proof {
                lemma_value_unfold(&r);
            }
            r
        },
        Value::Delay { body, env } => {
            let r = Value::Delay { body: rc_clone(body), env: clone_env(env) };
            proof {
                lemma_value_unfold(&r);
            }
            r
        },
        Value::Constr { tag, values } => {
            let ghost vs = value_view(*v)->Constr_values;
            let mut out: Vec<Value> = Vec::new();
            let mut i: usize = 0;
            while i < values.len()
                invariant
                    i <= values@.len(),
                    *v is Constr,
                    values@ == v->Constr_values@,
                    vs == value_view(*v)->Constr_values,
                    vs.len() == values@.len(),
                    out@.len() == i,
                    forall|k: int|
                        0 <= k < i ==> value_view(#[trigger] out@[k]) == vs[k] && wf_value_exec(
                            out@[k],
                        ) == wf_value_exec(values@[k]),
                decreases values@.len() - i,
            {
                proof {
                    lemma_value_unfold(v);
                    assert(vs[i as int] == value_view(values@[i as int]));
                    assert(decreases_to!(*v => values@[i as int]));
                }
                let e = clone_value(&values[i]);
                out.push(e);
                i += 1;
            }
            let r = Value::Constr { tag: *tag, values: out };
            proof {
                lemma_value_unfold(&r);
                assert(value_view(r)->Constr_values =~= vs);
                assert(value_view(r) == value_view(*v));
                assert(wf_value_exec(r) == wf_value_exec(*v)) by {
                    lemma_value_unfold(v);
                    if wf_value_exec(*v) {
                        assert forall|k: int| 0 <= k < r->Constr_values@.len() implies
                            wf_value_exec(#[trigger] r->Constr_values@[k]) by {}
                    }
                    if wf_value_exec(r) {
                        assert forall|k: int| 0 <= k < v->Constr_values@.len() implies
                            wf_value_exec(#[trigger] v->Constr_values@[k]) by {
                            assert(wf_value_exec(out@[k]));
                        }
                    }
                }
            }
            r
        },
        Value::Builtin(rt) => {
            let r = Value::Builtin(clone_runtime(rt));
            proof {
                lemma_value_unfold(&r);
                lemma_value_unfold(v);
            }
            r
        },
    }
}

pub fn clone_runtime(rt: &Runtime) -> (r: Runtime)
    ensures
        runtime_view(r) == runtime_view(*rt),
        forall|i: int|
            0 <= i < r.args@.len() ==> wf_value_exec(#[trigger] r.args@[i]) == wf_value_exec(
                rt.args@[i],
            ),
        r.args@.len() == rt.args@.len(),
        r.fun == rt.fun,
        r.forces == rt.forces,
    decreases *rt,
{
    let ghost vs = runtime_view(*rt).args;
    let mut out: Vec<Value> = Vec::new();
    let mut i: usize = 0;
    while i < rt.args.len()
        invariant
            i <= rt.args@.len(),
            vs == runtime_view(*rt).args,
            vs.len() == rt.args@.len(),
            out@.len() == i,
            forall|k: int|
                0 <= k < i ==> value_view(#[trigger] out@[k]) == vs[k] && wf_value_exec(out@[k])
                    == wf_value_exec(rt.args@[k]),
        decreases rt.args@.len() - i,
    {
        proof {
            assert(vs[i as int] == value_view(rt.args@[i as int]));
            assert(decreases_to!(*rt => rt.args@[i as int]));
        }
        let e = clone_value(&rt.args[i]);
        out.push(e);
        i += 1;
    }
    let r = Runtime { args: out, fun: rt.fun, forces: rt.forces };
    proof {
        assert(runtime_view(r).args =~= vs);
        assert(runtime_view(r) == runtime_view(*rt));
    }
    r
}

impl Runtime {
    /// A fresh runtime for one builtin: no arguments, no forces yet.
    pub fn new(fun: DefaultFunction) -> (r: Runtime)
        ensures
            runtime_view(r) == (RuntimeV { fun, args: Seq::<ValueV>::empty(), forces: 0 }),
            r.args@.len() == 0,
            r.fun == fun,
            r.forces == 0,
    {
        let r = Runtime { args: Vec::new(), fun, forces: 0 };
        proof {
            assert(runtime_view(r).args =~= Seq::<ValueV>::empty());
        }
        r
    }

    /// A new record with one more force received.
    pub fn force(&self) -> (r: Runtime)
        requires
            self.forces < usize::MAX,
        ensures
            runtime_view(r) == (RuntimeV {
                fun: self.fun,
                args: runtime_view(*self).args,
                forces: (self.forces + 1) as nat,
            }),
            forall|i: int|
                0 <= i < r.args@.len() ==> wf_value_exec(#[trigger] r.args@[i]) == wf_value_exec(
                    self.args@[i],
                ),
            r.args@.len() == self.args@.len(),
            r.fun == self.fun,
            r.forces == self.forces + 1,
    {
        let c = clone_runtime(self);
        let r = Runtime { args: c.args, fun: c.fun, forces: c.forces + 1 };
        proof {
            assert(runtime_view(r).args =~= runtime_view(*self).args);
        }
        r
    }

    /// A new record with one more argument gathered.
    pub fn push(&self, arg: Value) -> (r: Runtime)
        ensures
            runtime_view(r) == (RuntimeV {
                fun: self.fun,
                args: runtime_view(*self).args.push(value_view(arg)),
                forces: self.forces as nat,
            }),
            r.args@.len() == self.args@.len() + 1,
            forall|i: int|
                0 <= i < self.args@.len() ==> wf_value_exec(#[trigger] r.args@[i])
                    == wf_value_exec(self.args@[i]),
            wf_value_exec(r.args@[r.args@.len() - 1]) == wf_value_exec(arg),
            r.fun == self.fun,
            r.forces == self.forces,
    {
        let c = clone_runtime(self);
        let mut args = c.args;
        let ghost old_args_view = runtime_view(*self).args;
        args.push(arg);
        let r = Runtime { args, fun: c.fun, forces: c.forces };
        proof {
            assert(runtime_view(r).args =~= old_args_view.push(value_view(arg)));
        }
        r
    }

    /// Whether more forces are required before arguments are accepted.
    pub fn needs_force(&self) -> (r: bool)
        ensures
            r == (runtime_view(*self).forces < self.fun.spec_force_count()),
    {
        self.forces < self.fun.force_count()
    }

    /// Whether the builtin still awaits arguments.
    pub fn is_arrow(&self) -> (r: bool)
        ensures
            r == (runtime_view(*self).args.len() < self.fun.spec_arity()),
    {
        self.args.len() < self.fun.arity()
    }

    /// Whether the builtin has every argument it needs.
    pub fn is_ready(&self) -> (r: bool)
        ensures
            r == (runtime_view(*self).args.len() == self.fun.spec_arity()),
    {
        self.args.len() == self.fun.arity()
    }
}

/// The error a builtin raises for an argument of the wrong shape.
pub open spec fn mismatch_err(expected: Type, v: ValueV) -> MachineError {
    if v is Con {
        MachineError::TypeMismatch(expected)
    } else {
        MachineError::NotAConstant
    }
}

} // verus!
