//! Terms of the source language and their mathematical view, with the
//! de Bruijn binder the machine evaluates through.

use vstd::prelude::*;
use std::rc::Rc;
use crate::builtin::DefaultFunction;
use crate::constant::{const_view, wf_const_exec, ConstV, Constant};

verus! {

/// Relies on the std documentation for `Rc::clone`: the clone is a new
/// handle to the same value.
#[verifier::external_body]
pub fn rc_clone<T>(v: &Rc<T>) -> (r: Rc<T>)
    ensures
        r == *v,
{
    Rc::clone(v)
}

/// A de Bruijn binder: a variable occurrence carries its index from the
/// innermost enclosing binder, and a parameter carries nothing.
#[derive(Debug, Eq, PartialEq, Structural, Clone, Copy)]
pub struct DeBruijn(pub usize);

impl DeBruijn {
    pub fn new(i: usize) -> (r: Self)
        ensures
            r.0 == i,
    {
        DeBruijn(i)
    }

    pub fn zero() -> (r: Self)
        ensures
            r.0 == 0,
    {
        DeBruijn(0)
    }

    /// The environment slot this occurrence refers to, counted from the
    /// innermost binding.
    pub fn index(&self) -> (r: usize)
        ensures
            r == self.0,
    {
        self.0
    }
}

/// A term of the language; subterms are shared.
#[derive(Debug)]
pub enum Term {
    Var(DeBruijn),
    Lambda { parameter: DeBruijn, body: Rc<Term> },
    Apply { function: Rc<Term>, argument: Rc<Term> },
    Force(Rc<Term>),
    Delay(Rc<Term>),
    Constant(Rc<Constant>),
    Builtin(DefaultFunction),
    Error,
    Constr { tag: u64, fields: Vec<Rc<Term>> },
    Case { constr: Rc<Term>, branches: Vec<Rc<Term>> },
}

/// Mathematical view of a term.
pub enum TermV {
    Var(nat),
    Lambda(Box<TermV>),
    Apply(Box<TermV>, Box<TermV>),
    Force(Box<TermV>),
    Delay(Box<TermV>),
    Constant(ConstV),
    Builtin(DefaultFunction),
    Error,
    Constr(nat, Seq<TermV>),
    Case(Box<TermV>, Seq<TermV>),
}

pub open spec fn term_view(t: Term) -> TermV
    decreases t,
{
    match t {
        Term::Var(d) => TermV::Var(d.0 as nat),
        Term::Lambda { parameter, body } => TermV::Lambda(Box::new(term_view(*body))),
        Term::Apply { function, argument } => TermV::Apply(
            Box::new(term_view(*function)),
            Box::new(term_view(*argument)),
        ),
        Term::Force(t1) => TermV::Force(Box::new(term_view(*t1))),
        Term::Delay(t1) => TermV::Delay(Box::new(term_view(*t1))),
        Term::Constant(c) => TermV::Constant(const_view(*c)),
        Term::Builtin(f) => TermV::Builtin(f),
        Term::Error => TermV::Error,
        Term::Constr { tag, fields } => TermV::Constr(
            tag as nat,
            Seq::new(
                fields@.len(),
                |i: int|
                    if 0 <= i < fields@.len() {
                        term_view(*fields@[i])
                    } else {
                        TermV::Error
                    },
            ),
        ),
        Term::Case { constr, branches } => TermV::Case(
            Box::new(term_view(*constr)),
            Seq::new(
                branches@.len(),
                |i: int|
                    if 0 <= i < branches@.len() {
                        term_view(*branches@[i])
                    } else {
                        TermV::Error
                    },
            ),
        ),
    }
}

/// The view of a shared term, through its handle.
pub open spec fn rc_term_view(t: &Rc<Term>) -> TermV {
    term_view(**t)
}

/// The integer magnitudes inside a term are canonical; builtin dispatch
/// relies on it.
pub open spec fn wf_term_exec(t: Term) -> bool
    decreases t,
{
    match t {
        Term::Var(_) => true,
        Term::Lambda { parameter, body } => wf_term_exec(*body),
        Term::Apply { function, argument } => wf_term_exec(*function) && wf_term_exec(*argument),
        Term::Force(t1) => wf_term_exec(*t1),
        Term::Delay(t1) => wf_term_exec(*t1),
        Term::Constant(c) => wf_const_exec(*c),
        Term::Builtin(_) => true,
        Term::Error => true,
        Term::Constr { tag, fields } => forall|i: int|
            0 <= i < fields@.len() ==> wf_term_exec(*(#[trigger] fields@[i])),
        Term::Case { constr, branches } => wf_term_exec(*constr) && forall|i: int|
            0 <= i < branches@.len() ==> wf_term_exec(*(#[trigger] branches@[i])),
    }
}

/// Unfolds the view and well-formedness of a term to its children.
pub proof fn lemma_term_unfold(t: &Term)
    ensures
        t is Var ==> term_view(*t) == TermV::Var(t->Var_0.0 as nat),
        t is Lambda ==> term_view(*t) == TermV::Lambda(Box::new(term_view(*t->Lambda_body)))
            && (wf_term_exec(*t) ==> wf_term_exec(*t->Lambda_body)),
        t is Apply ==> term_view(*t) == TermV::Apply(
            Box::new(term_view(*t->Apply_function)),
            Box::new(term_view(*t->Apply_argument)),
        ) && (wf_term_exec(*t) ==> wf_term_exec(*t->Apply_function) && wf_term_exec(
            *t->Apply_argument,
        )),
        t is Force ==> term_view(*t) == TermV::Force(Box::new(term_view(*t->Force_0))) && (
        wf_term_exec(*t) ==> wf_term_exec(*t->Force_0)),
        t is Delay ==> term_view(*t) == TermV::Delay(Box::new(term_view(*t->Delay_0))) && (
        wf_term_exec(*t) ==> wf_term_exec(*t->Delay_0)),
        t is Constant ==> term_view(*t) == TermV::Constant(const_view(*t->Constant_0)) && (
        wf_term_exec(*t) ==> wf_const_exec(*t->Constant_0)),
        t is Builtin ==> term_view(*t) == TermV::Builtin(t->Builtin_0),
        t is Error ==> term_view(*t) == TermV::Error,
        t is Constr ==> term_view(*t) == TermV::Constr(
            t->Constr_tag as nat,
            term_view(*t)->Constr_1,
        ) && term_view(*t)->Constr_1.len() == t->Constr_fields@.len() && (forall|i: int|
            0 <= i < t->Constr_fields@.len() ==> term_view(*t)->Constr_1[i] == term_view(
                *(#[trigger] t->Constr_fields@[i]),
            )) && (wf_term_exec(*t) ==> forall|i: int|
            0 <= i < t->Constr_fields@.len() ==> wf_term_exec(*(#[trigger] t->Constr_fields@[i]))),
        t is Case ==> term_view(*t) == TermV::Case(
            Box::new(term_view(*t->Case_constr)),
            term_view(*t)->Case_1,
        ) && term_view(*t)->Case_1.len() == t->Case_branches@.len() && (forall|i: int|
            0 <= i < t->Case_branches@.len() ==> term_view(*t)->Case_1[i] == term_view(
                *(#[trigger] t->Case_branches@[i]),
            )) && (wf_term_exec(*t) ==> wf_term_exec(*t->Case_constr) && forall|i: int|
            0 <= i < t->Case_branches@.len() ==> wf_term_exec(*(#[trigger] t->Case_branches@[i]))),
{
}

} // verus!
