//! The cost model: pure functions from operand ex-memory sizes to
//! (cpu, memory) costs, and the budget the machine debits. Costs are
//! non-negative and accumulate with saturation, so the remaining budget
//! only ever decreases.

use vstd::prelude::*;
use crate::builtin::{DefaultFunction, BUILTIN_COUNT};

verus! {

/// A pair of signed 64-bit counters; the machine debits them monotonically
/// until one goes negative.
#[derive(Clone, Copy, PartialEq, Eq, Structural, Debug)]
pub struct ExBudget {
    pub cpu: i64,
    pub mem: i64,
}

impl ExBudget {
    pub open spec fn non_negative(self) -> bool {
        self.cpu >= 0 && self.mem >= 0
    }
}

pub open spec fn sat_add(a: int, b: int) -> int {
    if a + b > i64::MAX {
        i64::MAX as int
    } else {
        a + b
    }
}

pub open spec fn sat_mul(a: int, b: int) -> int {
    if a * b > i64::MAX {
        i64::MAX as int
    } else {
        a * b
    }
}

pub fn sat_add_i64(a: i64, b: i64) -> (r: i64)
    requires
        a >= 0,
        b >= 0,
    ensures
        r == sat_add(a as int, b as int),
        r >= 0,
{
    if a > i64::MAX - b {
        i64::MAX
    } else {
        a + b
    }
}

pub fn sat_mul_i64(a: i64, b: i64) -> (r: i64)
    requires
        a >= 0,
        b >= 0,
    ensures
        r == sat_mul(a as int, b as int),
        r >= 0,
{
    match a.checked_mul(b) {
        Some(v) => {
            proof {
                assert(a * b >= 0) by (nonlinear_arith)
                    requires
                        a >= 0,
                        b >= 0,
                ;
            }
            v
        },
        None => {
            proof {
                assert(a * b >= 0) by (nonlinear_arith)
                    requires
                        a >= 0,
                        b >= 0,
                ;
            }
            i64::MAX
        },
    }
}

/// Saturating sum of a sequence of non-negative sizes.
pub open spec fn sat_sum(s: Seq<int>) -> int
    decreases s.len(),
{
    if s.len() == 0 {
        0
    } else {
        sat_add(sat_sum(s.drop_last()), s.last())
    }
}

pub open spec fn seq_max(s: Seq<int>) -> int
    decreases s.len(),
{
    if s.len() == 0 {
        0
    } else if s.last() >= seq_max(s.drop_last()) {
        s.last()
    } else {
        seq_max(s.drop_last())
    }
}

pub open spec fn seq_min(s: Seq<int>) -> int
    decreases s.len(),
{
    if s.len() == 0 {
        0
    } else if s.len() == 1 {
        s.last()
    } else if s.last() <= seq_min(s.drop_last()) {
        s.last()
    } else {
        seq_min(s.drop_last())
    }
}

/// One cost function shape over the operand sizes.
#[derive(Clone, Copy, Debug)]
pub enum CostShape {
    Fixed(i64),
    LinearInSum(i64, i64),
    LinearInMax(i64, i64),
    LinearInMin(i64, i64),
}

impl CostShape {
    pub open spec fn wf(self) -> bool {
        match self {
            CostShape::Fixed(c) => c >= 0,
            CostShape::LinearInSum(c0, c1) => c0 >= 0 && c1 >= 0,
            CostShape::LinearInMax(c0, c1) => c0 >= 0 && c1 >= 0,
            CostShape::LinearInMin(c0, c1) => c0 >= 0 && c1 >= 0,
        }
    }

    /// The cost this shape assigns to the given non-negative sizes.
    pub open spec fn spec_eval(self, args: Seq<int>) -> int {
        match self {
            CostShape::Fixed(c) => c as int,
            CostShape::LinearInSum(c0, c1) => sat_add(c0 as int, sat_mul(c1 as int, sat_sum(args))),
            CostShape::LinearInMax(c0, c1) => sat_add(c0 as int, sat_mul(c1 as int, seq_max(args))),
            CostShape::LinearInMin(c0, c1) => sat_add(c0 as int, sat_mul(c1 as int, seq_min(args))),
        }
    }

    pub fn eval(&self, args: &Vec<i64>) -> (r: i64)
        requires
            self.wf(),
            forall|i: int| 0 <= i < args@.len() ==> args@[i] >= 0,
        ensures
            r == self.spec_eval(args@.map_values(|v: i64| v as int)),
            r >= 0,
    {
        let ghost m = args@.map_values(|v: i64| v as int);
        match self {
            CostShape::Fixed(c) => *c,
            CostShape::LinearInSum(c0, c1) => {
                let mut acc: i64 = 0;
                let mut i: usize = 0;
                proof {
                    assert(m.subrange(0, 0) =~= Seq::<int>::empty());
                }
                while i < args.len()
                    invariant
                        i <= args@.len(),
                        m == args@.map_values(|v: i64| v as int),
                        forall|k: int| 0 <= k < args@.len() ==> args@[k] >= 0,
                        acc >= 0,
                        acc == sat_sum(m.subrange(0, i as int)),
                    decreases args@.len() - i,
                {
                    proof {
                        assert(m.subrange(0, i as int + 1).drop_last() =~= m.subrange(0, i as int));
                        assert(m.subrange(0, i as int + 1).last() == m[i as int]);
                    }
                    acc = sat_add_i64(acc, args[i]);
                    i += 1;
                }
                proof {
                    assert(m.subrange(0, m.len() as int) =~= m);
                }
                sat_add_i64(*c0, sat_mul_i64(*c1, acc))
            },
            CostShape::LinearInMax(c0, c1) => {
                let mut acc: i64 = 0;
                let mut i: usize = 0;
                proof {
                    assert(m.subrange(0, 0) =~= Seq::<int>::empty());
                }
                while i < args.len()
                    invariant
                        i <= args@.len(),
                        m == args@.map_values(|v: i64| v as int),
                        forall|k: int| 0 <= k < args@.len() ==> args@[k] >= 0,
                        acc >= 0,
                        acc == seq_max(m.subrange(0, i as int)),
                    decreases args@.len() - i,
                {
                    proof {
                        assert(m.subrange(0, i as int + 1).drop_last() =~= m.subrange(0, i as int));
                        assert(m.subrange(0, i as int + 1).last() == m[i as int]);
                    }
                    if args[i] >= acc {
                        acc = args[i];
                    }
                    i += 1;
                }
                proof {
                    assert(m.subrange(0, m.len() as int) =~= m);
                }
                sat_add_i64(*c0, sat_mul_i64(*c1, acc))
            },
            CostShape::LinearInMin(c0, c1) => {
                let mut acc: i64 = 0;
                if args.len() > 0 {
                    acc = args[0];
                    let mut i: usize = 1;
                    proof {
                        assert(m.subrange(0, 1).len() == 1);
                        assert(m.subrange(0, 1).last() == m[0]);
                    }
                    while i < args.len()
                        invariant
                            1 <= i <= args@.len(),
                            m == args@.map_values(|v: i64| v as int),
                            forall|k: int| 0 <= k < args@.len() ==> args@[k] >= 0,
                            acc >= 0,
                            acc == seq_min(m.subrange(0, i as int)),
                        decreases args@.len() - i,
                    {
                        proof {
                            assert(m.subrange(0, i as int + 1).drop_last() =~= m.subrange(
                                0,
                                i as int,
                            ));
                            assert(m.subrange(0, i as int + 1).last() == m[i as int]);
                        }
                        if args[i] <= acc {
                            acc = args[i];
                        }
                        i += 1;
                    }
                    proof {
                        assert(m.subrange(0, m.len() as int) =~= m);
                    }
                }
                proof {
                    if m.len() == 0 {
                        assert(seq_min(m) == 0);
                    }
                }
                sat_add_i64(*c0, sat_mul_i64(*c1, acc))
            },
        }
    }
}

/// A cpu and a memory cost function for one builtin.
#[derive(Clone, Copy, Debug)]
pub struct CostingFun {
    pub cpu: CostShape,
    pub mem: CostShape,
}

impl CostingFun {
    pub open spec fn wf(self) -> bool {
        self.cpu.wf() && self.mem.wf()
    }
}

/// Fixed charges for the named machine steps.
#[derive(Clone, Copy, Debug)]
pub struct MachineCosts {
    pub startup: ExBudget,
    pub variable: ExBudget,
    pub constant: ExBudget,
    pub lambda: ExBudget,
    pub delay: ExBudget,
    pub force: ExBudget,
    pub apply: ExBudget,
    pub builtin: ExBudget,
    pub constr: ExBudget,
    pub case_branch: ExBudget,
}

impl MachineCosts {
    /// Well-formed machine costs are non-negative, and every named step
    /// charges at least one cpu unit, so a budget can only fund finitely
    /// many steps.
    pub open spec fn wf(self) -> bool {
        &&& self.startup.non_negative()
        &&& self.variable.non_negative() && self.variable.cpu >= 1
        &&& self.constant.non_negative() && self.constant.cpu >= 1
        &&& self.lambda.non_negative() && self.lambda.cpu >= 1
        &&& self.delay.non_negative() && self.delay.cpu >= 1
        &&& self.force.non_negative() && self.force.cpu >= 1
        &&& self.apply.non_negative() && self.apply.cpu >= 1
        &&& self.builtin.non_negative() && self.builtin.cpu >= 1
        &&& self.constr.non_negative() && self.constr.cpu >= 1
        &&& self.case_branch.non_negative() && self.case_branch.cpu >= 1
    }
}

/// The table the machine is parameterised by: one fixed charge per machine
/// step and one costing function per builtin, indexed by the builtin's tag.
#[derive(Clone, Debug)]
pub struct CostModel {
    pub machine: MachineCosts,
    pub builtin: Vec<CostingFun>,
}

impl CostModel {
    pub open spec fn wf(self) -> bool {
        &&& self.machine.wf()
        &&& self.builtin@.len() == BUILTIN_COUNT
        &&& forall|i: int| 0 <= i < self.builtin@.len() ==> (#[trigger] self.builtin@[i]).wf()
    }

    /// The (cpu, mem) cost the table assigns to one dispatch of `fun` over
    /// these operand sizes.
    pub open spec fn spec_builtin_cost(self, fun: DefaultFunction, args: Seq<int>) -> (int, int) {
        let f = self.builtin@[fun.spec_tag() as int];
        (f.cpu.spec_eval(args), f.mem.spec_eval(args))
    }

    pub fn builtin_cost(&self, fun: DefaultFunction, args: &Vec<i64>) -> (r: ExBudget)
        requires
            self.wf(),
            forall|i: int| 0 <= i < args@.len() ==> args@[i] >= 0,
        ensures
            (r.cpu as int, r.mem as int) == self.spec_builtin_cost(
                fun,
                args@.map_values(|v: i64| v as int),
            ),
            r.non_negative(),
    {
        let f = &self.builtin[fun.tag()];
        ExBudget { cpu: f.cpu.eval(args), mem: f.mem.eval(args) }
    }

    /// A ready-made table with uniform coefficients, for callers that only
    /// need relative accounting.
    pub fn default_model() -> (r: CostModel)
        ensures
            r.wf(),
    {
        let step = ExBudget { cpu: 23, mem: 1 };
        let machine = MachineCosts {
            startup: ExBudget { cpu: 10, mem: 10 },
            variable: step,
            constant: step,
            lambda: step,
            delay: step,
            force: step,
            apply: step,
            builtin: step,
            constr: step,
            case_branch: step,
        };
        let mut builtin: Vec<CostingFun> = Vec::new();
        let mut i: usize = 0;
        while i < BUILTIN_COUNT
            invariant
                i <= BUILTIN_COUNT,
                builtin@.len() == i,
                forall|k: int| 0 <= k < i ==> (#[trigger] builtin@[k]).wf(),
            decreases BUILTIN_COUNT - i,
        {
            builtin.push(
                CostingFun {
                    cpu: CostShape::LinearInSum(100, 10),
                    mem: CostShape::LinearInSum(2, 1),
                },
            );
            i += 1;
        }
        CostModel { machine, builtin }
    }
}

/// Ex-memory of a byte string of `len` bytes: eight bytes to the word, one
/// word at least.
pub open spec fn bytes_ex_mem(len: nat) -> int {
    if len == 0 {
        1
    } else {
        sat_add(((len - 1) / 8) as int, 1)
    }
}

pub fn bytes_ex_mem_exec(len: usize) -> (r: i64)
    ensures
        r == bytes_ex_mem(len as nat),
        r >= 0,
{
    if len == 0 {
        1
    } else if len > (i64::MAX - 8) as usize {
        proof {
            assert(((len - 1) as int / 8) + 1 <= i64::MAX);
        }
        ((len - 1) / 8 + 1) as i64
    } else {
        ((len - 1) / 8 + 1) as i64
    }
}

} // verus!
