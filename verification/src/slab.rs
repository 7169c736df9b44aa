use vstd::prelude::*;
use crate::parser::{Expression, ExpressionI, ExpressionOrString, PrintFunc, StdFunc, UnaryOp, Value};
use crate::compiler::{IC, Instruction};

verus! {

/// Storage of the parsed expressions and values.
#[derive(Debug, Clone)]
pub struct ParseSlab {
    pub exprs: Vec<Expression>,
    pub vals: Vec<Value>,
}

/// Storage of the compiled instructions.
#[derive(Debug, Clone)]
pub struct CompileSlab {
    pub instrs: Vec<Instruction>,
}

/// The parse slab and the compile slab of one expression.
#[derive(Debug, Clone)]
pub struct Slab {
    pub ps: ParseSlab,
    pub cs: CompileSlab,
}

/// A reference to entry `i` of a slab part with `n` entries may be
/// followed: it points below `b`, or past the end, where the slab holds a
/// default entry that uses no name.
pub open spec fn ref_ok(i: usize, b: int, n: int) -> bool {
    i < b || i >= n
}

/// Every expression reference in `xs` may be followed.
pub open spec fn exprs_ok(xs: Seq<crate::parser::ExpressionI>, b: int, ne: int) -> bool {
    forall|j: int| 0 <= j < xs.len() ==> ref_ok((#[trigger] xs[j]).0, b, ne)
}

/// The expression references of a `print()` call may be followed.
pub open spec fn print_ok(pf: PrintFunc, b: int, ne: int) -> bool {
    forall|j: int|
        0 <= j < pf.0@.len() ==> match #[trigger] pf.0@[j] {
            ExpressionOrString::EExpr(x) => ref_ok(x.0, b, ne),
            ExpressionOrString::EStr(_) => true,
        }
}

/// The expression references of a function call may be followed.
pub open spec fn stdfunc_ok(f: StdFunc, b: int, ne: int) -> bool {
    match f {
        StdFunc::EVar(_) | StdFunc::ETargetVar(_) | StdFunc::EFuncE | StdFunc::EFuncPi => true,
        StdFunc::EFunc { name: _, args } => exprs_ok(args@, b, ne),
        StdFunc::EFuncLog { base: opt, expr } | StdFunc::EFuncRound { modulus: opt, expr } => {
            &&& ref_ok(expr.0, b, ne)
            &&& (opt matches Some(x) ==> ref_ok(x.0, b, ne))
        },
        StdFunc::EFuncMin { first, rest } | StdFunc::EFuncMax { first, rest } => {
            ref_ok(first.0, b, ne) && exprs_ok(rest@, b, ne)
        },
        StdFunc::EFuncIf { cond, then, els } => {
            ref_ok(cond.0, b, ne) && ref_ok(then.0, b, ne) && ref_ok(els.0, b, ne)
        },
        StdFunc::EFuncInt(x) | StdFunc::EFuncCeil(x) | StdFunc::EFuncFloor(x)
        | StdFunc::EFuncAbs(x) | StdFunc::EFuncSign(x) | StdFunc::EFuncSin(x)
        | StdFunc::EFuncCos(x) | StdFunc::EFuncTan(x) | StdFunc::EFuncASin(x)
        | StdFunc::EFuncACos(x) | StdFunc::EFuncATan(x) | StdFunc::EFuncSinH(x)
        | StdFunc::EFuncCosH(x) | StdFunc::EFuncTanH(x) | StdFunc::EFuncASinH(x)
        | StdFunc::EFuncACosH(x) | StdFunc::EFuncATanH(x) => ref_ok(x.0, b, ne),
    }
}

/// A value refers only to expressions below `b` and to values below `vb`
/// (or past the end of their part of the slab), and so do the stored
/// values it refers to, with their own index as bound.
pub open spec fn value_ok(ps: ParseSlab, v: Value, b: int, vb: int) -> bool
    decreases vb,
{
    let ne = ps.exprs@.len() as int;
    let nv = ps.vals@.len() as int;
    match v {
        Value::EConstant(_) => true,
        Value::EUnaryOp(u) => match u {
            UnaryOp::EPos(vi) | UnaryOp::ENeg(vi) | UnaryOp::ENot(vi) => {
                &&& ref_ok(vi.0, vb, nv)
                &&& (vi.0 < vb && vi.0 < nv ==> value_ok(ps, ps.vals@[vi.0 as int], b, vi.0 as int))
            },
            UnaryOp::EParentheses(x) => ref_ok(x.0, b, ne),
        },
        Value::EStdFunc(f) => stdfunc_ok(f, b, ne),
        Value::EPrintFunc(pf) => print_ok(pf, b, ne),
    }
}

/// An expression stored at index `b`, or a root expression with `b` the
/// number of stored expressions, refers only to earlier expressions.
pub open spec fn expr_ok(ps: ParseSlab, e: Expression, b: int) -> bool {
    &&& value_ok(ps, e.first, b, ps.vals@.len() as int)
    &&& forall|j: int|
        0 <= j < e.pairs@.len() ==> value_ok(ps, (#[trigger] e.pairs@[j]).1, b, ps.vals@.len() as int)
}

/// An instruction operand may be followed.
pub open spec fn ic_ok(ic: IC, b: int, ni: int) -> bool {
    match ic {
        IC::I(i) => ref_ok(i.0, b, ni),
        IC::C(_) => true,
    }
}

/// An instruction refers only to instructions below `b` (or past the end
/// of the compile slab).
pub open spec fn instr_ok(slab: Slab, ins: Instruction, b: int) -> bool {
    let ne = slab.ps.exprs@.len() as int;
    let ni = slab.cs.instrs@.len() as int;
    match ins {
        Instruction::IConst(_) | Instruction::IVar(_) | Instruction::ITargetVar(_) => true,
        Instruction::IFunc { name: _, args } => forall|j: int|
            0 <= j < args@.len() ==> ic_ok(#[trigger] args@[j], b, ni),
        Instruction::INeg(i) | Instruction::INot(i) | Instruction::IInv(i)
        | Instruction::IFuncInt(i) | Instruction::IFuncCeil(i) | Instruction::IFuncFloor(i)
        | Instruction::IFuncAbs(i) | Instruction::IFuncSign(i) | Instruction::IFuncSin(i)
        | Instruction::IFuncCos(i) | Instruction::IFuncTan(i) | Instruction::IFuncASin(i)
        | Instruction::IFuncACos(i) | Instruction::IFuncATan(i) | Instruction::IFuncSinH(i)
        | Instruction::IFuncCosH(i) | Instruction::IFuncTanH(i) | Instruction::IFuncASinH(i)
        | Instruction::IFuncACosH(i) | Instruction::IFuncATanH(i) => ref_ok(i.0, b, ni),
        Instruction::ILT(l, r) | Instruction::ILTE(l, r) | Instruction::IEQ(l, r)
        | Instruction::INE(l, r) | Instruction::IGTE(l, r) | Instruction::IGT(l, r)
        | Instruction::IMod { dividend: l, divisor: r } | Instruction::IExp { base: l, power: r }
        | Instruction::IFuncLog { base: l, of: r } | Instruction::IFuncRound { modulus: l, of: r } => {
            ic_ok(l, b, ni) && ic_ok(r, b, ni)
        },
        Instruction::IAdd(l, r) | Instruction::IMul(l, r) | Instruction::IOR(l, r)
        | Instruction::IAND(l, r) | Instruction::IFuncMin(l, r) | Instruction::IFuncMax(l, r) => {
            ref_ok(l.0, b, ni) && ic_ok(r, b, ni)
        },
        Instruction::IFuncIf { cond, then, els } => {
            ic_ok(cond, b, ni) && ic_ok(then, b, ni) && ic_ok(els, b, ni)
        },
        Instruction::IPrintFunc(pf) => print_ok(pf, ne, ne),
    }
}

impl Slab {
    /// Every stored expression and instruction refers only to entries stored
    /// before it (or past the end, to the default entry), as the parser and
    /// the compiler lay them out; so a walk over the references ends.
    pub open spec fn wf(self) -> bool {
        &&& forall|i: int|
            0 <= i < self.ps.exprs@.len() ==> expr_ok(self.ps, #[trigger] self.ps.exprs@[i], i)
        &&& forall|i: int|
            0 <= i < self.cs.instrs@.len() ==> instr_ok(self, #[trigger] self.cs.instrs@[i], i)
    }
}

/// Whether a reference to entry `i` of a part with `n` entries may be
/// followed.
fn check_ref(i: usize, b: usize, n: usize) -> (res: bool)
    ensures
        res == ref_ok(i, b as int, n as int),
{
    i < b || i >= n
}

/// Whether every expression reference in `xs` may be followed.
fn check_exprs(xs: &Vec<ExpressionI>, b: usize, ne: usize) -> (res: bool)
    ensures
        res == exprs_ok(xs@, b as int, ne as int),
{
    let mut k: usize = 0;
    while k < xs.len()
        invariant
            k <= xs@.len(),
            forall|j: int| 0 <= j < k ==> ref_ok((#[trigger] xs@[j]).0, b as int, ne as int),
        decreases xs@.len() - k,
    {
        if !check_ref(xs[k].0, b, ne) {
            return false;
        }
        k = k + 1;
    }
    true
}

impl PrintFunc {
    /// Whether the expression references of this call may be followed,
    /// as `print_ok` states.
    pub fn refs_below(&self, b: usize, ne: usize) -> (res: bool)
        ensures
            res == print_ok(*self, b as int, ne as int),
    {
        let mut k: usize = 0;
        while k < self.0.len()
            invariant
                k <= self.0@.len(),
                forall|j: int|
                    0 <= j < k ==> match #[trigger] self.0@[j] {
                        ExpressionOrString::EExpr(x) => ref_ok(x.0, b as int, ne as int),
                        ExpressionOrString::EStr(_) => true,
                    },
            decreases self.0@.len() - k,
        {
            match &self.0[k] {
                ExpressionOrString::EExpr(x) => {
                    if !check_ref(x.0, b, ne) {
                        return false;
                    }
                },
                ExpressionOrString::EStr(_) => {},
            }
            k = k + 1;
        }
        true
    }
}

impl StdFunc {
    /// Whether the expression references of this call may be followed,
    /// as `stdfunc_ok` states.
    pub fn refs_below(&self, b: usize, ne: usize) -> (res: bool)
        ensures
            res == stdfunc_ok(*self, b as int, ne as int),
    {
        match self {
            StdFunc::EVar(_) | StdFunc::ETargetVar(_) | StdFunc::EFuncE | StdFunc::EFuncPi => true,
            StdFunc::EFunc { name: _, args } => check_exprs(args, b, ne),
            StdFunc::EFuncLog { base: opt, expr } | StdFunc::EFuncRound { modulus: opt, expr } => {
                check_ref(expr.0, b, ne) && match opt {
                    Some(x) => check_ref(x.0, b, ne),
                    None => true,
                }
            },
            StdFunc::EFuncMin { first, rest } | StdFunc::EFuncMax { first, rest } => {
                check_ref(first.0, b, ne) && check_exprs(rest, b, ne)
            },
            StdFunc::EFuncIf { cond, then, els } => {
                check_ref(cond.0, b, ne) && check_ref(then.0, b, ne) && check_ref(els.0, b, ne)
            },
            StdFunc::EFuncInt(x) | StdFunc::EFuncCeil(x) | StdFunc::EFuncFloor(x)
            | StdFunc::EFuncAbs(x) | StdFunc::EFuncSign(x) | StdFunc::EFuncSin(x)
            | StdFunc::EFuncCos(x) | StdFunc::EFuncTan(x) | StdFunc::EFuncASin(x)
            | StdFunc::EFuncACos(x) | StdFunc::EFuncATan(x) | StdFunc::EFuncSinH(x)
            | StdFunc::EFuncCosH(x) | StdFunc::EFuncTanH(x) | StdFunc::EFuncASinH(x)
            | StdFunc::EFuncACosH(x) | StdFunc::EFuncATanH(x) => check_ref(x.0, b, ne),
        }
    }
}

impl Value {
    /// Whether this value refers only to expressions below `b` and values
    /// below `vb` (or past the end), and so do, in turn, the stored values
    /// it refers to, as `value_ok` states.
    pub fn refs_below(&self, ps: &ParseSlab, b: usize, vb: usize) -> (res: bool)
        requires
            vb <= ps.vals@.len(),
        ensures
            res == value_ok(*ps, *self, b as int, vb as int),
        decreases vb,
    {
        match self {
            Value::EConstant(_) => true,
            Value::EUnaryOp(u) => match u {
                UnaryOp::EPos(vi) | UnaryOp::ENeg(vi) | UnaryOp::ENot(vi) => {
                    if vi.0 < vb {
                        ps.vals[vi.0].refs_below(ps, b, vi.0)
                    } else {
                        vi.0 >= ps.vals.len()
                    }
                },
                UnaryOp::EParentheses(x) => check_ref(x.0, b, ps.exprs.len()),
            },
            Value::EStdFunc(f) => f.refs_below(b, ps.exprs.len()),
            Value::EPrintFunc(pf) => pf.refs_below(b, ps.exprs.len()),
        }
    }
}

impl Expression {
    /// Whether this expression refers only to expressions below `b`, as
    /// `expr_ok` states.
    pub fn refs_below(&self, ps: &ParseSlab, b: usize) -> (res: bool)
        ensures
            res == expr_ok(*ps, *self, b as int),
    {
        let nv = ps.vals.len();
        if !self.first.refs_below(ps, b, nv) {
            return false;
        }
        let mut k: usize = 0;
        while k < self.pairs.len()
            invariant
                k <= self.pairs@.len(),
                nv == ps.vals@.len(),
                forall|j: int|
                    0 <= j < k ==> value_ok(*ps, (#[trigger] self.pairs@[j]).1, b as int, nv as int),
            decreases self.pairs@.len() - k,
        {
            if !self.pairs[k].1.refs_below(ps, b, nv) {
                return false;
            }
            k = k + 1;
        }
        true
    }
}

/// Whether an operand may be followed.
fn check_ic(ic: IC, b: usize, ni: usize) -> (res: bool)
    ensures
        res == ic_ok(ic, b as int, ni as int),
{
    match ic {
        IC::I(i) => check_ref(i.0, b, ni),
        IC::C(_) => true,
    }
}

impl Instruction {
    /// Whether this instruction refers only to instructions below `b` (or
    /// past the end), as `instr_ok` states.
    #[verifier::loop_isolation(false)]
    pub fn refs_below(&self, slab: &Slab, b: usize) -> (res: bool)
        ensures
            res == instr_ok(*slab, *self, b as int),
    {
        let ni = slab.cs.instrs.len();
        let ne = slab.ps.exprs.len();
        match self {
            Instruction::IConst(_) | Instruction::IVar(_) | Instruction::ITargetVar(_) => true,
            Instruction::IFunc { name: _, args } => {
                let mut k: usize = 0;
                while k < args.len()
                    invariant
                        k <= args@.len(),
                        forall|j: int| 0 <= j < k ==> ic_ok(#[trigger] args@[j], b as int, ni as int),
                    decreases args@.len() - k,
                {
                    if !check_ic(args[k], b, ni) {
                        assert(!ic_ok(args@[k as int], b as int, ni as int));
                        return false;
                    }
                    k = k + 1;
                }
                true
            },
            Instruction::INeg(i) | Instruction::INot(i) | Instruction::IInv(i)
            | Instruction::IFuncInt(i) | Instruction::IFuncCeil(i) | Instruction::IFuncFloor(i)
            | Instruction::IFuncAbs(i) | Instruction::IFuncSign(i) | Instruction::IFuncSin(i)
            | Instruction::IFuncCos(i) | Instruction::IFuncTan(i) | Instruction::IFuncASin(i)
            | Instruction::IFuncACos(i) | Instruction::IFuncATan(i) | Instruction::IFuncSinH(i)
            | Instruction::IFuncCosH(i) | Instruction::IFuncTanH(i) | Instruction::IFuncASinH(i)
            | Instruction::IFuncACosH(i) | Instruction::IFuncATanH(i) => check_ref(i.0, b, ni),
            Instruction::ILT(l, r) | Instruction::ILTE(l, r) | Instruction::IEQ(l, r)
            | Instruction::INE(l, r) | Instruction::IGTE(l, r) | Instruction::IGT(l, r)
            | Instruction::IMod { dividend: l, divisor: r }
            | Instruction::IExp { base: l, power: r } | Instruction::IFuncLog { base: l, of: r }
            | Instruction::IFuncRound { modulus: l, of: r } => {
                check_ic(*l, b, ni) && check_ic(*r, b, ni)
            },
            Instruction::IAdd(l, r) | Instruction::IMul(l, r) | Instruction::IOR(l, r)
            | Instruction::IAND(l, r) | Instruction::IFuncMin(l, r)
            | Instruction::IFuncMax(l, r) => check_ref(l.0, b, ni) && check_ic(*r, b, ni),
            Instruction::IFuncIf { cond, then, els } => {
                check_ic(*cond, b, ni) && check_ic(*then, b, ni) && check_ic(*els, b, ni)
            },
            Instruction::IPrintFunc(pf) => pf.refs_below(ne, ne),
        }
    }
}

impl Slab {
    /// Whether the slab is well formed, as `wf` states.
    pub fn is_wf(&self) -> (res: bool)
        ensures
            res == self.wf(),
    {
        let mut i: usize = 0;
        while i < self.ps.exprs.len()
            invariant
                i <= self.ps.exprs@.len(),
                forall|j: int|
                    0 <= j < i ==> expr_ok(self.ps, #[trigger] self.ps.exprs@[j], j),
            decreases self.ps.exprs@.len() - i,
        {
            if !self.ps.exprs[i].refs_below(&self.ps, i) {
                return false;
            }
            i = i + 1;
        }
        let mut i: usize = 0;
        while i < self.cs.instrs.len()
            invariant
                i <= self.cs.instrs@.len(),
                forall|j: int|
                    0 <= j < self.ps.exprs@.len() ==> expr_ok(self.ps, #[trigger] self.ps.exprs@[j], j),
                forall|j: int|
                    0 <= j < i ==> instr_ok(*self, #[trigger] self.cs.instrs@[j], j),
            decreases self.cs.instrs@.len() - i,
        {
            if !self.cs.instrs[i].refs_below(self, i) {
                return false;
            }
            i = i + 1;
        }
        true
    }
}

} // verus!
