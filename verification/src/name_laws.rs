use vstd::prelude::*;
use crate::parser::{
    ExprPair, Expression, ExpressionI, ExpressionOrString, PrintFunc, StdFunc, UnaryOp, Value, ValueI,
};
use crate::compiler::{IC, Instruction, InstructionI};
use crate::slab::{ParseSlab, CompileSlab};
use crate::names::{
    ex_names, pairs_names, value_names, sub_names, list_names, stdfunc_names, print_names,
    ic_names, ic_list_names, inline_names, ref_names,
};

verus! {

/// A name is used by the values of a list of operator/value pairs exactly
/// when the value of one of the pairs uses it.
pub proof fn lemma_pairs_names(ps: ParseSlab, pairs: Seq<ExprPair>, b: int)
    ensures
        forall|n: Seq<char>|
            pairs_names(ps, pairs, b).contains(n) <==> exists|k: int|
                0 <= k < pairs.len() && #[trigger] value_names(ps, pairs[k].1, b, ps.vals@.len()).contains(n),
    decreases pairs.len(),
{
    if pairs.len() > 0 {
        let p = pairs.drop_last();
        lemma_pairs_names(ps, p, b);
        assert(pairs_names(ps, pairs, b) == pairs_names(ps, p, b) + value_names(
            ps,
            pairs[pairs.len() - 1].1,
            b,
            ps.vals@.len(),
        ));
        assert forall|n: Seq<char>|
            pairs_names(ps, pairs, b).contains(n) <==> exists|k: int|
                0 <= k < pairs.len() && #[trigger] value_names(ps, pairs[k].1, b, ps.vals@.len()).contains(n) by {
            if pairs_names(ps, pairs, b).contains(n) {
                if pairs_names(ps, p, b).contains(n) {
                    let k = choose|k: int|
                        0 <= k < p.len() && #[trigger] value_names(ps, p[k].1, b, ps.vals@.len()).contains(n);
                    assert(p[k] == pairs[k]);
                } else {
                    let k = pairs.len() - 1;
                    assert(value_names(ps, pairs[k].1, b, ps.vals@.len()).contains(n));
                }
            }
            if exists|k: int|
                0 <= k < pairs.len() && #[trigger] value_names(ps, pairs[k].1, b, ps.vals@.len()).contains(n) {
                let k = choose|k: int|
                    0 <= k < pairs.len() && #[trigger] value_names(ps, pairs[k].1, b, ps.vals@.len()).contains(n);
                if k < pairs.len() - 1 {
                    assert(p[k] == pairs[k]);
                    assert(value_names(ps, p[k].1, b, ps.vals@.len()).contains(n));
                }
            }
        }
    }
}

/// A name is used by a list of stored expressions exactly when one of
/// them uses it.
pub proof fn lemma_list_names(ps: ParseSlab, xs: Seq<ExpressionI>, b: int)
    ensures
        forall|n: Seq<char>|
            list_names(ps, xs, b).contains(n) <==> exists|j: int|
                0 <= j < xs.len() && #[trigger] sub_names(ps, xs[j], b).contains(n),
    decreases xs.len(),
{
    if xs.len() > 0 {
        let p = xs.drop_last();
        lemma_list_names(ps, p, b);
        assert(list_names(ps, xs, b) == list_names(ps, p, b) + sub_names(ps, xs[xs.len() - 1], b));
        assert forall|n: Seq<char>|
            list_names(ps, xs, b).contains(n) <==> exists|j: int|
                0 <= j < xs.len() && #[trigger] sub_names(ps, xs[j], b).contains(n) by {
            if list_names(ps, xs, b).contains(n) {
                if list_names(ps, p, b).contains(n) {
                    let j = choose|j: int| 0 <= j < p.len() && #[trigger] sub_names(ps, p[j], b).contains(n);
                    assert(p[j] == xs[j]);
                } else {
                    let j = xs.len() - 1;
                    assert(sub_names(ps, xs[j], b).contains(n));
                }
            }
            if exists|j: int| 0 <= j < xs.len() && #[trigger] sub_names(ps, xs[j], b).contains(n) {
                let j = choose|j: int| 0 <= j < xs.len() && #[trigger] sub_names(ps, xs[j], b).contains(n);
                if j < xs.len() - 1 {
                    assert(p[j] == xs[j]);
                    assert(sub_names(ps, p[j], b).contains(n));
                }
            }
        }
    }
}

/// A name is used by a list of instruction operands exactly when one of
/// them uses it.
pub proof fn lemma_ic_list_names(ps: ParseSlab, cs: CompileSlab, xs: Seq<IC>, b: int)
    ensures
        forall|n: Seq<char>|
            ic_list_names(ps, cs, xs, b).contains(n) <==> exists|j: int|
                0 <= j < xs.len() && #[trigger] ic_names(ps, cs, xs[j], b).contains(n),
    decreases xs.len(),
{
    if xs.len() > 0 {
        let p = xs.drop_last();
        lemma_ic_list_names(ps, cs, p, b);
        assert(ic_list_names(ps, cs, xs, b) == ic_list_names(ps, cs, p, b) + ic_names(
            ps,
            cs,
            xs[xs.len() - 1],
            b,
        ));
        assert forall|n: Seq<char>|
            ic_list_names(ps, cs, xs, b).contains(n) <==> exists|j: int|
                0 <= j < xs.len() && #[trigger] ic_names(ps, cs, xs[j], b).contains(n) by {
            if ic_list_names(ps, cs, xs, b).contains(n) {
                if ic_list_names(ps, cs, p, b).contains(n) {
                    let j = choose|j: int| 0 <= j < p.len() && #[trigger] ic_names(ps, cs, p[j], b).contains(n);
                    assert(p[j] == xs[j]);
                } else {
                    let j = xs.len() - 1;
                    assert(ic_names(ps, cs, xs[j], b).contains(n));
                }
            }
            if exists|j: int| 0 <= j < xs.len() && #[trigger] ic_names(ps, cs, xs[j], b).contains(n) {
                let j = choose|j: int| 0 <= j < xs.len() && #[trigger] ic_names(ps, cs, xs[j], b).contains(n);
                if j < xs.len() - 1 {
                    assert(p[j] == xs[j]);
                    assert(ic_names(ps, cs, p[j], b).contains(n));
                }
            }
        }
    }
}

/// A name is used by the arguments of a `print()` call exactly when one of
/// its expression arguments uses it; string arguments use none.
pub proof fn lemma_print_names(ps: ParseSlab, items: Seq<ExpressionOrString>, b: int)
    ensures
        forall|n: Seq<char>|
            print_names(ps, items, b).contains(n) <==> exists|j: int|
                0 <= j < items.len() && #[trigger] items[j] is EExpr
                    && sub_names(ps, items[j]->EExpr_0, b).contains(n),
    decreases items.len(),
{
    if items.len() > 0 {
        let p = items.drop_last();
        lemma_print_names(ps, p, b);
        let last = items[items.len() - 1];
        assert(print_names(ps, items, b) == print_names(ps, p, b) + match last {
            ExpressionOrString::EExpr(x) => sub_names(ps, x, b),
            ExpressionOrString::EStr(_) => Set::empty(),
        });
        assert forall|n: Seq<char>|
            print_names(ps, items, b).contains(n) <==> exists|j: int|
                0 <= j < items.len() && #[trigger] items[j] is EExpr
                    && sub_names(ps, items[j]->EExpr_0, b).contains(n) by {
            if print_names(ps, items, b).contains(n) {
                if print_names(ps, p, b).contains(n) {
                    let j = choose|j: int|
                        0 <= j < p.len() && #[trigger] p[j] is EExpr && sub_names(ps, p[j]->EExpr_0, b).contains(n);
                    assert(p[j] == items[j]);
                } else {
                    let j = items.len() - 1;
                    assert(items[j] is EExpr && sub_names(ps, items[j]->EExpr_0, b).contains(n));
                }
            }
            if exists|j: int|
                0 <= j < items.len() && #[trigger] items[j] is EExpr
                    && sub_names(ps, items[j]->EExpr_0, b).contains(n) {
                let j = choose|j: int|
                    0 <= j < items.len() && #[trigger] items[j] is EExpr
                        && sub_names(ps, items[j]->EExpr_0, b).contains(n);
                if j < items.len() - 1 {
                    assert(p[j] == items[j]);
                }
            }
        }
    }
}

/// A reference to a stored expression reaches the names of that
/// expression; a reference at or above the bound, or past the end of the
/// slab, reaches none.
pub proof fn lemma_reference_names(ps: ParseSlab, x: ExpressionI, b: int)
    ensures
        x.0 < b && x.0 < ps.exprs@.len() ==> sub_names(ps, x, b) == ex_names(
            ps,
            ps.exprs@[x.0 as int],
            x.0 as int,
        ),
        !(x.0 < b && x.0 < ps.exprs@.len()) ==> sub_names(ps, x, b) == Set::<Seq<char>>::empty(),
{
}

/// The names of an expression are those of its first value together with
/// those of the value of every operator/value pair, and no others.
pub proof fn lemma_expression_names(ps: ParseSlab, e: Expression, b: int)
    ensures
        value_names(ps, e.first, b, ps.vals@.len()).subset_of(ex_names(ps, e, b)),
        forall|k: int|
            0 <= k < e.pairs@.len() ==> #[trigger] value_names(ps, e.pairs@[k].1, b, ps.vals@.len()).subset_of(
                ex_names(ps, e, b),
            ),
        forall|n: Seq<char>|
            #[trigger] ex_names(ps, e, b).contains(n) ==> value_names(ps, e.first, b, ps.vals@.len()).contains(n)
                || exists|k: int|
                0 <= k < e.pairs@.len() && #[trigger] value_names(ps, e.pairs@[k].1, b, ps.vals@.len()).contains(n),
{
    lemma_pairs_names(ps, e.pairs@, b);
    assert forall|n: Seq<char>| #[trigger] ex_names(ps, e, b).contains(n) implies value_names(
        ps,
        e.first,
        b,
        ps.vals@.len(),
    ).contains(n) || exists|k: int|
        0 <= k < e.pairs@.len() && #[trigger] value_names(ps, e.pairs@[k].1, b, ps.vals@.len()).contains(n) by {
        if !value_names(ps, e.first, b, ps.vals@.len()).contains(n) {
            assert(pairs_names(ps, e.pairs@, b).contains(n));
        }
    }
    assert forall|k: int| 0 <= k < e.pairs@.len() implies #[trigger] value_names(
        ps,
        e.pairs@[k].1,
        b,
        ps.vals@.len(),
    ).subset_of(ex_names(ps, e, b)) by {
        assert forall|n: Seq<char>| value_names(ps, e.pairs@[k].1, b, ps.vals@.len()).contains(n) implies ex_names(
            ps,
            e,
            b,
        ).contains(n) by {
            assert(pairs_names(ps, e.pairs@, b).contains(n));
        }
    }
}

/// A reference to a stored instruction reaches the names of that
/// instruction; a reference at or above the bound, or past the end of the
/// slab, reaches none; a constant operand has none.
pub proof fn lemma_operand_names(ps: ParseSlab, cs: CompileSlab, ic: IC, b: int)
    ensures
        match ic {
            IC::I(i) => {
                &&& ref_names(ps, cs, i, b) == ic_names(ps, cs, ic, b)
                &&& i.0 < b && i.0 < cs.instrs@.len() ==> ic_names(ps, cs, ic, b) == inline_names(
                    ps,
                    cs,
                    cs.instrs@[i.0 as int],
                    i.0 as int,
                )
                &&& !(i.0 < b && i.0 < cs.instrs@.len()) ==> ic_names(ps, cs, ic, b) == Set::<Seq<char>>::empty()
            },
            IC::C(_) => ic_names(ps, cs, ic, b) == Set::<Seq<char>>::empty(),
        },
{
}

/// A variable, target variable or custom function name is a name of the
/// call; the constants `e()` and `pi()` use none.
pub proof fn lemma_variable_names(ps: ParseSlab, s: String, b: int)
    ensures
        stdfunc_names(ps, StdFunc::EVar(s), b) == set![s@],
        stdfunc_names(ps, StdFunc::ETargetVar(s), b) == set![s@],
        stdfunc_names(ps, StdFunc::EFuncE, b) == Set::<Seq<char>>::empty(),
        stdfunc_names(ps, StdFunc::EFuncPi, b) == Set::<Seq<char>>::empty(),
{
}

/// A custom function call uses the function's name and the names of every
/// one of its arguments, and no others.
pub proof fn lemma_call_names(ps: ParseSlab, name: String, args: Vec<ExpressionI>, b: int)
    ensures
        forall|j: int|
            0 <= j < args@.len() ==> #[trigger] sub_names(ps, args@[j], b).subset_of(
                stdfunc_names(ps, StdFunc::EFunc { name, args }, b),
            ),
        forall|n: Seq<char>|
            #[trigger] stdfunc_names(ps, StdFunc::EFunc { name, args }, b).contains(n) <==> (n == name@
                || exists|j: int| 0 <= j < args@.len() && #[trigger] sub_names(ps, args@[j], b).contains(n)),
{
    lemma_list_names(ps, args@, b);
    assert(stdfunc_names(ps, StdFunc::EFunc { name, args }, b) == set![name@] + list_names(ps, args@, b));
}

/// `if(cond, then, els)` uses the names of its condition and of both
/// branches, whichever branch evaluation takes.
pub proof fn lemma_if_names(ps: ParseSlab, cond: ExpressionI, then: ExpressionI, els: ExpressionI, b: int)
    ensures
        stdfunc_names(ps, StdFunc::EFuncIf { cond, then, els }, b) == sub_names(ps, cond, b) + sub_names(
            ps,
            then,
            b,
        ) + sub_names(ps, els, b),
{
}

/// `min()` and `max()` use the names of every one of their arguments, and
/// no others.
pub proof fn lemma_min_max_names(ps: ParseSlab, first: ExpressionI, rest: Vec<ExpressionI>, b: int)
    ensures
        sub_names(ps, first, b).subset_of(stdfunc_names(ps, StdFunc::EFuncMin { first, rest }, b)),
        forall|j: int|
            0 <= j < rest@.len() ==> #[trigger] sub_names(ps, rest@[j], b).subset_of(
                stdfunc_names(ps, StdFunc::EFuncMin { first, rest }, b),
            ),
        forall|n: Seq<char>|
            #[trigger] stdfunc_names(ps, StdFunc::EFuncMin { first, rest }, b).contains(n) <==> (sub_names(
                ps,
                first,
                b,
            ).contains(n) || exists|j: int|
                0 <= j < rest@.len() && #[trigger] sub_names(ps, rest@[j], b).contains(n)),
        stdfunc_names(ps, StdFunc::EFuncMax { first, rest }, b) == stdfunc_names(
            ps,
            StdFunc::EFuncMin { first, rest },
            b,
        ),
{
    lemma_list_names(ps, rest@, b);
    assert(stdfunc_names(ps, StdFunc::EFuncMin { first, rest }, b) == sub_names(ps, first, b) + list_names(
        ps,
        rest@,
        b,
    ));
}

/// `log()` and `round()` use the names of their argument and of the base
/// or modulus when there is one.
pub proof fn lemma_log_round_names(ps: ParseSlab, opt: Option<ExpressionI>, expr: ExpressionI, b: int)
    ensures
        stdfunc_names(ps, StdFunc::EFuncLog { base: opt, expr }, b) == match opt {
            Some(x) => sub_names(ps, x, b) + sub_names(ps, expr, b),
            None => sub_names(ps, expr, b),
        },
        stdfunc_names(ps, StdFunc::EFuncRound { modulus: opt, expr }, b) == stdfunc_names(
            ps,
            StdFunc::EFuncLog { base: opt, expr },
            b,
        ),
{
}

/// A built-in function of one argument uses the names of that argument.
pub proof fn lemma_one_argument_names(ps: ParseSlab, x: ExpressionI, b: int)
    ensures
        stdfunc_names(ps, StdFunc::EFuncInt(x), b) == sub_names(ps, x, b),
        stdfunc_names(ps, StdFunc::EFuncCeil(x), b) == sub_names(ps, x, b),
        stdfunc_names(ps, StdFunc::EFuncFloor(x), b) == sub_names(ps, x, b),
        stdfunc_names(ps, StdFunc::EFuncAbs(x), b) == sub_names(ps, x, b),
        stdfunc_names(ps, StdFunc::EFuncSign(x), b) == sub_names(ps, x, b),
        stdfunc_names(ps, StdFunc::EFuncSin(x), b) == sub_names(ps, x, b),
        stdfunc_names(ps, StdFunc::EFuncCos(x), b) == sub_names(ps, x, b),
        stdfunc_names(ps, StdFunc::EFuncTan(x), b) == sub_names(ps, x, b),
        stdfunc_names(ps, StdFunc::EFuncASin(x), b) == sub_names(ps, x, b),
        stdfunc_names(ps, StdFunc::EFuncACos(x), b) == sub_names(ps, x, b),
        stdfunc_names(ps, StdFunc::EFuncATan(x), b) == sub_names(ps, x, b),
        stdfunc_names(ps, StdFunc::EFuncSinH(x), b) == sub_names(ps, x, b),
        stdfunc_names(ps, StdFunc::EFuncCosH(x), b) == sub_names(ps, x, b),
        stdfunc_names(ps, StdFunc::EFuncTanH(x), b) == sub_names(ps, x, b),
        stdfunc_names(ps, StdFunc::EFuncASinH(x), b) == sub_names(ps, x, b),
        stdfunc_names(ps, StdFunc::EFuncACosH(x), b) == sub_names(ps, x, b),
        stdfunc_names(ps, StdFunc::EFuncATanH(x), b) == sub_names(ps, x, b),
{
}

/// A compiled constant uses no name; a compiled variable is its own name.
pub proof fn lemma_instruction_leaf_names(ps: ParseSlab, cs: CompileSlab, s: String, c: u64, b: int)
    ensures
        inline_names(ps, cs, Instruction::IConst(c), b) == Set::<Seq<char>>::empty(),
        inline_names(ps, cs, Instruction::IVar(s), b) == set![s@],
        inline_names(ps, cs, Instruction::ITargetVar(s), b) == set![s@],
{
}

/// A compiled custom function call uses the function's name and the names
/// of every one of its operands, and no others.
pub proof fn lemma_instruction_call_names(ps: ParseSlab, cs: CompileSlab, name: String, args: Vec<IC>, b: int)
    ensures
        forall|j: int|
            0 <= j < args@.len() ==> #[trigger] ic_names(ps, cs, args@[j], b).subset_of(
                inline_names(ps, cs, Instruction::IFunc { name, args }, b),
            ),
        forall|n: Seq<char>|
            #[trigger] inline_names(ps, cs, Instruction::IFunc { name, args }, b).contains(n) <==> (n == name@
                || exists|j: int| 0 <= j < args@.len() && #[trigger] ic_names(ps, cs, args@[j], b).contains(n)),
{
    lemma_ic_list_names(ps, cs, args@, b);
    assert(inline_names(ps, cs, Instruction::IFunc { name, args }, b) == set![name@] + ic_list_names(
        ps,
        cs,
        args@,
        b,
    ));
}

/// A compiled instruction of one operand uses the names of that operand.
pub proof fn lemma_instruction_one_operand_names(ps: ParseSlab, cs: CompileSlab, i: InstructionI, b: int)
    ensures
        inline_names(ps, cs, Instruction::INeg(i), b) == ic_names(ps, cs, IC::I(i), b),
        inline_names(ps, cs, Instruction::INot(i), b) == ic_names(ps, cs, IC::I(i), b),
        inline_names(ps, cs, Instruction::IInv(i), b) == ic_names(ps, cs, IC::I(i), b),
        inline_names(ps, cs, Instruction::IFuncInt(i), b) == ic_names(ps, cs, IC::I(i), b),
        inline_names(ps, cs, Instruction::IFuncCeil(i), b) == ic_names(ps, cs, IC::I(i), b),
        inline_names(ps, cs, Instruction::IFuncFloor(i), b) == ic_names(ps, cs, IC::I(i), b),
        inline_names(ps, cs, Instruction::IFuncAbs(i), b) == ic_names(ps, cs, IC::I(i), b),
        inline_names(ps, cs, Instruction::IFuncSign(i), b) == ic_names(ps, cs, IC::I(i), b),
        inline_names(ps, cs, Instruction::IFuncSin(i), b) == ic_names(ps, cs, IC::I(i), b),
        inline_names(ps, cs, Instruction::IFuncCos(i), b) == ic_names(ps, cs, IC::I(i), b),
        inline_names(ps, cs, Instruction::IFuncTan(i), b) == ic_names(ps, cs, IC::I(i), b),
        inline_names(ps, cs, Instruction::IFuncASin(i), b) == ic_names(ps, cs, IC::I(i), b),
        inline_names(ps, cs, Instruction::IFuncACos(i), b) == ic_names(ps, cs, IC::I(i), b),
        inline_names(ps, cs, Instruction::IFuncATan(i), b) == ic_names(ps, cs, IC::I(i), b),
        inline_names(ps, cs, Instruction::IFuncSinH(i), b) == ic_names(ps, cs, IC::I(i), b),
        inline_names(ps, cs, Instruction::IFuncCosH(i), b) == ic_names(ps, cs, IC::I(i), b),
        inline_names(ps, cs, Instruction::IFuncTanH(i), b) == ic_names(ps, cs, IC::I(i), b),
        inline_names(ps, cs, Instruction::IFuncASinH(i), b) == ic_names(ps, cs, IC::I(i), b),
        inline_names(ps, cs, Instruction::IFuncACosH(i), b) == ic_names(ps, cs, IC::I(i), b),
        inline_names(ps, cs, Instruction::IFuncATanH(i), b) == ic_names(ps, cs, IC::I(i), b),
{
}

/// A compiled instruction of two operands (comparison, `%`, `^`, `log`,
/// `round`, `+`, `*`, `||`, `&&`, `min`, `max`) uses the names of both
/// operands, and no others.
pub proof fn lemma_instruction_two_operand_names(
    ps: ParseSlab,
    cs: CompileSlab,
    i: InstructionI,
    l: IC,
    r: IC,
    b: int,
)
    ensures
        inline_names(ps, cs, Instruction::ILT(l, r), b) == ic_names(ps, cs, l, b) + ic_names(ps, cs, r, b),
        inline_names(ps, cs, Instruction::ILTE(l, r), b) == ic_names(ps, cs, l, b) + ic_names(ps, cs, r, b),
        inline_names(ps, cs, Instruction::IEQ(l, r), b) == ic_names(ps, cs, l, b) + ic_names(ps, cs, r, b),
        inline_names(ps, cs, Instruction::INE(l, r), b) == ic_names(ps, cs, l, b) + ic_names(ps, cs, r, b),
        inline_names(ps, cs, Instruction::IGTE(l, r), b) == ic_names(ps, cs, l, b) + ic_names(ps, cs, r, b),
        inline_names(ps, cs, Instruction::IGT(l, r), b) == ic_names(ps, cs, l, b) + ic_names(ps, cs, r, b),
        inline_names(ps, cs, Instruction::IMod { dividend: l, divisor: r }, b) == ic_names(ps, cs, l, b) + ic_names(ps, cs, r, b),
        inline_names(ps, cs, Instruction::IExp { base: l, power: r }, b) == ic_names(ps, cs, l, b) + ic_names(ps, cs, r, b),
        inline_names(ps, cs, Instruction::IFuncLog { base: l, of: r }, b) == ic_names(ps, cs, l, b) + ic_names(ps, cs, r, b),
        inline_names(ps, cs, Instruction::IFuncRound { modulus: l, of: r }, b) == ic_names(ps, cs, l, b) + ic_names(ps, cs, r, b),
        inline_names(ps, cs, Instruction::IAdd(i, r), b) == ic_names(ps, cs, IC::I(i), b) + ic_names(ps, cs, r, b),
        inline_names(ps, cs, Instruction::IMul(i, r), b) == ic_names(ps, cs, IC::I(i), b) + ic_names(ps, cs, r, b),
        inline_names(ps, cs, Instruction::IOR(i, r), b) == ic_names(ps, cs, IC::I(i), b) + ic_names(ps, cs, r, b),
        inline_names(ps, cs, Instruction::IAND(i, r), b) == ic_names(ps, cs, IC::I(i), b) + ic_names(ps, cs, r, b),
        inline_names(ps, cs, Instruction::IFuncMin(i, r), b) == ic_names(ps, cs, IC::I(i), b) + ic_names(ps, cs, r, b),
        inline_names(ps, cs, Instruction::IFuncMax(i, r), b) == ic_names(ps, cs, IC::I(i), b) + ic_names(ps, cs, r, b),
{
}

/// A compiled `if()` uses the names of its condition and of both branches.
pub proof fn lemma_instruction_if_names(ps: ParseSlab, cs: CompileSlab, cond: IC, then: IC, els: IC, b: int)
    ensures
        inline_names(ps, cs, Instruction::IFuncIf { cond, then, els }, b) == ic_names(ps, cs, cond, b)
            + ic_names(ps, cs, then, b) + ic_names(ps, cs, els, b),
{
}

/// A compiled `print()` uses the names of its expression arguments, over
/// the whole parse slab.
pub proof fn lemma_instruction_print_names(ps: ParseSlab, cs: CompileSlab, pf: PrintFunc, b: int)
    ensures
        forall|n: Seq<char>|
            #[trigger] inline_names(ps, cs, Instruction::IPrintFunc(pf), b).contains(n) <==> exists|j: int|
                0 <= j < pf.0@.len() && #[trigger] pf.0@[j] is EExpr
                    && sub_names(ps, pf.0@[j]->EExpr_0, ps.exprs@.len() as int).contains(n),
{
    lemma_print_names(ps, pf.0@, ps.exprs@.len() as int);
}

/// The names of a value: a constant uses none; a function call or a
/// `print()` call uses its own names; a unary operator uses the names of
/// the stored value it applies to, when that value is stored before the
/// bound `vb`, and a parenthesized expression the names of that expression.
pub proof fn lemma_value_names(
    ps: ParseSlab,
    c: u64,
    f: StdFunc,
    pf: PrintFunc,
    vi: ValueI,
    x: ExpressionI,
    b: int,
    vb: nat,
)
    ensures
        value_names(ps, Value::EConstant(c), b, vb) == Set::<Seq<char>>::empty(),
        value_names(ps, Value::EStdFunc(f), b, vb) == stdfunc_names(ps, f, b),
        value_names(ps, Value::EPrintFunc(pf), b, vb) == print_names(ps, pf.0@, b),
        value_names(ps, Value::EUnaryOp(UnaryOp::EParentheses(x)), b, vb) == sub_names(ps, x, b),
        vi.0 < vb && vi.0 < ps.vals@.len() ==> {
            &&& value_names(ps, Value::EUnaryOp(UnaryOp::EPos(vi)), b, vb) == value_names(
                ps,
                ps.vals@[vi.0 as int],
                b,
                vi.0 as nat,
            )
            &&& value_names(ps, Value::EUnaryOp(UnaryOp::ENeg(vi)), b, vb) == value_names(
                ps,
                ps.vals@[vi.0 as int],
                b,
                vi.0 as nat,
            )
            &&& value_names(ps, Value::EUnaryOp(UnaryOp::ENot(vi)), b, vb) == value_names(
                ps,
                ps.vals@[vi.0 as int],
                b,
                vi.0 as nat,
            )
        },
        !(vi.0 < vb && vi.0 < ps.vals@.len()) ==> {
            &&& value_names(ps, Value::EUnaryOp(UnaryOp::EPos(vi)), b, vb) == Set::<Seq<char>>::empty()
            &&& value_names(ps, Value::EUnaryOp(UnaryOp::ENeg(vi)), b, vb) == Set::<Seq<char>>::empty()
            &&& value_names(ps, Value::EUnaryOp(UnaryOp::ENot(vi)), b, vb) == Set::<Seq<char>>::empty()
        },
{
}

} // verus!
