use fasteval::compiler::{IC, Instruction, InstructionI};
use fasteval::parser::{
    BinaryOp, ExprPair, Expression, ExpressionI, ExpressionOrString, PrintFunc, StdFunc,
    UnaryOp, Value, ValueI,
};
use fasteval::slab::{CompileSlab, ParseSlab, Slab};

fn var(name: &str) -> Value {
    Value::EStdFunc(StdFunc::EVar(name.to_string()))
}

fn single(v: Value) -> Expression {
    Expression { first: v, pairs: vec![] }
}

fn sample_slab() -> Slab {
    Slab {
        ps: ParseSlab {
            exprs: vec![single(var("x")), single(var("y"))],
            vals: vec![var("z"), Value::EUnaryOp(UnaryOp::ENot(ValueI(0)))],
        },
        cs: CompileSlab { instrs: vec![Instruction::IVar("a".to_string())] },
    }
}

#[test]
fn expression_names_cover_all_branches_once() {
    let slab = sample_slab();
    assert!(slab.is_wf());
    let root = Expression {
        first: Value::EUnaryOp(UnaryOp::ENeg(ValueI(1))),
        pairs: vec![
            ExprPair(
                BinaryOp::EAdd,
                Value::EStdFunc(StdFunc::EFunc {
                    name: "f".to_string(),
                    args: vec![ExpressionI(0), ExpressionI(1)],
                }),
            ),
            ExprPair(BinaryOp::EMul, var("x")),
            ExprPair(
                BinaryOp::EAdd,
                Value::EStdFunc(StdFunc::EFuncIf {
                    cond: ExpressionI(0),
                    then: ExpressionI(1),
                    els: ExpressionI(0),
                }),
            ),
        ],
    };
    assert!(root.refs_below(&slab.ps, slab.ps.exprs.len()));
    let names = root.var_names(&slab);
    assert_eq!(names.len(), 4);
    assert_eq!(names, vec!["f", "x", "y", "z"]);
}

#[test]
fn constants_and_builtins_have_no_names() {
    let slab = sample_slab();
    let v = Value::EConstant(2.5f64.to_bits());
    assert!(v.var_names(&slab).is_empty());
    let f = StdFunc::EFuncPi;
    assert!(f.var_names(&slab).is_empty());
    let g = StdFunc::EFuncLog { base: None, expr: ExpressionI(1) };
    assert_eq!(g.var_names(&slab), vec!["y"]);
    let h = StdFunc::EFuncMin { first: ExpressionI(0), rest: vec![ExpressionI(1), ExpressionI(0)] };
    assert_eq!(h.var_names(&slab), vec!["x", "y"]);
}

#[test]
fn target_variables_are_names_too() {
    let slab = sample_slab();
    let f = StdFunc::ETargetVar("t".to_string());
    assert_eq!(f.var_names(&slab), vec!["t"]);
}

#[test]
fn unary_operator_names_follow_the_stored_value() {
    let slab = sample_slab();
    assert_eq!(UnaryOp::EPos(ValueI(1)).var_names(&slab), vec!["z"]);
    assert_eq!(UnaryOp::EParentheses(ExpressionI(0)).var_names(&slab), vec!["x"]);
}

#[test]
fn print_names_skip_strings() {
    let slab = sample_slab();
    let pf = PrintFunc(vec![
        ExpressionOrString::EStr("label".to_string()),
        ExpressionOrString::EExpr(ExpressionI(1)),
        ExpressionOrString::EExpr(ExpressionI(1)),
    ]);
    assert_eq!(pf.var_names(&slab), vec!["y"]);
}

#[test]
fn instruction_names_follow_operands() {
    let slab = sample_slab();
    let ins = Instruction::IAdd(InstructionI(0), IC::C(1f64.to_bits()));
    assert_eq!(ins.var_names(&slab), vec!["a"]);
    let call = Instruction::IFunc {
        name: "g".to_string(),
        args: vec![IC::I(InstructionI(0)), IC::C(0), IC::I(InstructionI(0))],
    };
    assert_eq!(call.var_names(&slab), vec!["a", "g"]);
    let pr = Instruction::IPrintFunc(PrintFunc(vec![ExpressionOrString::EExpr(ExpressionI(0))]));
    assert_eq!(pr.var_names(&slab), vec!["x"]);
    assert!(Instruction::IConst(0).var_names(&slab).is_empty());
}

#[test]
fn self_reference_is_not_well_formed() {
    let mut slab = sample_slab();
    slab.ps.exprs[0] = single(Value::EUnaryOp(UnaryOp::EParentheses(ExpressionI(0))));
    assert!(!slab.is_wf());
    let mut slab = sample_slab();
    slab.ps.vals[0] = Value::EUnaryOp(UnaryOp::EPos(ValueI(0)));
    assert!(slab.is_wf());
    assert!(!Value::EUnaryOp(UnaryOp::EPos(ValueI(0))).refs_below(&slab.ps, 2, 2));
    assert!(Value::EUnaryOp(UnaryOp::EPos(ValueI(1))).refs_below(&sample_slab().ps, 2, 2));
    let mut slab = sample_slab();
    slab.cs.instrs.push(Instruction::INeg(InstructionI(1)));
    assert!(!slab.is_wf());
}

#[test]
fn forward_instruction_reference_is_well_formed() {
    let mut slab = sample_slab();
    slab.cs.instrs.push(Instruction::INeg(InstructionI(0)));
    assert!(slab.is_wf());
    assert!(Instruction::IFuncMax(InstructionI(1), IC::I(InstructionI(0))).refs_below(&slab, 2));
    assert!(!Instruction::IFuncMax(InstructionI(1), IC::C(0)).refs_below(&slab, 1));
    assert!(Instruction::IFuncMax(InstructionI(2), IC::C(0)).refs_below(&slab, 1));
}

#[test]
fn out_of_range_references_add_no_names() {
    let mut slab = sample_slab();
    slab.ps.exprs.push(single(Value::EUnaryOp(UnaryOp::EParentheses(ExpressionI(9)))));
    slab.cs.instrs.push(Instruction::INeg(InstructionI(7)));
    assert!(slab.is_wf());
    assert!(StdFunc::EFuncAbs(ExpressionI(9)).refs_below(2, 3));
    assert!(StdFunc::EFuncAbs(ExpressionI(9)).var_names(&slab).is_empty());
    assert_eq!(
        StdFunc::EFuncMin { first: ExpressionI(9), rest: vec![ExpressionI(1)] }.var_names(&slab),
        vec!["y"]
    );
    assert!(Instruction::INeg(InstructionI(7)).var_names(&slab).is_empty());
    assert_eq!(
        Instruction::IAdd(InstructionI(7), IC::I(InstructionI(0))).var_names(&slab),
        vec!["a"]
    );
    assert!(Value::EUnaryOp(UnaryOp::ENeg(ValueI(9))).var_names(&slab).is_empty());
    let pf = PrintFunc(vec![ExpressionOrString::EExpr(ExpressionI(9))]);
    assert!(pf.refs_below(3, 3));
    assert!(pf.var_names(&slab).is_empty());
}

#[test]
fn adding_names_twice_changes_nothing() {
    let slab = sample_slab();
    let call = Instruction::IFunc {
        name: "g".to_string(),
        args: vec![IC::I(InstructionI(0)), IC::C(0)],
    };
    let mut dst = vec!["b".to_string()];
    call._var_names(&slab, &mut dst);
    assert_eq!(dst, vec!["a", "b", "g"]);
    let first = dst.clone();
    call._var_names(&slab, &mut dst);
    assert_eq!(dst, first);
    let e = single(var("y"));
    e._var_names(&slab, &mut dst);
    assert_eq!(dst, vec!["a", "b", "g", "y"]);
    e._var_names(&slab, &mut dst);
    assert_eq!(dst, vec!["a", "b", "g", "y"]);
}

#[test]
fn names_come_in_string_order() {
    let slab = sample_slab();
    let call = StdFunc::EFunc {
        name: "b".to_string(),
        args: vec![],
    };
    assert_eq!(call.var_names(&slab), vec!["b"]);
    let e = Expression {
        first: var("b"),
        pairs: vec![
            ExprPair(BinaryOp::EAdd, var("a")),
            ExprPair(BinaryOp::EAdd, var("B")),
            ExprPair(BinaryOp::EAdd, var("ab")),
            ExprPair(BinaryOp::EAdd, var("é")),
            ExprPair(BinaryOp::EAdd, var("a")),
        ],
    };
    assert_eq!(e.var_names(&slab), vec!["B", "a", "ab", "b", "é"]);
}
