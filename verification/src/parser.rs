use vstd::prelude::*;

verus! {

/// Index of an `Expression` in the parse slab.
#[derive(Debug, Clone, Copy, PartialEq, Eq, Structural)]
pub struct ExpressionI(pub usize);

/// Index of a `Value` in the parse slab.
#[derive(Debug, Clone, Copy, PartialEq, Eq, Structural)]
pub struct ValueI(pub usize);

/// A binary operator between two values of an expression.
#[derive(Debug, Clone, Copy, PartialEq, Eq, Structural)]
pub enum BinaryOp {
    EAdd,
    ESub,
    EMul,
    EDiv,
    EMod,
    EExp,
    ELT,
    ELTE,
    EEQ,
    ENE,
    EGTE,
    EGT,
    EOR,
    EAND,
}

/// A unary operator applied to a value of the slab, or a parenthesized
/// expression of the slab.
#[derive(Debug, Clone, Copy, PartialEq, Eq)]
pub enum UnaryOp {
    EPos(ValueI),
    ENeg(ValueI),
    ENot(ValueI),
    EParentheses(ExpressionI),
}

/// A call of a variable, a custom function or a built-in function.
#[derive(Debug, Clone, PartialEq, Eq)]
pub enum StdFunc {
    EVar(String),
    ETargetVar(String),
    EFunc { name: String, args: Vec<ExpressionI> },
    EFuncInt(ExpressionI),
    EFuncCeil(ExpressionI),
    EFuncFloor(ExpressionI),
    EFuncAbs(ExpressionI),
    EFuncSign(ExpressionI),
    EFuncLog { base: Option<ExpressionI>, expr: ExpressionI },
    EFuncRound { modulus: Option<ExpressionI>, expr: ExpressionI },
    EFuncMin { first: ExpressionI, rest: Vec<ExpressionI> },
    EFuncMax { first: ExpressionI, rest: Vec<ExpressionI> },
    EFuncIf { cond: ExpressionI, then: ExpressionI, els: ExpressionI },
    EFuncE,
    EFuncPi,
    EFuncSin(ExpressionI),
    EFuncCos(ExpressionI),
    EFuncTan(ExpressionI),
    EFuncASin(ExpressionI),
    EFuncACos(ExpressionI),
    EFuncATan(ExpressionI),
    EFuncSinH(ExpressionI),
    EFuncCosH(ExpressionI),
    EFuncTanH(ExpressionI),
    EFuncASinH(ExpressionI),
    EFuncACosH(ExpressionI),
    EFuncATanH(ExpressionI),
}

/// One argument of a `print()` call: an expression, or a string.
#[derive(Debug, Clone, PartialEq, Eq)]
pub enum ExpressionOrString {
    EExpr(ExpressionI),
    EStr(String),
}

/// The arguments of a `print()` call.
#[derive(Debug, Clone, PartialEq, Eq)]
pub struct PrintFunc(pub Vec<ExpressionOrString>);

/// A value of an expression. A constant is held as the IEEE-754 bit
/// pattern of its `f64`.
#[derive(Debug, Clone, PartialEq, Eq)]
pub enum Value {
    EConstant(u64),
    EUnaryOp(UnaryOp),
    EStdFunc(StdFunc),
    EPrintFunc(PrintFunc),
}

/// A binary operator and the value on its right.
#[derive(Debug, Clone, PartialEq, Eq)]
pub struct ExprPair(pub BinaryOp, pub Value);

/// An expression: a first value, then operator/value pairs.
#[derive(Debug, Clone, PartialEq, Eq)]
pub struct Expression {
    pub first: Value,
    pub pairs: Vec<ExprPair>,
}

} // verus!
