use vstd::prelude::*;
use crate::parser::PrintFunc;

verus! {

/// Index of an `Instruction` in the compile slab.
#[derive(Debug, Clone, Copy, PartialEq, Eq, Structural)]
pub struct InstructionI(pub usize);

/// An instruction operand: an instruction of the compile slab, or a
/// constant held as the IEEE-754 bit pattern of its `f64`.
#[derive(Debug, Clone, Copy, PartialEq, Eq, Structural)]
pub enum IC {
    I(InstructionI),
    C(u64),
}

/// A compiled instruction. Constants are held as IEEE-754 bit patterns.
#[derive(Debug, Clone, PartialEq, Eq)]
pub enum Instruction {
    IConst(u64),
    INeg(InstructionI),
    INot(InstructionI),
    IInv(InstructionI),
    IAdd(InstructionI, IC),
    IMul(InstructionI, IC),
    IMod { dividend: IC, divisor: IC },
    IExp { base: IC, power: IC },
    ILT(IC, IC),
    ILTE(IC, IC),
    IEQ(IC, IC),
    INE(IC, IC),
    IGTE(IC, IC),
    IGT(IC, IC),
    IOR(InstructionI, IC),
    IAND(InstructionI, IC),
    IVar(String),
    ITargetVar(String),
    IFunc { name: String, args: Vec<IC> },
    IFuncInt(InstructionI),
    IFuncCeil(InstructionI),
    IFuncFloor(InstructionI),
    IFuncAbs(InstructionI),
    IFuncSign(InstructionI),
    IFuncLog { base: IC, of: IC },
    IFuncRound { modulus: IC, of: IC },
    IFuncMin(InstructionI, IC),
    IFuncMax(InstructionI, IC),
    IFuncSin(InstructionI),
    IFuncCos(InstructionI),
    IFuncTan(InstructionI),
    IFuncASin(InstructionI),
    IFuncACos(InstructionI),
    IFuncATan(InstructionI),
    IFuncSinH(InstructionI),
    IFuncCosH(InstructionI),
    IFuncTanH(InstructionI),
    IFuncASinH(InstructionI),
    IFuncACosH(InstructionI),
    IFuncATanH(InstructionI),
    IFuncIf { cond: IC, then: IC, els: IC },
    IPrintFunc(PrintFunc),
}

} // verus!
