use vstd::prelude::*;

verus! {

/// Errors raised while evaluating an expression or an instruction.
#[derive(Debug, Clone, PartialEq, Eq)]
pub enum Error {
    /// A variable or a custom function is not defined by the namespace.
    Undefined(String),
    /// A function was called with arguments it does not accept.
    WrongArgs(String),
    /// A state that the evaluator never reaches.
    Unreachable,
}

} // verus!
