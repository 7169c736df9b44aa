//! Structural evaluation logic of a math-expression engine: the parse and
//! compile slabs, the collection of variable and function names an
//! expression uses, the operator-precedence grouping of an expression's
//! binary operators, and the text assembly of `print()` calls.
pub mod error;
pub mod parser;
pub mod compiler;
pub mod slab;
pub mod precedence;
pub mod names;
pub mod name_laws;
pub mod print;
