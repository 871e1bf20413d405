//! Propositional-logic deduction checking.
//!
//! Formulas over single-letter variables with negation, conjunction,
//! disjunction and implication are lexed and parsed into a NAND-normalized
//! tree, and an iterative substitution solver decides whether a target
//! proposition is forced true (valid), forced false (invalid), or left
//! open by the premises (indeterminate).

pub mod ast;
pub mod lex;
pub mod parse;
pub mod solve;
