//! Abstract syntax and static analysis for a small Prolog-like rule
//! language: the tree model of a parsed program (facts, rules, formulas,
//! applications) and the free-variable analysis over that tree.

pub mod ast;
pub mod free_variables;
pub mod interning;
