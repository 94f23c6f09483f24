//! The syntax tree: operators, literal values, expressions and statements,
//! with the grammar that the parser follows for each.

pub mod expr;
pub mod op;
pub mod reading;
pub mod relax;
pub mod shape;
pub mod stmt;
pub mod value;
