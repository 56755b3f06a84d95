//! Planning and code generation for SQL expressions: resolution of column
//! references against the tables of a `SELECT`, analysis of result columns,
//! and translation of expressions into virtual-machine instructions.

pub mod ast;
pub mod domain;
pub mod error;
pub mod expr;
pub mod function;
pub mod properties;
pub mod schema;
pub mod select;
pub mod util;
pub mod vdbe;
