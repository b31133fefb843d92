pub mod common;
pub mod decs;
pub mod expr;
pub mod fun;
pub mod parser;
pub mod ty;
pub mod var;
