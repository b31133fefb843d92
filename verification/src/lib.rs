pub mod driver;
pub mod ir;
pub mod parser;
pub mod symbol_table;
