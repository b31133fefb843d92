pub mod compiler;
