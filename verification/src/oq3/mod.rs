//! Minimal OpenQASM 3 AST and its byte-exact pretty-printer.
pub mod ast;
pub mod printer;
