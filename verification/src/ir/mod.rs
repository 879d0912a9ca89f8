//! In-memory data model for parsed QIR modules, and the parser that builds it.
pub mod model;
pub mod parser;
pub mod parser_util;

pub use model::{
    copy_operand, BinaryI1Op, Block, BrCondOperand, FloatLit, Function, Icmp, Instruction, IntArithOp, Module,
    Operand, PhiIncoming, PredicateI1,
};
