//! A small compiler for a toy language: a lexer, a recursive-descent parser
//! that type-checks declarations, a code generator that writes a program out
//! as the builder instructions of an LLVM module, a bump arena, the symbol
//! tables of the code generator, and the runtime that compiled programs call.

pub mod token;
pub mod ast;
pub mod grammar;
pub mod parser;
pub mod arena;
pub mod symbols;
pub mod runtime;
pub mod code_gen;
pub mod code_order;
