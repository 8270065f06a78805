pub mod ast;
pub mod bytecode;
pub mod compiler;
pub mod decoding;
pub mod dumper;
pub mod errors;
pub mod interpreter;
pub mod lexer;
pub mod objects;
pub mod opcodes;
pub mod parser;
pub mod socket;
pub mod text;
pub mod url;
