//! Expression compiler for a small scripting language: tokens in, stack-machine bytecode out.

pub mod chunk;
pub mod compiler;
pub mod scanner;
pub mod token;
