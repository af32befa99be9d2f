//! A single-pass compiler and stack-based bytecode virtual machine for a
//! small dynamically typed scripting language in the Lox family.
//!
//! Source text is tokenized by the [`lexer`], compiled directly to bytecode
//! by the [`compiler`] (a Pratt parser that emits into a [`bytecode::Chunk`]),
//! and executed by the [`vm`].

pub mod token;

pub mod lexer;

pub mod table;

pub mod runtime_val;

pub mod num;

pub mod bytecode;

pub mod compiler;

pub mod vm;

pub mod error;
