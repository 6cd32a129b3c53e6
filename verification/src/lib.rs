//! A small x86-64 assembler: text is tokenized, parsed into a program in
//! three passes (label pre-scan, statement construction, instruction
//! encoding with label resolution), and emitted as an ELF64 executable
//! image with RIP-relative displacements patched in.

pub mod ast;
pub mod chars;
pub mod directive;
pub mod elf;
pub mod encoder;
pub mod errors;
pub mod instruction;
pub mod label;
pub mod names;
pub mod opcodes;
pub mod parser;
pub mod section;
pub mod token;
pub mod tokenizer;
