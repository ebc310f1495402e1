//! Trap handling and the interactive debug console of a RISC-V machine-mode
//! SBI firmware: the saved guest context, trap classification, the dispatch
//! decisions, and the lexer, parser and interpreter of debug commands.

pub mod console;
pub mod context;
pub mod lexer;
pub mod parser;
pub mod render;
pub mod trap;
