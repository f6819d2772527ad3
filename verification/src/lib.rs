//! ZPL (Zebra Programming Language) toolchain core: lexing, parsing,
//! formatting and validation of label code, with machine-checked contracts.

pub mod text;
pub mod hex_escape;
pub mod lexer;
pub mod ast;
pub mod diag;
pub mod tables;
pub mod emit;
pub mod args;
pub mod opcode;
pub mod parse_spec;
pub mod parser;
pub mod format;
pub mod state;
pub mod profile;
pub mod predicates;
pub mod plan;
pub mod cli;
pub mod field;
pub mod context;
pub mod constraints;
pub mod print_flow;
pub mod tracker;
pub mod label_state;
pub mod semantic;
pub mod pipeline;
pub mod preflight;
pub mod arg_checks;
pub mod coverage;
pub mod sarif;
pub mod command_args;
pub mod validator;
pub mod probe;
