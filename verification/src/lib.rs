//! Nexus: the VORTEX language front end, its interaction-net IR, and the
//! VICE reducer, with contracts checked by Verus.
pub mod ir;
pub mod vice;
pub mod text;
pub mod token;
pub mod lexer;
pub mod lexer_law;
pub mod ast;
pub mod engine;
pub mod parser_spec;
pub mod parser;
pub mod parser_total;
pub mod codegen_spec;
pub mod codegen;
pub mod codegen_law;
pub mod codegen_call_law;
pub mod legacy_parser_spec;
pub mod legacy_parser;
pub mod legacy_parser_total;
pub mod simple_parser_spec;
pub mod simple_parser;
pub mod environment;
pub mod interpreter_spec;
pub mod interpreter;
pub mod gpu_plan;
pub mod repl_input;
