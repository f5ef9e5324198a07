//! A compiler for Oat, a small statically typed imperative language.
//!
//! The stages are a lexer and recursive-descent parser, a type checker over a
//! structural subtyping relation, a lowering pass to an SSA intermediate
//! representation, and a code generator to x86-64.

pub mod ordered;
pub mod symbol;
pub mod table;
pub mod ast;
pub mod error;
pub mod show;
pub mod typecontext;
pub mod locals;
pub mod typecheck;
pub mod tokens;
pub mod lexer;
pub mod grammar;
pub mod parser;
pub mod parse;
pub mod unparse;
pub mod text;
pub mod roundtrip;
pub mod write;
pub mod fold;
pub mod llvmlite;
pub mod x86;
pub mod sizeof;
pub mod errors;
pub mod lower;
pub mod fresh;
pub mod compile;
pub mod cfg;
pub mod sound;
pub mod program;
pub mod layout;
pub mod select;
pub mod backend;
pub mod order;
pub mod wasm;
pub mod driver;
