//! Nexa compiler front end and tooling helpers, verified with Verus.
pub mod span;
pub mod token;
pub mod text;
pub mod lexer;
pub mod ast;
pub mod grammar;
pub mod parser;
pub mod optimizer;
pub mod ir;
pub mod lower;
pub mod types;
pub mod cli;
pub mod updater;
pub mod auth;
pub mod project;
pub mod ui;
pub mod hm;
pub mod semantic;
pub mod registry;
pub mod spelling;
pub mod resolver;
pub mod wasm_layout;
pub mod wasm;
pub mod compile;
pub mod testgen;
pub mod packager;
