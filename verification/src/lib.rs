//! A Jinja-like template engine: template parser, escapers, built-in filters
//! and configuration handling, with their behaviour stated as contracts.

pub mod text;
pub mod escape;
pub mod ast;
pub mod lex;
pub mod expr_parser;
pub mod target_parser;
pub mod node_parser;
pub mod template;
pub mod parse;
pub mod filters;
pub mod simple_filters;
pub mod config;
pub mod fmt;
pub mod input;
pub mod path;
pub mod helpers;
pub mod codegen;
pub mod args;
pub mod laws;
pub mod deps;
pub mod render;
pub mod rc_str;
pub mod generator;
pub mod derive_input;
pub mod block_codegen;
pub mod heritage;
pub mod writables;
pub mod unescape;
pub mod template_input;
pub mod macro_call;
pub mod node_handling;
pub mod i18n;
