//! Serv: the lexing, parsing and data-handling core of a small
//! concatenative scripting language for web servers.

pub mod text;
pub mod cursor;
pub mod generic_tokenizer;
pub mod lexer;
pub mod ast;
pub mod parser;
pub mod dictionary;
pub mod error;
pub mod reference;
pub mod body;
pub mod table;
pub mod engine;
pub mod request_state;
pub mod substitution;
pub mod command;
pub mod commands;
pub mod options;
pub mod config;
pub mod template;
pub mod old_servvalue;
pub mod json;
pub mod json_parser;
pub mod json_doc;
pub mod module;
pub mod compiler;
pub mod lists;
pub mod request;
pub mod strings;
pub mod servstring;
pub mod expression;
