//! Core of an interactive command interpreter: a tokenizer with shell
//! quoting and escaping rules, a redirect extractor, a pipeline parser,
//! builtin-command parsing, command resolution, and a prefix trie used
//! for command completion.

pub mod builtin;
pub mod command;
pub mod completer;
pub mod executable;
pub mod history;
pub mod numbers;
pub mod parser;
pub mod reader;
pub mod redirect;
pub mod strutil;
pub mod tokenize;
pub mod trie;
pub mod utils;
