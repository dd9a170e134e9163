//! The core of a small interactive shell: the lexer for one input line, the
//! registry of builtins, the search-path resolver, prefix completion,
//! redirection and pipeline planning, and the history buffer.
//!
//! Everything here works on plain values. Reading a line, touching the file
//! system and starting processes are left to the program around it.

pub mod text;
pub mod lexer;
pub mod history;
pub mod builtins;
pub mod redirect;
pub mod pipeline;
pub mod resolver;
pub mod completion;
pub mod repl;
