//! Core of an interactive command runner: a shell-word tokenizer, a display
//! escaper, and a model of a base command line whose options can be added and
//! removed between runs.

pub mod command;
pub mod escape;
pub mod shell;
