//! Parsing of robot-arm G-code programs into typed commands.
//!
//! A program is a text of lines; each non-blank line holds a two-letter
//! mnemonic and its arguments. `lexer` cuts the text into tokens, `number`
//! reads numeric arguments, `command` turns the tokens of one line into a
//! `Command` or a `ParseError`, and `document` does so for every line of a
//! program, with per-line diagnostics. `report` formats the console output of
//! the connection checks.

pub mod lexer;
pub mod number;
pub mod command;
pub mod document;
pub mod report;
