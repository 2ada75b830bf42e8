//! Lexing and precedence-climbing parsing of infix arithmetic expressions.
//!
//! The lexer turns text into tokens, the parser turns tokens into an
//! expression tree. Number literals are kept exactly, as their decimal
//! digits; turning a tree into a floating-point value is left to callers.

pub mod lexer;
pub mod parser;
