//! Front end for a small language of numeric expressions.
//!
//! A program is a signature line followed by statements, one per line: any
//! number of assignments `name = expression` and a final `return expression`.
//! Expressions combine integers and variables with `+ - * /`, a power with a
//! literal exponent, parentheses and `if a < b then x else y fi`.
//!
//! The grammar is given as mathematical functions on character sequences:
//! [`lexer::token`] for tokens, the functions of [`grammar`] for
//! expressions, [`statement::statement`] for lines and [`program::program`]
//! for whole texts. The executable tokenizer and parser are proved to compute
//! exactly those functions, with positions that move by the characters used
//! up.
//!
//! What is proved of the grammar itself stands in [`extent`] (how far it
//! reads) and [`reparse`] (that the text which [`printer`] writes for a
//! parsed tree is parsed as that tree again).

pub mod ast;
pub mod error;
pub mod extent;
pub mod grammar;
pub mod lexer;
pub mod message;
pub mod parser;
pub mod position;
pub mod printer;
pub mod program;
pub mod reading;
pub mod reparse;
pub mod signature;
pub mod statement;
pub mod steps;
pub mod text;
pub mod token;
