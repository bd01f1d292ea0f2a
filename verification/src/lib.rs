//! A compiler and interpreter for a small stack language in the manner of
//! Forth. Programs work on one stack of 64-bit signed integers.
//!
//! A source text passes through the library in stages:
//!
//! - [`lexer`] cuts the text into positioned words;
//! - [`parser`] turns the words into instructions and links the control flow;
//! - [`interpreter`] executes the instructions, or
//! - [`codegen`] lowers them to x86-64 assembly text, which [`driver`] says
//!   how to assemble, link and run.
//!
//! Every function comes with a contract over a mathematical model of its
//! arguments and result, and is verified against it. Nothing here reads or
//! writes a file or starts a program: that is left to the caller.

pub mod bytecode;
pub mod codegen;
pub mod decimal;
pub mod driver;
pub mod instruction;
pub mod interpreter;
pub mod lexer;
pub mod parser;
pub mod text;
pub mod token;
