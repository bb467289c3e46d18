//! A small stack-based language: a tokenizer for program text and a stack machine
//! that runs the tokens and collects what they print.
//!
//! The machine is generic in its number type. The caller supplies the three things
//! that depend on it: reading a number from a word, the four arithmetic operators,
//! and formatting a number for output. Every contract holds for any such choice.
pub mod eval;
pub mod laws;
pub mod machine;
pub mod text;
pub mod token;
