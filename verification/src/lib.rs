//! A verified compiler for a small subset of C: a single `int`-returning,
//! `void`-argument function whose body is one `return` statement over a
//! constant or unary expression. The pipeline lexes the source text,
//! parses it into a source AST, lowers that into a straight-line
//! three-address form, converts it to an assembly tree, assigns stack
//! slots to temporaries, legalizes memory-to-memory moves, and finally
//! serializes AT&T-syntax x86-64 assembly text.

pub mod driver;
pub mod emission;
pub mod errors;
pub mod generator;
pub mod intermediate;
pub mod laws;
pub mod lexer;
pub mod numeral;
pub mod parser;
