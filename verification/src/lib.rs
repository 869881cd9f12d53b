//! Lexical analysis for the Lace language: source text goes in, one classified and
//! positioned token comes out per call.
//!
//! `io` holds the text being scanned, `token` the tokens and their kinds, `chars` the
//! character classes the scanner distinguishes, `number` the value of an integer literal,
//! `scan` the mathematical description of one scanning step, `lexer` the scanner itself,
//! and `laws` what holds of every scan.
pub mod chars;
pub mod io;
pub mod laws;
pub mod lexer;
pub mod number;
pub mod scan;
pub mod token;
