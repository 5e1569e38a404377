//! Verified core of a four-mode desktop calculator: button decoding, the
//! integer "programmer" engine with base conversion and bit operations, the
//! bounded history of results, and the expression compiler of the
//! scientific mode.

pub mod text;
pub mod programmer;
pub mod history;
pub mod calculator;
pub mod lexer;
pub mod parser;
pub mod financial;
