//! Tokenizer and structural pattern matcher for a small C-like language.
//!
//! Raw source bytes are classified into a stream of categorized tokens
//! (`classify`), and fixed structural shapes are matched against that stream
//! with a small pattern language whose wildcards respect nested bracket
//! depth (`matcher`).  The `scanner` drives the matcher across a whole
//! token stream to report every occurrence of a function-like shape.

pub mod classify;
pub mod matcher;
pub mod pattern;
pub mod scanner;
pub mod token;
