//! A verified parser for `.netrc`-style credential files.
//!
//! The format is a whitespace-delimited, line-oriented list of
//! `machine`/`login`/`password`/`account`/`port` entries, an optional
//! `default` entry, and named multi-line `macdef` macro blocks.
//! Parsing is specified by a mathematical reference parser
//! ([`netrc::spec_parse`]) and the executable parser is proved to return
//! exactly its result.

pub mod error;
pub mod laws;
pub mod lexer;
pub mod netrc;
pub mod port;
pub mod text;
pub mod tokens;
