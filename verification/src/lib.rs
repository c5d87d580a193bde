//! Line-oriented text search: split a text into lines and keep, in order, the
//! lines that contain a query, either verbatim or ignoring letter case.
//!
//! - `config`: the parameters of a run, made from the command line and the
//!   environment.
//! - `runner`: one run over the contents of a file.
//! - `matcher`: the two searches, and what holds of them.
//! - `lines`, `substring`: lines of a text, and containment of one text in
//!   another.
//! - `casefold`: what is taken for granted of lowercasing.
//! - `encoding`, `sequences`: facts about UTF-8 and about filtered sequences.
//! - `failure`: diagnostics and exit codes.

pub mod casefold;
pub mod config;
pub mod encoding;
pub mod failure;
pub mod lines;
pub mod matcher;
pub mod runner;
pub mod sequences;
pub mod substring;

pub use config::{Config, Parameters};
pub use failure::{exit_code, Failure};
pub use lines::lines;
pub use matcher::{search, search_case_insensitive};
pub use runner::run;
pub use substring::contains;
