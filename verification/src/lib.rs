//! The core of a code review agent.
//!
//! A review takes a change (a pull request, a diff, files), decides what of it
//! fits the token budget, builds the prompts, and makes findings, statistics and
//! comments of the answers. All of that is decided here, over plain values; what
//! talks to the network, to the file system and to other programs is built
//! around this library.

pub mod ai;
pub mod budget;
pub mod config;
pub mod diff;
pub mod diff_parser;
pub mod engine;
pub mod error;
pub mod git;
pub mod github;
pub mod glob;
pub mod json;
pub mod language;
pub mod letters;
pub mod mcp;
pub mod numeral;
pub mod paths;
pub mod report;
pub mod retry;
pub mod review;
pub mod sarif;
pub mod sensitive;
pub mod services;
pub mod session;
pub mod text;
pub mod tokens;
pub mod tools;
pub mod utf8;
pub mod web;

pub use config::Settings;
pub use sensitive::Sensitive;
