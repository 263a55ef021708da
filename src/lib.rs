//! A small line-oriented text search library: configuration resolution and
//! the three matching strategies (literal, case-insensitive literal, regular
//! expression), with their contracts proved by Verus.

pub mod config;
pub mod pattern;
pub mod search;
pub mod text;

pub use config::{run, Config, ConfigError};
pub use search::{search, Matcher};
