//! Evaluation core of an interactive structured-data shell.
//!
//! The crate provides the scope and symbol-table engine that resolves
//! commands, variables and environment bindings through nested lexical
//! scopes (with shadowing, hiding and module imports), the `PipelineData`
//! streaming envelope that moves structured values between pipeline
//! stages under cooperative cancellation, the cell-path addressing used
//! to read and mutate nested values, and the span-anchored diagnostics
//! every failure is reported through.

pub mod ansi_strip;
pub mod cell_path;
pub mod from_ini;
pub mod from_toml;
pub mod from_url;
pub mod hash_md5;
pub mod drop_column;
pub mod edit;
pub mod error;
pub mod import_pattern;
pub mod keep_until;
pub mod keybindings;
pub mod operate;
pub mod parse_cmd;
pub mod pipeline;
pub mod range_cmd;
pub mod scope;
pub mod snake_case;
pub mod str_collect;
pub mod url_host;
pub mod url_query;
pub mod variance;
pub mod span;
pub mod substring;
pub mod text;
pub mod value;

pub use span::Span;
