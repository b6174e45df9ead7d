//! A parser, document model and renderer for changelogs written in the
//! "Keep a Changelog" Markdown dialect.

pub mod changelog;
pub mod changes;
pub mod chunks;
pub mod consts;
pub mod date;
pub mod error;
pub mod laws;
pub mod lines;
pub mod link;
pub mod marks;
pub mod merging;
pub mod parser;
pub mod pattern;
pub mod release;
pub mod round_trip;
pub mod remote;
pub mod sanity;
pub mod sorting;
pub mod text;
pub mod token;
pub mod utils;
pub mod version;
pub mod written;

pub use changelog::{ChangeLogParseOptions, Changelog, ChangelogBuilder};
pub use release::{Release, ReleaseBuilder};
