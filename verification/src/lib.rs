//! Turns the entries of a package/file index into SQL dump rows and
//! statements, and shapes the answers of a regex search over the index.

pub mod dedup;
pub mod entry;
pub mod fulltext;
pub mod mode;
pub mod normalized;
pub mod pattern;
pub mod pkgconfig;
pub mod query;
pub mod sql;
pub mod text;
