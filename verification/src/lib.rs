//! A small file-finder library: alias resolution for well-known directories,
//! depth-bounded evaluation of directory entries, approximate (subsequence)
//! name matching, case-insensitive extension filtering, and report formatting.

pub mod aliases;
pub mod config;
pub mod ext_filter;
pub mod fuzzy;
pub mod report;
pub mod search;
pub mod text;
