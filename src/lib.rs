//! Keeps a line-tagged dictionary file in sync with a tree of small text
//! objects: a scanner for the file's lines, splitters that group records
//! into content objects, a path sharder, and the diff and staging rules
//! that reconcile those objects with the version-control index.

pub mod text;
pub mod scanner;
pub mod issue;
pub mod shard;
pub mod groups;
pub mod config;
pub mod clob;
pub mod split;
pub mod record_splitter;
pub mod id_splitter;
pub mod diff;
pub mod laws;
pub mod workdir;
pub mod staging;
pub mod stage;
pub mod status;
pub mod reset;
pub mod util;
pub mod reconstruct;
pub mod command;
pub mod paths;
