//! Resolution of a dotfile deployment plan: a global package catalog and a
//! local selection are merged into one mapping from source file to target,
//! directory sources are expanded into per-file entries, and the directory
//! that holds the configuration is searched for among the ancestors of the
//! working directory.

pub mod config;
pub mod error;
pub mod expand;
pub mod layers;
pub mod listing;
pub mod locate;
pub mod merge;
pub mod merge_laws;
pub mod parse;
pub mod plan;
pub mod strmap;
pub mod table;
pub mod target;
pub mod text;
pub mod tilde;
