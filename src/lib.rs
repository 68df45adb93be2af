//! Extraction of per-file change records from a multi-commit patch stream.
pub mod text;
pub mod classify;
pub mod group;
pub mod changeset;
pub mod filter;
pub mod diffs;
pub mod commits;
pub mod pipeline;
pub mod record;
pub mod opt;
