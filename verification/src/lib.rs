//! Cargo metadata from a lock file and the manifests it names.

pub mod assignment;
pub mod choice;
pub mod dependency;
pub mod error;
pub mod features;
pub mod git_source;
pub mod json;
pub mod laws;
pub mod lock;
pub mod manifest;
pub mod metadata;
pub mod node;
pub mod origin;
pub mod package;
pub mod search;
pub mod seqs;
pub mod text;
pub mod toml_value;
pub mod versions;
pub mod workspace;
