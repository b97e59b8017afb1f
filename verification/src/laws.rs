//! What holds of the library's operations, said of what goes into them and what
//! comes out.

pub mod assignment;
pub mod choice;
pub mod dependency;
pub mod error;
pub mod features;
pub mod git_source;
pub mod json;
pub mod lock;
pub mod manifest;
pub mod metadata;
pub mod node;
pub mod origin;
pub mod package;
pub mod search;
pub mod seqs;
pub mod text;
pub mod toml_value;
pub mod versions;
pub mod workspace;
