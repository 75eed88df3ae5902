//! Enumerates the files of a directory tree while honouring nested,
//! git-style ignore files: each directory's `.gitignore` applies to its own
//! subtree, and a nearer file's opinion overrides an ancestor's.

pub mod glob;
pub mod rules;
pub mod matcher;
pub mod scope;
pub mod walker;
pub mod laws;
