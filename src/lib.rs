//! Publishes a directory of build artifacts, such as generated documentation, into one
//! subtree per source branch of a deploy branch, from inside a CI job.
//!
//! `context` resolves what is being built and where to push; `publish` decides whether to
//! publish; `procedure` sequences the version-control steps; `text` holds the string work.

pub mod context;
pub mod procedure;
pub mod publish;
pub mod text;
