//! Computes the total byte size of a set of filesystem paths, where a path
//! may be a literal file or directory or a glob pattern.
//!
//! The core of the library is the glob-to-traversal compiler
//! ([`glob::compile`]): it splits a pattern string into a literal walk root,
//! a matcher pattern and a depth bound.  Traversal itself works over
//! [`walk::FsTree`], a snapshot of a filesystem subtree handed in by the
//! caller, so that the walk, the match gate and the aggregation are ordinary
//! verified functions from values to values.  Matching is delegated to the
//! `globset` crate behind a small trusted layer ([`matcher`]).

pub mod agg;
pub mod bytes;
pub mod cmd;
pub mod glob;
pub mod job;
pub mod matcher;
pub mod walk;
