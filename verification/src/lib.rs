//! A recursive filesystem enumerator: walks a directory tree and emits one
//! record per regular file (path, modified time, size), with a bounded
//! recursion depth, a symlink policy, and literal directory-exclusion
//! patterns.
//!
//! The traversal itself is a verified step machine ([`walker`]): every
//! decision (depth bound, exclusion, symlink policy, classification) is made
//! here, while the caller performs the actual directory listings, stat calls
//! and writes, and feeds the results back as events.

pub mod args;
pub mod pattern;
pub mod record;
pub mod strutil;
pub mod walker;
