//! A synthetic, read-only filesystem whose contents are computed on demand
//! by a user-supplied transform routine.
//!
//! The crate is organised around three pieces:
//! - [`paths`]: byte-string paths, their components, and joining.
//! - [`output`]: the virtual tree of one generation, built from the flat
//!   sequence of entries that the transform declared.
//! - [`transformfs`]: the session that owns the current tree generation
//!   and answers filesystem requests against it, rebuilding the tree
//!   wholesale when the configured refresh interval has elapsed.

pub mod output;
pub mod paths;
pub mod transformfs;
