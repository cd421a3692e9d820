//! A bundler core for a Lua-like scripting language: it locates
//! `require(...)` dependency statements in source text (while respecting
//! comments and string literals), resolves the dependency tree rooted at an
//! entry file, and rewrites each statement in place with an inlined,
//! argument-forwarding closure wrapping the required module's text.
//!
//! The crate is organised leaf-first:
//! - [`comments`] removes line and block comments from a buffer;
//! - [`scan`] finds dependency statements in a comment-free buffer;
//! - [`resolve`] drives the scan over a whole file tree, one read at a time,
//!   leaving the reads themselves to the caller;
//! - [`subst`] rewrites the entry buffer with the inlined closures;
//! - [`chunks`] computes the bounded-size ranges a writer emits.
//!
//! All buffers are byte strings (`Vec<u8>` / `&[u8]`); the markers the
//! grammar recognises are ASCII, so the logic is untouched by whatever
//! encoding the rest of the file uses.

pub mod ascii;
pub mod chunks;
pub mod comments;
pub mod resolve;
pub mod scan;
pub mod subst;
