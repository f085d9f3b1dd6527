//! Path-segment templates.
//!
//! A template string such as `foo{bar}baz` holds literal text and named
//! placeholders.  Compiling it yields an immutable [`step::Step`] that can
//! test a concrete path segment and, on success, hand back the substrings
//! bound to each placeholder, in declaration order.

pub mod error;
pub mod ident;
pub mod laws;
pub mod matching;
pub mod parts;
pub mod scan;
pub mod step;
