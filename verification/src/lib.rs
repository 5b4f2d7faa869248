//! A declarative path router.
//!
//! Route patterns such as `/user/:id/posts/*rest` are compiled into a table,
//! and a path is resolved to the first declared route whose pattern accepts
//! it, together with the values that the pattern's named segments capture.
//!
//! - [`text`] cuts paths into segments at every `/`. One leading and one
//!   trailing `/` make no segment, so `/a/b`, `/a/b/` and `a/b` are the same
//!   path.
//! - [`pattern`] compiles pattern text. A segment that starts with `:` is
//!   dynamic, one that starts with `*` is a wildcard and must come last, and
//!   any other is literal. Names are non-empty and bound once per pattern.
//! - [`matcher`] matches one pattern against one path. A literal segment
//!   takes the equal path segment, a dynamic segment takes one non-empty path
//!   segment, and a wildcard takes all that are left, none included.
//! - [`table`] holds the routes in declaration order; the first declared
//!   pattern that accepts a path wins.
//! - [`laws`] states what holds of all patterns, paths and tables.
//!
//! The functions are verified against their contracts, which speak of paths
//! as sequences of characters. What `String::push` of the standard library
//! does is taken on trust.

pub mod laws;
pub mod matcher;
pub mod params;
pub mod pattern;
pub mod table;
pub mod text;

pub use crate::matcher::match_pattern;
pub use crate::params::{Param, ParamMap};
pub use crate::pattern::{Pattern, PatternError, Segment};
pub use crate::table::{build_router, recognize_with_router, BuildError, MissingFallback, RouteTable};
