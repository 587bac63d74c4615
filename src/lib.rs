//! Set operations over the lines of text sources: first occurrences,
//! repeated lines, difference and intersection.

pub mod filter;
pub mod laws;
mod line_set;
pub mod lines;
pub mod opts;

pub use crate::filter::{difference, first_seen, intersection, seen_twice, unique};
pub use crate::opts::{comparison_path, run, Command, Diff, Intersect, Opts};
