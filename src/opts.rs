use vstd::prelude::*;

use crate::filter::{
    difference, difference_set, first_occurrences, intersection, intersection_set,
    second_occurrences, unique,
};
use crate::lines::{lines_of, rendered, views};

verus! {

/// What one invocation asks for.
pub struct Opts {
    /// The base set's file; standard input when absent.
    pub path: Option<String>,
    /// Take only repeated lines (unique mode only).
    pub reverse: bool,
    /// The set operation; unique mode when absent.
    pub command: Option<Command>,
}

/// A set operation against a comparison file.
pub enum Command {
    /// Set difference.
    Diff(Diff),
    /// Set intersection.
    Intersect(Intersect),
}

/// The comparison file of a difference.
pub struct Diff {
    pub path: String,
}

/// The comparison file of an intersection.
pub struct Intersect {
    pub path: String,
}

/// `out` is the text of the lines of `ls`, which are distinct and make up `s`.
pub open spec fn renders_set(out: Seq<char>, s: Set<Seq<char>>) -> bool {
    exists|ls: Seq<Seq<char>>| ls.no_duplicates() && ls.to_set() == s && out == rendered(ls)
}

/// The comparison file that `opts` names, if its command has one.
pub fn comparison_path(opts: &Opts) -> (r: Option<String>)
    ensures
        opts.command matches Some(Command::Diff(d)) ==> r == Some(d.path),
        opts.command matches Some(Command::Intersect(i)) ==> r == Some(i.path),
        opts.command is None ==> r is None,
{
    match &opts.command {
        Some(Command::Diff(Diff { path })) => Some(path.clone()),
        Some(Command::Intersect(Intersect { path })) => Some(path.clone()),
        None => None,
    }
}

/// The output text of one invocation, given the base text and, for a command
/// that names a comparison file, that file's text (`compare` is not read in
/// unique mode).
pub fn run(opts: &Opts, text: &str, compare: &str) -> (r: String)
    ensures
        opts.command is None && !opts.reverse ==> r@ == rendered(
            first_occurrences(lines_of(text@)),
        ),
        opts.command is None && opts.reverse ==> r@ == rendered(
            second_occurrences(lines_of(text@)),
        ),
        opts.command matches Some(Command::Diff(_)) ==> renders_set(
            r@,
            difference_set(text@, compare@),
        ),
        opts.command matches Some(Command::Intersect(_)) ==> renders_set(
            r@,
            intersection_set(text@, compare@),
        ),
{
    match &opts.command {
        Some(Command::Diff(_)) => {
            let values = difference(text, compare);
            let r = crate::lines::format(&values);
            proof {
                assert(renders_set(r@, difference_set(text@, compare@))) by {
                    assert(views(values@).no_duplicates());
                }
            }
            r
        },
        Some(Command::Intersect(_)) => {
            let values = intersection(text, compare);
            let r = crate::lines::format(&values);
            proof {
                assert(renders_set(r@, intersection_set(text@, compare@))) by {
                    assert(views(values@).no_duplicates());
                }
            }
            r
        },
        None => crate::lines::format(&unique(text, opts.reverse)),
    }
}

} // verus!
