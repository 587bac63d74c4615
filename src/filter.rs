use vstd::prelude::*;

use crate::line_set::{line_set_contents, LineSet};
use crate::lines::{lines_of, split_lines, views};

verus! {

/// How many times `x` occurs in `s`.
pub open spec fn occurrences(s: Seq<Seq<char>>, x: Seq<char>) -> nat
    decreases s.len(),
{
    if s.len() == 0 {
        0
    } else {
        occurrences(s.drop_last(), x) + if s.last() == x {
            1nat
        } else {
            0nat
        }
    }
}

/// Each line of `s` at its first occurrence, in the order of `s`.
pub open spec fn first_occurrences(s: Seq<Seq<char>>) -> Seq<Seq<char>>
    decreases s.len(),
{
    if s.len() == 0 {
        seq![]
    } else if s.drop_last().contains(s.last()) {
        first_occurrences(s.drop_last())
    } else {
        first_occurrences(s.drop_last()).push(s.last())
    }
}

/// Each line of `s` at its second occurrence, in the order of `s`.
pub open spec fn second_occurrences(s: Seq<Seq<char>>) -> Seq<Seq<char>>
    decreases s.len(),
{
    if s.len() == 0 {
        seq![]
    } else if occurrences(s.drop_last(), s.last()) == 1 {
        second_occurrences(s.drop_last()).push(s.last())
    } else {
        second_occurrences(s.drop_last())
    }
}

/// The distinct lines of `a` that `b` lacks.
pub open spec fn difference_set(a: Seq<char>, b: Seq<char>) -> Set<Seq<char>> {
    lines_of(a).to_set().difference(lines_of(b).to_set())
}

/// The distinct lines of `a` that `b` holds too.
pub open spec fn intersection_set(a: Seq<char>, b: Seq<char>) -> Set<Seq<char>> {
    lines_of(a).to_set().intersect(lines_of(b).to_set())
}

/// A line occurs in `s` exactly when it occurs at least once.
pub proof fn lemma_occurrences_contains(s: Seq<Seq<char>>, x: Seq<char>)
    ensures
        occurrences(s, x) > 0 <==> s.contains(x),
    decreases s.len(),
{
    if s.len() > 0 {
        lemma_occurrences_contains(s.drop_last(), x);
        if s.drop_last().contains(x) {
            let k = choose|k: int| 0 <= k < s.drop_last().len() && s.drop_last()[k] == x;
            assert(s[k] == x);
        }
        if s.contains(x) && s.last() != x {
            let k = choose|k: int| 0 <= k < s.len() && s[k] == x;
            assert(s.drop_last()[k] == x);
        }
    }
}

proof fn lemma_take_push(v: Seq<String>, i: int)
    requires
        0 <= i < v.len(),
    ensures
        views(v.take(i + 1)).drop_last() == views(v.take(i)),
        views(v.take(i + 1)).last() == v[i]@,
        views(v.take(i + 1)).len() == i + 1,
{
    assert(views(v.take(i + 1)).drop_last() =~= views(v.take(i)));
}

/// Each line at its first occurrence, in input order.
pub fn first_seen(lines: &Vec<String>) -> (r: Vec<String>)
    ensures
        views(r@) == first_occurrences(views(lines@)),
{
    let mut seen = LineSet::new();
    let mut out: Vec<String> = Vec::new();
    let mut i: usize = 0;
    while i < lines.len()
        invariant
            i <= lines@.len(),
            line_set_contents(seen) == views(lines@.take(i as int)).to_set(),
            views(out@) == first_occurrences(views(lines@.take(i as int))),
        decreases lines@.len() - i,
    {
        let value = &lines[i];
        proof {
            lemma_take_push(lines@, i as int);
        }
        if seen.insert(value.clone()) {
            out.push(value.clone());
            assert(views(out@) =~= first_occurrences(views(lines@.take(i + 1))));
        }
        proof {
            Seq::lemma_to_set_insert_commutes(views(lines@.take(i as int)), lines@[i as int]@);
            assert(views(lines@.take(i + 1)) =~= views(lines@.take(i as int)) + seq![lines@[i as int]@]);
        }
        i = i + 1;
    }
    assert(lines@.take(i as int) == lines@);
    out
}

/// Each repeated line once, at its second occurrence, in input order.
pub fn seen_twice(lines: &Vec<String>) -> (r: Vec<String>)
    ensures
        views(r@) == second_occurrences(views(lines@)),
{
    let mut once = LineSet::new();
    let mut twice = LineSet::new();
    let mut out: Vec<String> = Vec::new();
    let mut i: usize = 0;
    while i < lines.len()
        invariant
            i <= lines@.len(),
            line_set_contents(once) == views(lines@.take(i as int)).to_set(),
            forall|x: Seq<char>|
                line_set_contents(twice).contains(x) <==> occurrences(
                    views(lines@.take(i as int)),
                    x,
                ) >= 2,
            views(out@) == second_occurrences(views(lines@.take(i as int))),
        decreases lines@.len() - i,
    {
        let value = &lines[i];
        let ghost pre = views(lines@.take(i as int));
        let ghost cur = views(lines@.take(i + 1));
        proof {
            lemma_take_push(lines@, i as int);
            lemma_occurrences_contains(pre, value@);
        }
        if !once.insert(value.clone()) && twice.insert(value.clone()) {
            out.push(value.clone());
            assert(views(out@) =~= second_occurrences(cur));
        }
        proof {
            Seq::lemma_to_set_insert_commutes(pre, value@);
            assert(cur =~= pre + seq![value@]);
        }
        i = i + 1;
    }
    assert(lines@.take(i as int) == lines@);
    out
}

/// Unique mode: the lines of `text` at their first occurrence or, with
/// `reverse`, each repeated line once at its second occurrence.
pub fn unique(text: &str, reverse: bool) -> (r: Vec<String>)
    ensures
        !reverse ==> views(r@) == first_occurrences(lines_of(text@)),
        reverse ==> views(r@) == second_occurrences(lines_of(text@)),
{
    let lines = split_lines(text);
    if reverse {
        seen_twice(&lines)
    } else {
        first_seen(&lines)
    }
}

/// Difference mode: each distinct line of `text` that `compare` lacks, once,
/// in the order of the hash set.
pub fn difference(text: &str, compare: &str) -> (r: Vec<String>)
    ensures
        views(r@).no_duplicates(),
        views(r@).to_set() == difference_set(text@, compare@),
{
    let a = LineSet::from_lines(&split_lines(text));
    let b = LineSet::from_lines(&split_lines(compare));
    a.difference(&b)
}

/// Intersection mode: each distinct line of `text` that `compare` holds too,
/// once, in the order of the hash set.
pub fn intersection(text: &str, compare: &str) -> (r: Vec<String>)
    ensures
        views(r@).no_duplicates(),
        views(r@).to_set() == intersection_set(text@, compare@),
{
    let a = LineSet::from_lines(&split_lines(text));
    let b = LineSet::from_lines(&split_lines(compare));
    a.intersection(&b)
}

} // verus!
