use vstd::prelude::*;

use crate::lines::views;

verus! {

/// A set of lines held in a `hashbrown::HashSet<String>`.
#[verifier::external_body]
pub(crate) struct LineSet {
    set: hashbrown::HashSet<String>,
}

/// The lines that a `LineSet` holds.
pub uninterp spec fn line_set_contents(s: LineSet) -> Set<Seq<char>>;

impl View for LineSet {
    type V = Set<Seq<char>>;

    open spec fn view(&self) -> Set<Seq<char>> {
        line_set_contents(*self)
    }
}

impl LineSet {
    /// Relies on `hashbrown::HashSet::new`: the new set is empty.
    #[verifier::external_body]
    pub(crate) fn new() -> (r: LineSet)
        ensures
            line_set_contents(r) == Set::<Seq<char>>::empty(),
    {
        LineSet { set: hashbrown::HashSet::new() }
    }

    /// Relies on `hashbrown::HashSet::insert`: the line is added, and `true`
    /// comes back exactly when it was not yet present.
    #[verifier::external_body]
    pub(crate) fn insert(&mut self, line: String) -> (r: bool)
        ensures
            r == !line_set_contents(*old(self)).contains(line@),
            line_set_contents(*final(self)) == line_set_contents(*old(self)).insert(line@),
    {
        self.set.insert(line)
    }

    /// Relies on `hashbrown::HashSet::difference`: it visits each line of
    /// `self` that `other` lacks once, in an order that the hasher decides.
    #[verifier::external_body]
    pub(crate) fn difference(&self, other: &LineSet) -> (r: Vec<String>)
        ensures
            views(r@).no_duplicates(),
            views(r@).to_set() == line_set_contents(*self).difference(line_set_contents(*other)),
    {
        self.set.difference(&other.set).cloned().collect()
    }

    /// Relies on `hashbrown::HashSet::intersection`: it visits each line that
    /// both sets hold once, in an order that the hasher decides.
    #[verifier::external_body]
    pub(crate) fn intersection(&self, other: &LineSet) -> (r: Vec<String>)
        ensures
            views(r@).no_duplicates(),
            views(r@).to_set() == line_set_contents(*self).intersect(line_set_contents(*other)),
    {
        self.set.intersection(&other.set).cloned().collect()
    }

    /// The set of the given lines.
    pub(crate) fn from_lines(lines: &Vec<String>) -> (r: LineSet)
        ensures
            r@ == views(lines@).to_set(),
    {
        let mut r = LineSet::new();
        let mut i: usize = 0;
        while i < lines.len()
            invariant
                i <= lines@.len(),
                r@ == views(lines@.take(i as int)).to_set(),
            decreases lines@.len() - i,
        {
            let line = lines[i].clone();
            r.insert(line);
            proof {
                assert(lines@.take(i + 1) == lines@.take(i as int).push(lines@[i as int]));
                assert(views(lines@.take(i + 1)) =~= views(lines@.take(i as int)) + seq![lines@[i as int]@]);
                Seq::lemma_to_set_insert_commutes(views(lines@.take(i as int)), lines@[i as int]@);
            }
            i = i + 1;
        }
        assert(lines@.take(i as int) == lines@);
        r
    }
}

} // verus!
