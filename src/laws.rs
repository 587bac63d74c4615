use vstd::prelude::*;

use crate::lines::{line_end, lines_of, rendered, strip_cr};
use crate::filter::{
    difference_set, first_occurrences, intersection_set, lemma_occurrences_contains, occurrences,
    second_occurrences,
};

verus! {

/// Position of the first occurrence of `x` in `s`, or -1 when there is none.
pub open spec fn first_index(s: Seq<Seq<char>>, x: Seq<char>) -> int
    decreases s.len(),
{
    if s.len() == 0 {
        -1
    } else if s.drop_last().contains(x) {
        first_index(s.drop_last(), x)
    } else if s.last() == x {
        s.len() - 1
    } else {
        -1
    }
}

proof fn lemma_first_index_bounds(s: Seq<Seq<char>>, x: Seq<char>)
    requires
        s.contains(x),
    ensures
        0 <= first_index(s, x) < s.len(),
        s[first_index(s, x)] == x,
    decreases s.len(),
{
    if s.drop_last().contains(x) {
        lemma_first_index_bounds(s.drop_last(), x);
    } else if s.last() != x {
        let k = choose|k: int| 0 <= k < s.len() && s[k] == x;
        assert(s.drop_last()[k] == x);
    }
}

/// Unique mode emits no line twice, and emits exactly the lines of its input.
pub proof fn lemma_first_occurrences_distinct(s: Seq<Seq<char>>)
    ensures
        first_occurrences(s).no_duplicates(),
        forall|x: Seq<char>| first_occurrences(s).contains(x) <==> s.contains(x),
    decreases s.len(),
{
    if s.len() > 0 {
        let pre = s.drop_last();
        lemma_first_occurrences_distinct(pre);
        assert forall|x: Seq<char>| s.contains(x) <==> pre.contains(x) || x == s.last() by {
            if s.contains(x) && x != s.last() {
                let k = choose|k: int| 0 <= k < s.len() && s[k] == x;
                assert(pre[k] == x);
            }
            if pre.contains(x) {
                let k = choose|k: int| 0 <= k < pre.len() && pre[k] == x;
                assert(s[k] == x);
            }
            if x == s.last() {
                assert(s[s.len() - 1] == x);
            }
        }
        if !pre.contains(s.last()) {
            let p = first_occurrences(pre);
            assert forall|x: Seq<char>| p.push(s.last()).contains(x) <==> p.contains(x) || x == s.last() by {
                if p.push(s.last()).contains(x) && x != s.last() {
                    let k = choose|k: int| 0 <= k < p.len() + 1 && p.push(s.last())[k] == x;
                    assert(p[k] == x);
                }
                if p.contains(x) {
                    let k = choose|k: int| 0 <= k < p.len() && p[k] == x;
                    assert(p.push(s.last())[k] == x);
                }
                if x == s.last() {
                    assert(p.push(s.last())[p.len() as int] == x);
                }
            }
        }
    }
}

/// Unique mode emits lines in the order of their first occurrence in the input.
pub proof fn lemma_first_occurrences_order(s: Seq<Seq<char>>, i: int, j: int)
    requires
        0 <= i < j < first_occurrences(s).len(),
    ensures
        first_index(s, first_occurrences(s)[i]) < first_index(s, first_occurrences(s)[j]),
    decreases s.len(),
{
    let pre = s.drop_last();
    let p = first_occurrences(pre);
    lemma_first_occurrences_distinct(pre);
    assert(p.contains(p[i]));
    lemma_first_index_bounds(pre, p[i]);
    if j < p.len() {
        lemma_first_occurrences_order(pre, i, j);
        assert(p.contains(p[j]));
    }
}

/// Reverse mode emits each line whose multiplicity in the input is at least
/// two, and only those, each exactly once.
pub proof fn lemma_second_occurrences_repeated(s: Seq<Seq<char>>)
    ensures
        second_occurrences(s).no_duplicates(),
        forall|x: Seq<char>| second_occurrences(s).contains(x) <==> occurrences(s, x) >= 2,
    decreases s.len(),
{
    if s.len() > 0 {
        let pre = s.drop_last();
        let p = second_occurrences(pre);
        let l = s.last();
        lemma_second_occurrences_repeated(pre);
        assert forall|x: Seq<char>|
            occurrences(s, x) == occurrences(pre, x) + if l == x {
                1nat
            } else {
                0nat
            } by {}
        if occurrences(pre, l) == 1 {
            assert(!p.contains(l));
            let q = p.push(l);
            assert forall|x: Seq<char>| q.contains(x) <==> p.contains(x) || x == l by {
                if q.contains(x) && x != l {
                    let k = choose|k: int| 0 <= k < q.len() && q[k] == x;
                    assert(p[k] == x);
                }
                if p.contains(x) {
                    let k = choose|k: int| 0 <= k < p.len() && p[k] == x;
                    assert(q[k] == x);
                }
                if x == l {
                    assert(q[p.len() as int] == x);
                }
            }
            assert forall|i: int, j: int| 0 <= i < q.len() && 0 <= j < q.len() && i != j implies q[i]
                != q[j] by {
                if i < p.len() && j < p.len() {
                    assert(q[i] == p[i] && q[j] == p[j]);
                } else if i < p.len() {
                    assert(p.contains(q[i]));
                } else {
                    assert(p.contains(q[j]));
                }
            }
        }
    }
}

proof fn lemma_distinct_fixed_point(s: Seq<Seq<char>>)
    requires
        s.no_duplicates(),
    ensures
        first_occurrences(s) == s,
    decreases s.len(),
{
    if s.len() > 0 {
        let pre = s.drop_last();
        lemma_distinct_fixed_point(pre);
        if pre.contains(s.last()) {
            let k = choose|k: int| 0 <= k < pre.len() && pre[k] == s.last();
            assert(s[k] == s[s.len() - 1]);
        }
        assert(pre.push(s.last()) =~= s);
    }
}

/// Unique mode on its own output gives that output again.
pub proof fn lemma_first_occurrences_idempotent(s: Seq<Seq<char>>)
    ensures
        first_occurrences(first_occurrences(s)) == first_occurrences(s),
{
    lemma_first_occurrences_distinct(s);
    lemma_distinct_fixed_point(first_occurrences(s));
}

/// No line is both in the difference and in the intersection of the same
/// two texts.
pub proof fn lemma_difference_intersection_disjoint(a: Seq<char>, b: Seq<char>)
    ensures
        difference_set(a, b).intersect(intersection_set(a, b)) == Set::<Seq<char>>::empty(),
{
    assert(difference_set(a, b).intersect(intersection_set(a, b)) =~= Set::<Seq<char>>::empty());
}

proof fn lemma_line_end_bounds(s: Seq<char>)
    ensures
        0 <= line_end(s) <= s.len(),
        forall|k: int| 0 <= k < line_end(s) ==> s[k] != '\n',
        line_end(s) < s.len() ==> s[line_end(s)] == '\n',
    decreases s.len(),
{
    if s.len() > 0 && s[0] != '\n' {
        lemma_line_end_bounds(s.drop_first());
        assert forall|k: int| 0 <= k < line_end(s) implies s[k] != '\n' by {
            if k > 0 {
                assert(s[k] == s.drop_first()[k - 1]);
            }
        }
    }
}

proof fn lemma_line_end_of_line(x: Seq<char>, r: Seq<char>)
    requires
        !x.contains('\n'),
    ensures
        line_end(x + seq!['\n'] + r) == x.len(),
    decreases x.len(),
{
    let s = x + seq!['\n'] + r;
    if x.len() > 0 {
        assert(s[0] == x[0]);
        assert(!x.drop_first().contains('\n')) by {
            if x.drop_first().contains('\n') {
                let k = choose|k: int| 0 <= k < x.drop_first().len() && x.drop_first()[k] == '\n';
                assert(x[k + 1] == '\n');
            }
        }
        lemma_line_end_of_line(x.drop_first(), r);
        assert(s.drop_first() =~= x.drop_first() + seq!['\n'] + r);
    } else {
        assert(s[0] == '\n');
    }
}

/// No line of a text holds a `'\n'`.
proof fn lemma_lines_have_no_newline(s: Seq<char>)
    ensures
        forall|i: int| 0 <= i < lines_of(s).len() ==> !lines_of(s)[i].contains('\n'),
    decreases s.len(),
{
    if s.len() > 0 {
        let e = line_end(s);
        lemma_line_end_bounds(s);
        if e < s.len() {
            lemma_lines_have_no_newline(s.skip(e + 1));
            let first = strip_cr(s.take(e));
            assert(!first.contains('\n')) by {
                if first.contains('\n') {
                    let k = choose|k: int| 0 <= k < first.len() && first[k] == '\n';
                    assert(s[k] == '\n');
                }
            }
            assert forall|i: int| 0 <= i < lines_of(s).len() implies !lines_of(s)[i].contains('\n') by {
                if i > 0 {
                    assert(lines_of(s)[i] == lines_of(s.skip(e + 1))[i - 1]);
                }
            }
        } else {
            assert(!s.contains('\n')) by {
                if s.contains('\n') {
                    let k = choose|k: int| 0 <= k < s.len() && s[k] == '\n';
                    assert(s[k] != '\n');
                }
            }
        }
    }
}

proof fn lemma_rendered_front(ls: Seq<Seq<char>>)
    requires
        ls.len() > 0,
    ensures
        rendered(ls) == ls[0] + seq!['\n'] + rendered(ls.drop_first()),
    decreases ls.len(),
{
    if ls.len() == 1 {
        assert(rendered(ls.drop_first()) == Seq::<char>::empty());
        assert(rendered(ls.drop_last()) == Seq::<char>::empty());
        assert(rendered(ls) =~= ls[0] + seq!['\n'] + rendered(ls.drop_first()));
    } else {
        lemma_rendered_front(ls.drop_last());
        assert(ls.drop_first().drop_last() =~= ls.drop_last().drop_first());
        assert(rendered(ls) =~= ls[0] + seq!['\n'] + rendered(ls.drop_first()));
    }
}

/// Splitting the text of lines that hold no `'\n'` and do not end in `'\r'`
/// gives those lines back.
proof fn lemma_lines_of_rendered(ls: Seq<Seq<char>>)
    requires
        forall|i: int|
            0 <= i < ls.len() ==> !ls[i].contains('\n') && !(ls[i].len() > 0 && ls[i].last()
                == '\r'),
    ensures
        lines_of(rendered(ls)) == ls,
    decreases ls.len(),
{
    if ls.len() > 0 {
        let x = ls[0];
        let rest = rendered(ls.drop_first());
        let s = rendered(ls);
        lemma_rendered_front(ls);
        lemma_line_end_of_line(x, rest);
        lemma_lines_of_rendered(ls.drop_first());
        assert(s.take(x.len() as int) =~= x);
        assert(s.skip(x.len() as int + 1) =~= rest);
        assert(lines_of(s) =~= ls);
    } else {
        assert(rendered(ls) == Seq::<char>::empty());
    }
}

/// Unique mode on the text it printed prints that text again, for every input
/// whose lines do not end in `'\r'` (printing ends each line with `'\n'` alone,
/// so such a carriage return would count as part of a terminator the second
/// time).
pub proof fn lemma_unique_output_idempotent(t: Seq<char>)
    requires
        forall|i: int|
            0 <= i < lines_of(t).len() ==> !(lines_of(t)[i].len() > 0 && lines_of(t)[i].last()
                == '\r'),
    ensures
        rendered(first_occurrences(lines_of(rendered(first_occurrences(lines_of(t))))))
            == rendered(first_occurrences(lines_of(t))),
{
    let u = first_occurrences(lines_of(t));
    lemma_first_occurrences_distinct(lines_of(t));
    lemma_lines_have_no_newline(t);
    assert forall|i: int| 0 <= i < u.len() implies !u[i].contains('\n') && !(u[i].len() > 0
        && u[i].last() == '\r') by {
        assert(u.contains(u[i]));
        assert(lines_of(t).contains(u[i]));
        let k = choose|k: int| 0 <= k < lines_of(t).len() && lines_of(t)[k] == u[i];
    }
    lemma_lines_of_rendered(u);
    lemma_first_occurrences_idempotent(lines_of(t));
}

} // verus!
