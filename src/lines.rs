use vstd::prelude::*;
use vstd::string::StringExecFns;

verus! {

/// Index of the first `'\n'` in `s`, or `s.len()` when there is none.
pub open spec fn line_end(s: Seq<char>) -> int
    decreases s.len(),
{
    if s.len() == 0 || s[0] == '\n' {
        0
    } else {
        1 + line_end(s.drop_first())
    }
}

/// `l` without one trailing carriage return, if it has one.
pub open spec fn strip_cr(l: Seq<char>) -> Seq<char> {
    if l.len() > 0 && l.last() == '\r' {
        l.drop_last()
    } else {
        l
    }
}

/// The lines of a text: pieces separated by `'\n'` (a `"\r\n"` ending counts
/// as one terminator), terminators excluded, and no empty piece after a final
/// terminator. A last line without `'\n'` keeps any `'\r'` it ends with.
pub open spec fn lines_of(s: Seq<char>) -> Seq<Seq<char>>
    decreases s.len(),
{
    if s.len() == 0 {
        seq![]
    } else {
        let e = line_end(s);
        if 0 <= e < s.len() {
            seq![strip_cr(s.take(e))] + lines_of(s.skip(e + 1))
        } else {
            seq![s]
        }
    }
}

/// The views of a sequence of strings.
pub open spec fn views(v: Seq<String>) -> Seq<Seq<char>> {
    v.map_values(|x: String| x@)
}

/// Relies on `str::lines`: lines are split at `"\n"` or `"\r\n"`, the
/// terminators are not part of the lines, and a final terminator is optional.
#[verifier::external_body]
pub(crate) fn split_lines(text: &str) -> (r: Vec<String>)
    ensures
        views(r@) == lines_of(text@),
{
    text.lines().map(|l| l.to_string()).collect()
}

/// The text that holds each line of `ls` followed by `'\n'`.
pub open spec fn rendered(ls: Seq<Seq<char>>) -> Seq<char>
    decreases ls.len(),
{
    if ls.len() == 0 {
        seq![]
    } else {
        rendered(ls.drop_last()) + ls.last() + seq!['\n']
    }
}

/// Writes each value on a line of its own.
pub fn format(values: &Vec<String>) -> (r: String)
    ensures
        r@ == rendered(views(values@)),
{
    let mut out = String::new();
    let mut i: usize = 0;
    while i < values.len()
        invariant
            i <= values@.len(),
            out@ == rendered(views(values@.take(i as int))),
        decreases values@.len() - i,
    {
        out.append(values[i].as_str());
        out.append("\n");
        proof {
            reveal_strlit("\n");
            assert(views(values@.take(i + 1)).drop_last() =~= views(values@.take(i as int)));
        }
        i = i + 1;
    }
    assert(values@.take(i as int) == values@);
    out
}

} // verus!
