use set_filter::{
    comparison_path, difference, first_seen, intersection, run, seen_twice, unique, Command, Diff,
    Intersect, Opts,
};
use std::collections::BTreeSet;

fn strings(xs: &[&str]) -> Vec<String> {
    xs.iter().map(|x| x.to_string()).collect()
}

fn as_set(xs: &[String]) -> BTreeSet<String> {
    xs.iter().cloned().collect()
}

fn unique_opts(reverse: bool) -> Opts {
    Opts { path: None, reverse, command: None }
}

#[test]
fn unique_keeps_first_occurrences() {
    let opts = unique_opts(false);
    assert_eq!(run(&opts, "a\nb\na\nc\n", ""), "a\nb\nc\n");
}

#[test]
fn reverse_emits_repeated_line_once() {
    let opts = unique_opts(true);
    assert_eq!(run(&opts, "a\nb\na\nc\na\n", ""), "a\n");
}

#[test]
fn diff_keeps_lines_missing_from_comparison() {
    let opts = Opts {
        path: Some("base.txt".to_string()),
        reverse: false,
        command: Some(Command::Diff(Diff { path: "cmp.txt".to_string() })),
    };
    assert_eq!(run(&opts, "x\ny\nz\n", "y\nz\nw\n"), "x\n");
    assert_eq!(difference("x\ny\nz\n", "y\nz\nw\n"), strings(&["x"]));
}

#[test]
fn intersect_keeps_shared_lines() {
    let opts = Opts {
        path: None,
        reverse: false,
        command: Some(Command::Intersect(Intersect { path: "cmp.txt".to_string() })),
    };
    let out = run(&opts, "x\ny\nz\n", "y\nz\nw\n");
    let mut got: Vec<&str> = out.lines().collect();
    got.sort();
    assert_eq!(got, vec!["y", "z"]);
    assert_eq!(out.len(), 4);
    let r = intersection("x\ny\nz\n", "y\nz\nw\n");
    assert_eq!(r.len(), 2);
    assert_eq!(as_set(&r), as_set(&strings(&["y", "z"])));
}

#[test]
fn reverse_ignored_by_diff() {
    let opts = Opts {
        path: None,
        reverse: true,
        command: Some(Command::Diff(Diff { path: "cmp.txt".to_string() })),
    };
    assert_eq!(run(&opts, "x\nx\ny\n", "y\n"), "x\n");
}

#[test]
fn unique_output_has_no_duplicates_and_comes_from_input() {
    let input = "q\nr\nq\nq\ns\nr\n";
    let out = unique(input, false);
    assert_eq!(out, strings(&["q", "r", "s"]));
    assert_eq!(as_set(&out).len(), out.len());
    for l in &out {
        assert!(input.lines().any(|x| x == l));
    }
}

#[test]
fn unique_order_follows_first_occurrence() {
    assert_eq!(unique("c\nb\nc\na\nb\n", false), strings(&["c", "b", "a"]));
}

#[test]
fn reverse_order_follows_second_occurrence() {
    assert_eq!(unique("b\na\na\nb\nb\nc\n", true), strings(&["a", "b"]));
    assert_eq!(unique("a\nb\nc\n", true), Vec::<String>::new());
}

#[test]
fn diff_emits_repeated_line_once() {
    assert_eq!(difference("x\nx\nx\ny\n", "y\n"), strings(&["x"]));
    assert_eq!(difference("a\nb\n", "a\nb\n"), Vec::<String>::new());
    let r = difference("a\nb\nc\nb\n", "");
    assert_eq!(r.len(), 3);
    assert_eq!(as_set(&r), as_set(&strings(&["a", "b", "c"])));
}

#[test]
fn intersection_emits_repeated_line_once() {
    assert_eq!(intersection("k\nk\nm\n", "k\nk\n"), strings(&["k"]));
    assert_eq!(intersection("a\n", "b\n"), Vec::<String>::new());
    assert_eq!(intersection("", "b\n"), Vec::<String>::new());
}

#[test]
fn unique_is_idempotent_on_its_output() {
    let opts = unique_opts(false);
    let once = run(&opts, "p\nq\np\nr\nq\n", "");
    let twice = run(&opts, &once, "");
    assert_eq!(once, "p\nq\nr\n");
    assert_eq!(twice, once);
}

#[test]
fn difference_and_intersection_are_disjoint() {
    let a = "1\n2\n3\n4\n2\n";
    let b = "2\n4\n6\n";
    let d = as_set(&difference(a, b));
    let i = as_set(&intersection(a, b));
    assert!(d.is_disjoint(&i));
    assert_eq!(d, as_set(&strings(&["1", "3"])));
    assert_eq!(i, as_set(&strings(&["2", "4"])));
}

#[test]
fn empty_input_gives_empty_output() {
    assert_eq!(run(&unique_opts(false), "", ""), "");
    assert_eq!(run(&unique_opts(true), "", ""), "");
    assert_eq!(unique("", false), Vec::<String>::new());
}

#[test]
fn line_endings_are_split_like_text_lines() {
    assert_eq!(unique("a\r\nb\r\na\n", false), strings(&["a", "b"]));
    assert_eq!(unique("\n\n", false), strings(&[""]));
    assert_eq!(unique("x\ny", false), strings(&["x", "y"]));
    assert_eq!(unique("x\r", false), strings(&["x\r"]));
}

#[test]
fn lines_are_compared_exactly() {
    assert_eq!(unique("a\nA\n a\na \n", false), strings(&["a", "A", " a", "a "]));
}

#[test]
fn first_seen_on_lines() {
    let lines = strings(&["x", "y", "x", "z", "y"]);
    assert_eq!(first_seen(&lines), strings(&["x", "y", "z"]));
    assert_eq!(first_seen(&Vec::new()), Vec::<String>::new());
}

#[test]
fn seen_twice_on_lines() {
    let lines = strings(&["x", "y", "x", "x", "z", "y"]);
    assert_eq!(seen_twice(&lines), strings(&["x", "y"]));
}

#[test]
fn format_ends_each_value_with_newline() {
    assert_eq!(set_filter::lines::format(&strings(&["a", "", "b"])), "a\n\nb\n");
    assert_eq!(set_filter::lines::format(&Vec::new()), "");
}

#[test]
fn comparison_path_follows_command() {
    let diff = Opts {
        path: None,
        reverse: false,
        command: Some(Command::Diff(Diff { path: "d.txt".to_string() })),
    };
    let inter = Opts {
        path: None,
        reverse: false,
        command: Some(Command::Intersect(Intersect { path: "i.txt".to_string() })),
    };
    assert_eq!(comparison_path(&diff), Some("d.txt".to_string()));
    assert_eq!(comparison_path(&inter), Some("i.txt".to_string()));
    assert_eq!(comparison_path(&unique_opts(false)), None);
}
