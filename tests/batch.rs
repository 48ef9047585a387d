use epok::Batch;

fn run(input: Vec<&str>, arg_max: usize, sep: &str) -> Vec<String> {
    let items: Vec<String> = input.into_iter().map(|s| s.to_string()).collect();
    let mut batch = Batch::new(items, arg_max, sep);
    let mut out = Vec::new();
    while let Some(b) = batch.next() {
        out.push(b);
    }
    out
}

#[test]
fn test_default() {
    let batch = Batch::new(vec!["a".to_string()], 8000, ";");
    assert!(batch.arg_max() > 0);
}

#[test]
fn trival() {
    assert_eq!(run(Vec::new(), 1000, ";"), Vec::<String>::new());
}

#[test]
fn min_batch() {
    assert_eq!(run(vec!["foo", "bar"], 1000, ";"), vec!["foo;bar"]);
}

#[test]
fn everything_over() {
    assert_eq!(run(vec!["foobar", "barbar"], 2, ";"), vec!["foobar", "barbar"]);
}

#[test]
fn max_arg_arg0() {
    assert_eq!(run(vec!["foobar", "barbar"], 6, ";"), vec!["foobar", "barbar"]);
}

#[test]
fn max_arg_arg1() {
    assert_eq!(run(vec!["foobar", "barbar"], 7, ";"), vec!["foobar", "barbar"]);
}

#[test]
fn batch0() {
    assert_eq!(run(vec!["foo", "bar"], 7, ";"), vec!["foo;bar"]);
}

#[test]
fn batch1() {
    assert_eq!(run(vec!["foo", "bar", "baz"], 7, ";"), vec!["foo;bar", "baz"]);
}

#[test]
fn batch2() {
    assert_eq!(
        run(vec!["foo", "bar", "baz", "frobnicate"], 7, ";"),
        vec!["foo;bar", "baz", "frobnicate"]
    );
}

#[test]
fn small_batch0() {
    assert_eq!(
        run(vec!["a", "b", "c", "d", "e", "f", "g", "h", "i"], 3, ";"),
        vec!["a;b", "c;d", "e;f", "g;h", "i"]
    );
}

#[test]
fn concat_invariant_on_samples() {
    let cases: Vec<(Vec<&str>, usize, &str)> = vec![
        (vec!["x"], 2, "; "),
        (vec!["abc", ""], 3, ";"),
        (vec!["", "", ""], 2, "--"),
        (vec!["sudo a", "sudo bb", "sudo ccc", "sudo dddd"], 16, "; "),
        (vec!["héllo", "wörld", "ok"], 8, "|"),
    ];
    for (input, arg_max, sep) in cases {
        let expected = input.join(sep);
        assert_eq!(run(input, arg_max, sep).join(sep), expected);
    }
}

#[test]
fn oversized_command_stands_alone() {
    assert_eq!(run(vec!["a", "bbbbbbbbbb", "c"], 5, ";"), vec!["a", "bbbbbbbbbb", "c"]);
}

#[test]
fn batch_bound_counts_bytes() {
    // "é" is two bytes: 2 + 2 reaches the bound of 4
    assert_eq!(run(vec!["é", "é"], 4, ";"), vec!["é", "é"]);
    assert_eq!(run(vec!["é", "é"], 5, ";"), vec!["é;é"]);
}
