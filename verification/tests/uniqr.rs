use textutils::uniqr::{format_run, Uniq};

fn run(input: &[&str]) -> Vec<(usize, String)> {
    let mut u = Uniq::new();
    let mut out = vec![];
    for line in input {
        if let Some(x) = u.step(line) {
            out.push(x);
        }
    }
    if let Some(x) = u.finish() {
        out.push(x);
    }
    out
}

#[test]
fn uniq_counts_runs() {
    let out = run(&["a\n", "a\n", "b\n", "c \n", "c\n"]);
    assert_eq!(
        out,
        vec![(2, "a\n".to_string()), (1, "b\n".to_string()), (2, "c \n".to_string())]
    );
    let total: usize = out.iter().map(|x| x.0).sum();
    assert_eq!(total, 5);
}

#[test]
fn uniq_empty_and_blank() {
    assert_eq!(run(&[]), vec![]);
    assert_eq!(run(&["\n", " \n"]), vec![(2, "\n".to_string())]);
    assert_eq!(run(&["x"]), vec![(1, "x".to_string())]);
}

#[test]
fn uniq_run_lines() {
    assert_eq!(format_run(true, 3, "abc\n"), "   3 abc\n");
    assert_eq!(format_run(true, 12345, "x"), "12345 x\n");
    assert_eq!(format_run(false, 3, "abc\n"), "abc\n");
    assert_eq!(format_run(false, 1, ""), "\n");
    let u = Uniq::new();
    assert_eq!(u.count(), 0);
}

#[test]
fn uniq_shows_maximal_runs() {
    let out = run(&["x\n", "x \n", "y\n", "x\n", "x\n", "x\t\n"]);
    assert_eq!(
        out,
        vec![(2, "x\n".to_string()), (1, "y\n".to_string()), (3, "x\n".to_string())]
    );
}
