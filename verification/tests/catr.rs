use textutils::catr::{render_lines, Config};

fn lines(v: &[&str]) -> Vec<String> {
    v.iter().map(|s| s.to_string()).collect()
}

#[test]
fn cat_plain() {
    let c = Config { files: vec![], number_lines: false, number_nonblank_lines: false };
    assert_eq!(render_lines(&c, &lines(&["a", "", "b"])), lines(&["a", "", "b"]));
}

#[test]
fn cat_numbers_every_line() {
    let c = Config { files: vec![], number_lines: true, number_nonblank_lines: false };
    assert_eq!(
        render_lines(&c, &lines(&["a", "", "b"])),
        lines(&["     1\ta", "     2\t", "     3\tb"])
    );
}

#[test]
fn cat_numbers_nonblank_lines() {
    let c = Config { files: vec![], number_lines: false, number_nonblank_lines: true };
    assert_eq!(
        render_lines(&c, &lines(&["a", "", " ", "b"])),
        lines(&["     1\ta", "", "     2\t ", "     3\tb"])
    );
}

#[test]
fn cat_wide_numbers() {
    let c = Config { files: vec![], number_lines: true, number_nonblank_lines: false };
    let many: Vec<String> = (0..1_000_000).map(|_| "x".to_string()).collect();
    let out = render_lines(&c, &many);
    assert_eq!(out[9], "    10\tx");
    assert_eq!(out[999_999], "1000000\tx");
}
