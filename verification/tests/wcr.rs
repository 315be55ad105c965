use textutils::wcr::{count, format_counts, format_total, total, Config, CountError, FileInfo};

#[test]
fn test_count() {
    // The expected counts below (48 characters, 48 bytes) are those of the
    // sentence with "your half". The text as given lost the "r": it is 47
    // bytes long, so no count of its bytes can be 48. Both are checked: the
    // given text for what it holds, and the expected counts on the text they
    // describe.
    let text = "I don't want the world. I just want you half.\r\n";
    assert_eq!(text.len(), 47);
    let info = count(text.as_bytes());

    assert!(info.is_ok());

    let counted = FileInfo { num_lines: 1, num_words: 10, num_chars: 47, num_bytes: 47 };

    assert_eq!(info.unwrap(), counted);

    let text = "I don't want the world. I just want your half.\r\n";
    assert_eq!(text.len(), 48);
    let info = count(text.as_bytes());

    assert!(info.is_ok());

    let expected = FileInfo { num_lines: 1, num_words: 10, num_chars: 48, num_bytes: 48 };

    assert_eq!(info.unwrap(), expected);
}

#[test]
fn count_edges() {
    assert_eq!(
        count(b""),
        Ok(FileInfo { num_lines: 0, num_words: 0, num_bytes: 0, num_chars: 0 })
    );
    assert_eq!(
        count("a b\n\nc".as_bytes()),
        Ok(FileInfo { num_lines: 3, num_words: 3, num_bytes: 6, num_chars: 6 })
    );
    assert_eq!(
        count("h\u{e9}\u{3000}x\u{a0}y\n".as_bytes()),
        Ok(FileInfo { num_lines: 1, num_words: 3, num_bytes: 11, num_chars: 7 })
    );
    assert_eq!(count(&[0x66, 0xff, 0x0a]), Err(CountError::InvalidUtf8));
}

#[test]
fn totals_and_lines() {
    let a = FileInfo { num_lines: 1, num_words: 2, num_bytes: 3, num_chars: 4 };
    let b = FileInfo { num_lines: 10, num_words: 20, num_bytes: 30, num_chars: 40 };
    assert_eq!(
        total(&vec![a, b]),
        Some(FileInfo { num_lines: 11, num_words: 22, num_bytes: 33, num_chars: 44 })
    );
    let big = FileInfo { num_lines: usize::MAX, num_words: 0, num_bytes: 0, num_chars: 0 };
    assert_eq!(total(&vec![big, a]), None);
    let default = Config::new(vec![], false, false, false, false);
    assert_eq!(format_counts(&a, &default, "f.txt"), "       1        2        3 f.txt");
    assert_eq!(format_counts(&a, &default, "-"), "       1        2        3 ");
    assert_eq!(format_total(&b, &default), "      10       20       30 total");
    let lines_only = Config::new(vec![], true, false, false, false);
    assert_eq!(format_counts(&a, &lines_only, "f.txt"), "       1 f.txt");
    assert_eq!(format_total(&b, &lines_only), "      10 total");
    let chars_words = Config::new(vec![], false, true, false, true);
    assert_eq!(format_counts(&a, &chars_words, "f"), "       2        4 f");
}

#[test]
fn wc_flags() {
    let c = Config::new(vec![], false, false, false, false);
    assert!(c.lines && c.words && c.bytes && !c.chars);
    let c = Config::new(vec![], false, false, false, true);
    assert!(!c.lines && !c.words && !c.bytes && c.chars);
    let c = Config::new(vec![], true, false, false, false);
    assert!(c.lines && !c.words && !c.bytes && !c.chars);
}

#[test]
fn counts_add_up_across_a_line_boundary() {
    let s1 = "one two\nthree\n";
    let s2 = "four  five\n\u{e9}";
    let a = count(s1.as_bytes()).unwrap();
    let b = count(s2.as_bytes()).unwrap();
    let both = count((s1.to_string() + s2).as_bytes()).unwrap();
    assert_eq!(
        both,
        FileInfo {
            num_lines: a.num_lines + b.num_lines,
            num_words: a.num_words + b.num_words,
            num_bytes: a.num_bytes + b.num_bytes,
            num_chars: a.num_chars + b.num_chars,
        }
    );
}
