use textutils::tailr::TakeValue::{PlusZero, TakeNum};
use textutils::tailr::{
    count_lines_bytes, get_start_index, header, parse_num, tail_bytes, tail_lines,
    take_value_from_groups, Config,
};

#[test]
fn test_parse_num() {
    // All integers are read as negative numbers
    let res = parse_num("3");
    assert!(res.is_ok());
    assert_eq!(res.unwrap(), TakeNum(-3));

    // A leading "+" reads as a positive number
    let res = parse_num("+3");
    assert!(res.is_ok());
    assert_eq!(res.unwrap(), TakeNum(3));

    // An explicit "-" reads as a negative number
    let res = parse_num("-3");
    assert!(res.is_ok());
    assert_eq!(res.unwrap(), TakeNum(-3));

    // Zero stays zero
    let res = parse_num("0");
    assert!(res.is_ok());
    assert_eq!(res.unwrap(), TakeNum(0));

    // Plus zero is special
    let res = parse_num("+0");
    assert!(res.is_ok());
    assert_eq!(res.unwrap(), PlusZero);

    // Boundaries
    let res = parse_num(&i64::MAX.to_string());
    assert!(res.is_ok());
    assert_eq!(res.unwrap(), TakeNum(i64::MIN + 1));

    let res = parse_num(&(i64::MIN + 1).to_string());
    assert!(res.is_ok());
    assert_eq!(res.unwrap(), TakeNum(i64::MIN + 1));

    let res = parse_num(&format!("+{}", i64::MAX));
    assert!(res.is_ok());
    assert_eq!(res.unwrap(), TakeNum(i64::MAX));

    let res = parse_num(&i64::MIN.to_string());
    assert!(res.is_ok());
    assert_eq!(res.unwrap(), TakeNum(i64::MIN));

    // A floating-point number is refused
    let res = parse_num("3.14");
    assert!(res.is_err());
    assert_eq!(res.unwrap_err().to_string(), "3.14");

    // What is not an integer is refused
    let res = parse_num("foo");
    assert!(res.is_err());
    assert_eq!(res.unwrap_err().to_string(), "foo");
}

// The text of tests/inputs/one.txt: one line of 24 bytes.
const ONE: &str = "O\u{308}ne line, four words.\n";
// The text of tests/inputs/ten.txt: ten lines, 49 bytes.
const TEN: &str = "one\ntwo\nthree\nfour\nfive\nsix\nseven\neight\nnine\nten\n";

#[test]
fn test_count_lines_bytes() {
    let res = count_lines_bytes(ONE.as_bytes());
    assert_eq!(res, (1, 24));

    let res = count_lines_bytes(TEN.as_bytes());
    assert_eq!(res, (10, 49));
}

#[test]
fn test_get_start_index() {
    // +0 on an empty file (0 lines or bytes) gives None
    assert_eq!(get_start_index(&PlusZero, 0), None);

    // +0 on a file that is not empty gives 0
    assert_eq!(get_start_index(&PlusZero, 1), Some(0));

    // Taking 0 lines or bytes gives None
    assert_eq!(get_start_index(&TakeNum(0), 1), None);

    // Taking lines or bytes of an empty file gives None
    assert_eq!(get_start_index(&TakeNum(1), 0), None);

    // Starting past the end of the file gives None
    assert_eq!(get_start_index(&TakeNum(2), 1), None);

    // A start within the file gives one less than the start
    assert_eq!(get_start_index(&TakeNum(1), 10), Some(0));
    assert_eq!(get_start_index(&TakeNum(2), 10), Some(1));
    assert_eq!(get_start_index(&TakeNum(3), 10), Some(2));

    // A negative start gives the total plus the start
    assert_eq!(get_start_index(&TakeNum(-1), 10), Some(9));
    assert_eq!(get_start_index(&TakeNum(-2), 10), Some(8));
    assert_eq!(get_start_index(&TakeNum(-3), 10), Some(7));

    // A negative start below zero gives 0, the whole file
    assert_eq!(get_start_index(&TakeNum(-20), 10), Some(0));
}

#[test]
fn parse_num_refuses_signs_alone_and_overflow() {
    assert_eq!(parse_num("+").unwrap_err(), "+");
    assert_eq!(parse_num("").unwrap_err(), "");
    assert_eq!(parse_num(" 3").unwrap_err(), " 3");
    assert_eq!(parse_num("9223372036854775808"), Ok(TakeNum(i64::MIN)));
    assert_eq!(parse_num("+9223372036854775808").unwrap_err(), "+9223372036854775808");
    assert_eq!(parse_num("-9223372036854775809").unwrap_err(), "-9223372036854775809");
}

#[test]
fn take_value_from_groups_cases() {
    assert_eq!(take_value_from_groups("x", &None).unwrap_err(), "x");
    let groups = Some(vec![Some("+5".to_string()), Some("+".to_string()), Some("5".to_string())]);
    assert_eq!(take_value_from_groups("+5", &groups), Ok(TakeNum(5)));
    let groups = Some(vec![Some("7".to_string()), None, Some("7".to_string())]);
    assert_eq!(take_value_from_groups("7", &groups), Ok(TakeNum(-7)));
    let groups = Some(vec![Some("+0".to_string()), Some("+".to_string()), Some("0".to_string())]);
    assert_eq!(take_value_from_groups("+0", &groups), Ok(PlusZero));
    let groups = Some(vec![Some("7".to_string()), None]);
    assert_eq!(take_value_from_groups("7", &groups).unwrap_err(), "7");
}

#[test]
fn tail_lines_selects_lines() {
    let data = TEN.as_bytes();
    assert_eq!(tail_lines(data, &TakeNum(-2), 10), b"nine\nten\n".to_vec());
    assert_eq!(tail_lines(data, &TakeNum(9), 10), b"nine\nten\n".to_vec());
    assert_eq!(tail_lines(data, &TakeNum(-20), 10), data.to_vec());
    assert_eq!(tail_lines(data, &PlusZero, 10), data.to_vec());
    assert_eq!(tail_lines(data, &TakeNum(0), 10), Vec::<u8>::new());
    assert_eq!(tail_lines(b"a\nb", &TakeNum(-1), 2), b"b".to_vec());
    assert_eq!(tail_lines(b"", &PlusZero, 0), Vec::<u8>::new());
}

#[test]
fn tail_bytes_selects_bytes() {
    let data = TEN.as_bytes();
    assert_eq!(tail_bytes(data, &TakeNum(-4), 49), b"ten\n".to_vec());
    assert_eq!(tail_bytes(data, &TakeNum(46), 49), b"ten\n".to_vec());
    assert_eq!(tail_bytes(data, &PlusZero, 49), data.to_vec());
    assert_eq!(tail_bytes(data, &TakeNum(50), 49), Vec::<u8>::new());
}

#[test]
fn head_then_tail_give_back_the_text() {
    let data = TEN.as_bytes();
    let head = textutils::headr::head_lines(data, 3).concat();
    let mut whole = head;
    whole.extend(tail_lines(data, &TakeNum(4), 10));
    assert_eq!(whole, data.to_vec());
}

#[test]
fn headers() {
    assert_eq!(header(0, 1, false, "a.txt"), None);
    assert_eq!(header(0, 2, true, "a.txt"), None);
    assert_eq!(header(0, 2, false, "a.txt"), Some("==> a.txt <==".to_string()));
    assert_eq!(header(1, 2, false, "b.txt"), Some("\n==> b.txt <==".to_string()));
}

#[test]
fn config_reports_bad_counts() {
    let c = Config::new(vec!["f".to_string()], "10", None, false).unwrap();
    assert_eq!(c.lines, TakeNum(-10));
    assert_eq!(c.bytes, None);
    let c = Config::new(vec![], "10", Some("+2"), true).unwrap();
    assert_eq!(c.bytes, Some(TakeNum(2)));
    assert!(c.quiet);
    assert_eq!(
        Config::new(vec![], "x", Some("y"), false).err(),
        Some("illegal line count -- x".to_string())
    );
    assert_eq!(
        Config::new(vec![], "1", Some("y"), false).err(),
        Some("illegal byte count -- y".to_string())
    );
}
