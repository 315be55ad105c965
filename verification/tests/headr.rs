use textutils::headr::{head_bytes, head_lines, parse_positive_int, Config};

#[test]
fn test_parse_positive_int() {
    let res = parse_positive_int("3");
    assert!(res.is_ok());
    assert_eq!(res.unwrap(), 3);

    let res = parse_positive_int("foo");
    assert!(res.is_err());
    assert_eq!(res.unwrap_err().to_string(), "foo".to_string());

    let res = parse_positive_int("0");
    assert!(res.is_err());
    assert_eq!(res.unwrap_err().to_string(), "0".to_string());
}

#[test]
fn parse_positive_int_edges() {
    assert_eq!(parse_positive_int("+7"), Ok(7));
    assert_eq!(parse_positive_int("-7").unwrap_err(), "-7");
    assert_eq!(parse_positive_int("").unwrap_err(), "");
    assert_eq!(parse_positive_int("+").unwrap_err(), "+");
    assert_eq!(parse_positive_int("007"), Ok(7));
    assert_eq!(parse_positive_int(&usize::MAX.to_string()), Ok(usize::MAX));
    let too_big = format!("{}0", usize::MAX);
    assert_eq!(parse_positive_int(&too_big).unwrap_err(), too_big);
}

#[test]
fn head_selects() {
    let data = b"one\ntwo\nthree";
    assert_eq!(head_bytes(data, 5), b"one\nt".to_vec());
    assert_eq!(head_bytes(data, 100), data.to_vec());
    assert_eq!(head_lines(data, 2), vec![b"one\n".to_vec(), b"two\n".to_vec()]);
    assert_eq!(head_lines(data, 10).len(), 3);
    assert_eq!(head_lines(data, 10)[2], b"three".to_vec());
    assert_eq!(head_lines(b"", 10).len(), 0);
}

#[test]
fn head_config() {
    let c = Config::new(vec!["-".to_string()], "10", None).unwrap();
    assert_eq!(c.lines, 10);
    assert_eq!(c.bytes, None);
    let c = Config::new(vec![], "10", Some("4")).unwrap();
    assert_eq!(c.bytes, Some(4));
    assert_eq!(Config::new(vec![], "0", None).err(), Some("illegal line count -- 0".to_string()));
    assert_eq!(
        Config::new(vec![], "1", Some("x")).err(),
        Some("illegal byte count -- x".to_string())
    );
}
