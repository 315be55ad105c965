use textutils::headr::{head_bytes, head_lines, parse_positive_int};
use textutils::tailr::{count_lines_bytes, tail_bytes, tail_lines, TakeValue};
use textutils::wcr::count;

const TEXT: &str = "first line\nzweite Zeile \u{e9}\n\nlast, without newline";

#[test]
fn wc_and_tail_count_the_same_lines() {
    let data = TEXT.as_bytes();
    let info = count(data).unwrap();
    let (lines, bytes) = count_lines_bytes(data);
    assert_eq!(info.num_lines as i64, lines);
    assert_eq!(info.num_bytes as i64, bytes);
    assert!(info.num_chars <= info.num_bytes);
}

#[test]
fn lines_put_together_give_the_text() {
    let data = TEXT.as_bytes();
    assert_eq!(head_lines(data, usize::MAX).concat(), data.to_vec());
}

#[test]
fn head_and_tail_partition_the_text() {
    let data = TEXT.as_bytes();
    let (lines, bytes) = count_lines_bytes(data);
    for k in 0..lines {
        let mut whole = head_lines(data, k as usize).concat();
        whole.extend(tail_lines(data, &TakeValue::TakeNum(k + 1), lines));
        assert_eq!(whole, data.to_vec());
    }
    for k in 0..bytes {
        let mut whole = head_bytes(data, k as usize);
        whole.extend(tail_bytes(data, &TakeValue::TakeNum(k + 1), bytes));
        assert_eq!(whole, data.to_vec());
    }
}

#[test]
fn tail_shows_the_last_lines() {
    let data = TEXT.as_bytes();
    let (lines, _) = count_lines_bytes(data);
    let last_two = tail_lines(data, &TakeValue::TakeNum(-2), lines);
    assert_eq!(last_two, b"\nlast, without newline".to_vec());
    assert_eq!(tail_lines(data, &TakeValue::TakeNum(1), lines), data.to_vec());
    assert_eq!(tail_lines(data, &TakeValue::PlusZero, lines), data.to_vec());
}

#[test]
fn decimal_numbers_read_back() {
    for n in [1usize, 9, 10, 99, 100, 12345, usize::MAX] {
        assert_eq!(parse_positive_int(&n.to_string()), Ok(n));
    }
}
