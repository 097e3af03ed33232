use sigpatch::notation::{read_byte, read_bytes, read_cells, read_digit, read_rule};
use sigpatch::patch::{apply, PatchSet};

fn chars(text: &str) -> Vec<char> {
    text.chars().collect()
}

#[test]
fn digits_are_read_in_either_case() {
    assert_eq!(read_digit('0'), Some(0));
    assert_eq!(read_digit('9'), Some(9));
    assert_eq!(read_digit('a'), Some(10));
    assert_eq!(read_digit('f'), Some(15));
    assert_eq!(read_digit('A'), Some(10));
    assert_eq!(read_digit('F'), Some(15));
    assert_eq!(read_digit('g'), None);
    assert_eq!(read_digit('G'), None);
    assert_eq!(read_digit('/'), None);
    assert_eq!(read_digit(':'), None);
    assert_eq!(read_digit('?'), None);
    assert_eq!(read_digit('\u{FF11}'), None);
}

#[test]
fn two_digits_write_a_byte() {
    assert_eq!(read_byte('0', '0'), Some(0x00));
    assert_eq!(read_byte('4', '8'), Some(0x48));
    assert_eq!(read_byte('f', 'F'), Some(0xFF));
    assert_eq!(read_byte('c', '3'), Some(0xC3));
    assert_eq!(read_byte('?', '?'), None);
    assert_eq!(read_byte('1', 'x'), None);
}

#[test]
fn cells_are_bytes_or_wildcards() {
    assert_eq!(read_cells(&chars("11??33")), Some(vec![Some(0x11), None, Some(0x33)]));
    assert_eq!(read_cells(&chars("")), Some(vec![]));
    assert_eq!(read_cells(&chars("1")), None);
    assert_eq!(read_cells(&chars("1?")), None);
    assert_eq!(read_cells(&chars("?1")), None);
    assert_eq!(read_cells(&chars("11 22")), None);
}

#[test]
fn bytes_admit_no_wildcard() {
    assert_eq!(read_bytes(&chars("AAbb")), Some(vec![0xAA, 0xBB]));
    assert_eq!(read_bytes(&chars("")), Some(vec![]));
    assert_eq!(read_bytes(&chars("??")), None);
    assert_eq!(read_bytes(&chars("AAb")), None);
}

#[test]
fn written_rule_is_read_and_applied() {
    let rule = read_rule("11??33=AABB").unwrap();
    assert_eq!(rule.signature().len(), 3);
    assert_eq!(rule.signature().cell(0), Some(0x11));
    assert_eq!(rule.signature().cell(1), None);
    assert_eq!(rule.signature().cell(2), Some(0x33));
    assert_eq!(rule.replacement(), &vec![0xAA, 0xBB]);
    let rules: PatchSet = vec![rule];
    assert_eq!(apply(&[0x11, 0x22, 0x33, 0x44], &rules), Ok(vec![0xAA, 0xBB, 0x33, 0x44]));
}

#[test]
fn rule_may_have_an_empty_replacement() {
    let rule = read_rule("11=").unwrap();
    assert_eq!(rule.signature().len(), 1);
    assert_eq!(rule.replacement(), &Vec::<u8>::new());
}

#[test]
fn ill_written_rules_are_refused() {
    assert!(read_rule("").is_none());
    assert!(read_rule("1122").is_none());
    assert!(read_rule("=11").is_none());
    assert!(read_rule("=").is_none());
    assert!(read_rule("11=2233").is_none());
    assert!(read_rule("11=22=33").is_none());
    assert!(read_rule("11=??").is_none());
    assert!(read_rule("1g=22").is_none());
    assert!(read_rule("11 = 22").is_none());
    assert!(read_rule("112=22").is_none());
}
