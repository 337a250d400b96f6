use wikigraph::models::SpoolRecord;
use wikigraph::spool::{encode_spool_line, parse_spool_line};

#[test]
fn encode_basic_line() {
    let rec = SpoolRecord {
        offset: 16,
        targets: vec!["alpha".to_string(), "beta gamma".to_string()],
    };
    assert_eq!(encode_spool_line(&rec), "16|2|alpha|beta gamma");
}

#[test]
fn encode_has_no_trailing_pipe() {
    let rec = SpoolRecord { offset: 36, targets: vec!["only".to_string()] };
    assert_eq!(encode_spool_line(&rec), "36|1|only");
}

#[test]
fn encode_largest_offset() {
    let rec = SpoolRecord { offset: u32::MAX, targets: vec!["x".to_string()] };
    assert_eq!(encode_spool_line(&rec), "4294967295|1|x");
}

#[test]
fn parse_basic_line() {
    let rec = parse_spool_line("16|2|alpha|beta gamma").unwrap();
    assert_eq!(rec.offset, 16);
    assert_eq!(rec.targets, vec!["alpha".to_string(), "beta gamma".to_string()]);
}

#[test]
fn round_trip_through_text() {
    let rec = SpoolRecord {
        offset: 1234,
        targets: vec!["a".to_string(), "b".to_string(), "c d".to_string()],
    };
    let line = encode_spool_line(&rec);
    let back = parse_spool_line(&line).unwrap();
    assert_eq!(back.offset, rec.offset);
    assert_eq!(back.targets, rec.targets);
}

#[test]
fn malformed_lines_rejected() {
    assert!(parse_spool_line("").is_none());
    assert!(parse_spool_line("16").is_none());
    assert!(parse_spool_line("x|1|a").is_none());
    assert!(parse_spool_line("16|x|a").is_none());
    assert!(parse_spool_line("16|2|a").is_none());
    assert!(parse_spool_line("16|1|").is_none());
    assert!(parse_spool_line("16|1|a|b").is_none());
    assert!(parse_spool_line("4294967296|1|a").is_none());
    assert!(parse_spool_line("99999999999999999999|1|a").is_none());
}

#[test]
fn leading_zeros_accepted_on_parse() {
    let rec = parse_spool_line("016|1|a").unwrap();
    assert_eq!(rec.offset, 16);
}
