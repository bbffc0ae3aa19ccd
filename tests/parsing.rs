use std::collections::HashMap;

use firal::field_map::FieldMap;
use firal::model::OutOfBounds;
use firal::parser::{parse_brackets, parse_line};
use firal::text::{parse_i32, split_on};

const SAMPLE: &str = "2019-01-12T13:56:05-08:00 host kernel: \
                      [LAN_LOCAL-default-A]IN=eth0 OUT= \
                      MAC=00:00:00:00:00:00:00:00:00:00:00:00:00:00 \
                      SRC=192.168.1.8 DST=192.168.1.1 LEN=52 TOS=0x00 PREC=0x00 \
                      TTL=64 ID=40048 DF PROTO=TCP SPT=8080 DPT=45117 WINDOW=280 RES=0x00 ACK URGP=0";

fn as_hash_map(fields: &FieldMap) -> HashMap<&str, &str> {
    let mut out = HashMap::new();
    for i in 0..fields.len() {
        let (k, v) = fields.entry(i);
        out.insert(k.as_str(), v.as_str());
    }
    out
}

#[test]
fn parse_brackets_happy_path() {
    let good_brackets = "[LAN_IN-4001-A]IN=eth1";
    let expected = ("LAN_IN", "4001", "A", "eth1");
    let actual = parse_brackets(good_brackets).unwrap();
    assert_eq!(expected, actual);
}

#[test]
fn parse_brackets_unknown_line() {
    let bad_brackets = "IPv4: martian source 0.0.0.0 from 0.0.0.0, on dev eth0";
    let expected = Err(OutOfBounds);
    let actual = parse_brackets(bad_brackets);
    assert_eq!(expected, actual);
}

#[test]
fn parse_line_happy_path() {
    let mut expected: HashMap<&str, &str> = HashMap::new();
    expected.insert("ID", "40048");
    expected.insert("IN", "eth0");
    expected.insert("OUT", "");
    expected.insert("SRC", "192.168.1.8");
    expected.insert("DST", "192.168.1.1");
    expected.insert("LEN", "52");
    expected.insert("PROTO", "TCP");
    expected.insert("SPT", "8080");
    expected.insert("DPT", "45117");
    expected.insert("RULE_ID", "default");
    expected.insert("FLOW_TYPE", "LAN_LOCAL");
    expected.insert("FW_ACTION", "A");
    expected.insert("LOGGED_AT", "2019-01-12T13:56:05-08:00");
    expected.insert("MAC", "00:00:00:00:00:00:00:00:00:00:00:00:00:00");
    expected.insert("TOS", "0x00");
    expected.insert("PREC", "0x00");
    expected.insert("TTL", "64");
    expected.insert("WINDOW", "280");
    expected.insert("RES", "0x00");
    expected.insert("URGP", "0");
    let actual = parse_line(SAMPLE).unwrap();
    assert_eq!(expected, as_hash_map(&actual));
}

#[test]
fn parse_line_unknown_line() {
    let bad_line = "IPv4: martian source 0.0.0.0 from 0.0.0.0, on dev eth0";
    let expected = Err(OutOfBounds);
    let actual = parse_line(bad_line);
    assert_eq!(expected, actual);
}

#[test]
fn brackets_missing_pieces_fail() {
    assert_eq!(parse_brackets("LAN_IN-4001-A"), Err(OutOfBounds));
    assert_eq!(parse_brackets("[LAN_IN-4001]IN=eth1"), Err(OutOfBounds));
    assert_eq!(parse_brackets("[LAN_IN-4001-A]IN"), Err(OutOfBounds));
    assert_eq!(parse_brackets("-4001-A]IN=eth1"), Err(OutOfBounds));
}

#[test]
fn brackets_extra_dashes_truncate() {
    assert_eq!(
        parse_brackets("[WAN-IN-7-D]IN=eth2"),
        Ok(("WAN", "IN", "7", "eth2"))
    );
    assert_eq!(parse_brackets("[a-b-c]X=y=z"), Ok(("a", "b", "c", "y")));
}

#[test]
fn brackets_split_at_first_closing_bracket() {
    assert_eq!(
        parse_brackets("[A-B-C]IN=eth0]x"),
        Ok(("A", "B", "C", "eth0]x"))
    );
    assert_eq!(parse_brackets("[A-B-C]]IN=eth0"), Ok(("A", "B", "C", "eth0")));
}

#[test]
fn short_lines_fail() {
    assert_eq!(parse_line("a b c"), Err(OutOfBounds));
    assert_eq!(parse_line(""), Err(OutOfBounds));
    assert_eq!(parse_line("[F-R-A]IN=x [F-R-A]IN=x [F-R-A]IN=x"), Err(OutOfBounds));
}

#[test]
fn token_without_equals_is_dropped() {
    let with = parse_line("t h k [F-R-A]IN=e0 SRC=1.2.3.4 DF PROTO=UDP").unwrap();
    let without = parse_line("t h k [F-R-A]IN=e0 SRC=1.2.3.4 PROTO=UDP").unwrap();
    assert_eq!(as_hash_map(&with), as_hash_map(&without));
    assert_eq!(with.get("SRC").unwrap(), "1.2.3.4");
    assert_eq!(with.get("PROTO").unwrap(), "UDP");
    assert!(with.get("DF").is_none());
    assert_eq!(with.len(), 7);
}

#[test]
fn later_key_overrides_earlier() {
    let fields = parse_line("t h k [F-R-A]IN=e0 IN=e9 A=1 A=2").unwrap();
    assert_eq!(fields.get("IN").unwrap(), "e9");
    assert_eq!(fields.get("A").unwrap(), "2");
    assert_eq!(fields.get("LOGGED_AT").unwrap(), "t");
}

#[test]
fn value_keeps_text_after_first_equals() {
    let fields = parse_line("t h k [F-R-A]IN=e0 K=a=b E=").unwrap();
    assert_eq!(fields.get("K").unwrap(), "a=b");
    assert_eq!(fields.get("E").unwrap(), "");
}

#[test]
fn consecutive_spaces_make_empty_tokens() {
    assert_eq!(parse_line("t  [F-R-A]IN=e0 k"), Err(OutOfBounds));
    assert!(parse_line("t  h [F-R-A]IN=e0").is_ok());
    let fields = parse_line("t h k [F-R-A]IN=e0  X=1").unwrap();
    assert_eq!(fields.get("X").unwrap(), "1");
}

#[test]
fn field_map_insert_replaces() {
    let mut m = FieldMap::new();
    m.insert("a".to_string(), "1".to_string());
    m.insert("b".to_string(), "2".to_string());
    m.insert("a".to_string(), "3".to_string());
    assert_eq!(m.len(), 2);
    assert_eq!(m.get("a").unwrap(), "3");
    let (k, v) = m.entry(0);
    assert_eq!((k.as_str(), v.as_str()), ("a", "3"));
    assert!(m.get("c").is_none());
}

#[test]
fn split_keeps_empty_pieces() {
    assert_eq!(split_on("a  b", ' '), vec!["a", "", "b"]);
    assert_eq!(split_on("", ' '), vec![""]);
    assert_eq!(split_on("x]", ']'), vec!["x", ""]);
}

#[test]
fn parse_i32_cases() {
    assert_eq!(parse_i32("52"), Some(52));
    assert_eq!(parse_i32("+7"), Some(7));
    assert_eq!(parse_i32("-2147483648"), Some(i32::MIN));
    assert_eq!(parse_i32("2147483647"), Some(i32::MAX));
    assert_eq!(parse_i32("2147483648"), None);
    assert_eq!(parse_i32("-2147483649"), None);
    assert_eq!(parse_i32("99999999999999999999"), None);
    assert_eq!(parse_i32(""), None);
    assert_eq!(parse_i32("-"), None);
    assert_eq!(parse_i32("0x10"), None);
    assert_eq!(parse_i32("1 "), None);
    for s in ["0", "-0", "12345", "-77", "+0", "a", "--1", "007"] {
        assert_eq!(parse_i32(s), s.parse::<i32>().ok());
    }
}

