use statusbar::info::{state_snapshot, InfoError, LinkInfo};
use statusbar::network_state::NMState;
use statusbar::scan::{is_digit_char, push_int, push_nat, read_int, read_lit, read_nat};

#[test]
fn writes_decimal() {
    let mut out = String::from("n=");
    push_nat(&mut out, 0);
    out.push(' ');
    push_nat(&mut out, 18446744073709551615);
    out.push(' ');
    push_int(&mut out, -42);
    out.push(' ');
    push_int(&mut out, i32::MIN);
    assert_eq!(out, "n=0 18446744073709551615 -42 -2147483648");
}

#[test]
fn reads_decimal() {
    assert_eq!(read_nat("x120,", 1, 1000), Some((120, 4)));
    assert_eq!(read_nat("0]", 0, 10), Some((0, 1)));
    assert_eq!(read_nat("007", 0, 10), None);
    assert_eq!(read_nat("1001", 0, 1000), None);
    assert_eq!(read_nat("abc", 0, 1000), None);
    assert_eq!(read_nat("12", 2, 1000), None);
    assert_eq!(read_int("-17}", 0), Some((-17, 3)));
    assert_eq!(read_int("2147483647", 0), Some((i32::MAX, 10)));
    assert_eq!(read_int("2147483648", 0), None);
    assert_eq!(read_int("-0", 0), None);
    assert_eq!(read_int("-", 0), None);
}

#[test]
fn reads_literals() {
    assert_eq!(read_lit("{\"id\":3", 0, "{\"id\":"), Some(6));
    assert_eq!(read_lit("ab", 1, "bc"), None);
    assert_eq!(read_lit("ab", 2, ""), Some(2));
    assert!(is_digit_char('7'));
    assert!(!is_digit_char('a'));
}

#[test]
fn snapshot_line_picks_the_form() {
    assert_eq!(state_snapshot(NMState::Connecting, false, None).unwrap(), r#"{"state":"Connecting"}"#);
    let link = LinkInfo::wired("eth0".to_string(), "10.0.0.2".to_string(), "8".to_string(), "10.0.0.1".to_string());
    let line = state_snapshot(NMState::ConnectedGlobal, false, Some(&link)).unwrap();
    assert!(line.starts_with(r#"{"cird":"8","#));
    assert!(line.ends_with(r#""state":"ConnectedLocal"}"#));
    assert!(line.contains(r#""icon":"/image/Connected-4.svg""#));
    let mut bad = LinkInfo::wired("eth0".to_string(), String::new(), String::new(), String::new());
    bad.signal_strength = "abc".to_string();
    assert_eq!(state_snapshot(NMState::ConnectedGlobal, true, Some(&bad)), Err(InfoError::MalformedSignal));
}
