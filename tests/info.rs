use statusbar::info::{
    effective_state, info_json, json_object, parse_signal_strength, state_json, InfoError, LinkInfo, SignalError,
};
use statusbar::network_state::NMState;

fn wifi(strength: &str, ssid: &str) -> LinkInfo {
    LinkInfo {
        interface: "wlan0".to_string(),
        kind: "wireless".to_string(),
        ssid: ssid.to_string(),
        signal_strength: strength.to_string(),
        frequency: "2437".to_string(),
        ipaddr: "192.168.1.20".to_string(),
        cird: "24".to_string(),
        gateway: "192.168.1.1".to_string(),
    }
}

#[test]
fn signal_strength_validated_at_the_boundary() {
    assert_eq!(parse_signal_strength("0"), Ok(0));
    assert_eq!(parse_signal_strength("57"), Ok(57));
    assert_eq!(parse_signal_strength("100"), Ok(100));
    assert_eq!(parse_signal_strength("101"), Err(SignalError::OutOfRange));
    assert_eq!(parse_signal_strength("255"), Err(SignalError::OutOfRange));
    assert_eq!(parse_signal_strength("123456789012345678901234567890"), Err(SignalError::OutOfRange));
    assert_eq!(parse_signal_strength(""), Err(SignalError::Malformed));
    assert_eq!(parse_signal_strength("-1"), Err(SignalError::Malformed));
    assert_eq!(parse_signal_strength("5a"), Err(SignalError::Malformed));
    assert_eq!(parse_signal_strength("050"), Err(SignalError::Malformed));
    assert_eq!(parse_signal_strength(" 50"), Err(SignalError::Malformed));
}

#[test]
fn info_line_for_wireless() {
    let line = info_json(NMState::ConnectedGlobal, true, &wifi("80", "home")).unwrap();
    assert_eq!(
        line,
        r#"{"cird":"24","frequency":"2437","gateway":"192.168.1.1","icon":"/image/ConnectedGlobal-4.svg","interface":"wlan0","ipaddr":"192.168.1.20","kind":"wireless","signalStrength":"80","ssid":"home","state":"ConnectedGlobal"}"#
    );
}

#[test]
fn info_line_without_internet_shows_local() {
    let line = info_json(NMState::ConnectedGlobal, false, &wifi("30", "cafe")).unwrap();
    assert!(line.contains(r#""state":"ConnectedLocal""#));
    assert!(line.contains(r#""icon":"/image/Connected-2.svg""#));
    assert_eq!(effective_state(NMState::ConnectedGlobal, false), NMState::ConnectedLocal);
    assert_eq!(effective_state(NMState::ConnectedGlobal, true), NMState::ConnectedGlobal);
    assert_eq!(effective_state(NMState::ConnectedSite, false), NMState::ConnectedSite);
}

#[test]
fn info_line_escapes_text() {
    let line = info_json(NMState::ConnectedSite, false, &wifi("5", "my \"net\"\\")).unwrap();
    assert!(line.contains(r#""ssid":"my \"net\"\\""#));
    assert!(line.contains(r#""icon":"/image/Connected-1.svg""#));
    let line = info_json(NMState::ConnectedSite, false, &wifi("5", "a\u{1}\tb\u{8}\u{c}\n\r\u{1f}/é")).unwrap();
    assert!(line.contains(r#""ssid":"a\u0001\tb\b\f\n\r\u001f/é""#));
}

#[test]
fn info_line_for_wired() {
    let link = LinkInfo::wired(
        "eth0".to_string(),
        "10.0.0.2".to_string(),
        "8".to_string(),
        "10.0.0.1".to_string(),
    );
    let line = info_json(NMState::ConnectedGlobal, true, &link).unwrap();
    assert_eq!(
        line,
        r#"{"cird":"8","frequency":"","gateway":"10.0.0.1","icon":"/image/ConnectedGlobal-4.svg","interface":"eth0","ipaddr":"10.0.0.2","kind":"wired","signalStrength":"","ssid":"","state":"ConnectedGlobal"}"#
    );
}

#[test]
fn wireless_link_fields() {
    let link = LinkInfo::wireless(
        "wlan0".to_string(),
        5180,
        42,
        "office".to_string(),
        "172.16.0.9".to_string(),
        "16".to_string(),
        "172.16.0.1".to_string(),
    );
    assert_eq!(link.kind, "wireless");
    assert_eq!(link.frequency, "5180");
    assert_eq!(link.signal_strength, "42");
    assert_eq!(link.ssid, "office");
}

#[test]
fn info_rejects_bad_signal() {
    assert_eq!(info_json(NMState::ConnectedGlobal, true, &wifi("101", "x")), Err(InfoError::SignalOutOfRange));
    assert_eq!(info_json(NMState::ConnectedGlobal, true, &wifi("7%", "x")), Err(InfoError::MalformedSignal));
}

#[test]
fn short_state_line() {
    assert_eq!(state_json(NMState::Asleep), r#"{"state":"Asleep"}"#);
    assert_eq!(state_json(NMState::Connecting), r#"{"state":"Connecting"}"#);
}

#[test]
fn object_joins_members() {
    assert_eq!(json_object(&vec![]), "{}");
    assert_eq!(
        json_object(&vec![("\"a\"".to_string(), "1".to_string()), ("\"b\"".to_string(), "[2]".to_string())]),
        r#"{"a":1,"b":[2]}"#
    );
}
