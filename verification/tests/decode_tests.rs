use keypad::action::ControlAction;
use keypad::decode::decode_control_packet;
use keypad::decode::decode_key_event;
use keypad::decode::key_index_from_topic;
use keypad::decode::KeyEvent;

#[test]
fn event_press_and_release_payloads() {
    assert_eq!(decode_key_event(b"12"), Some(KeyEvent::Pressed(12)));
    assert_eq!(decode_key_event(b"-5"), Some(KeyEvent::Released(5)));
    assert_eq!(decode_key_event(b"abc"), None);
}

#[test]
fn event_payload_edge_cases() {
    assert_eq!(decode_key_event(b"0"), Some(KeyEvent::Pressed(0)));
    assert_eq!(decode_key_event(b"+3"), Some(KeyEvent::Pressed(3)));
    assert_eq!(decode_key_event(b"3.7"), Some(KeyEvent::Pressed(3)));
    assert_eq!(decode_key_event(b"-0.5"), Some(KeyEvent::Released(0)));
    assert_eq!(decode_key_event(b"5."), Some(KeyEvent::Pressed(5)));
    assert_eq!(decode_key_event(b".5"), Some(KeyEvent::Pressed(0)));
    assert_eq!(decode_key_event(b"300"), Some(KeyEvent::Pressed(255)));
    assert_eq!(decode_key_event(b"99999999999999999999"), Some(KeyEvent::Pressed(255)));
    assert_eq!(decode_key_event(b""), None);
    assert_eq!(decode_key_event(b"-"), None);
    assert_eq!(decode_key_event(b"+"), None);
    assert_eq!(decode_key_event(b"."), None);
    assert_eq!(decode_key_event(b"1.2.3"), None);
    assert_eq!(decode_key_event(b"12a"), None);
    assert_eq!(decode_key_event(b" 12"), None);
}

#[test]
fn topic_key_index_comes_from_last_segment() {
    assert_eq!(key_index_from_topic(b"pref/key/9"), Some(9));
    assert_eq!(key_index_from_topic(b"a/b/key/24"), Some(24));
    assert_eq!(key_index_from_topic(b"7"), Some(7));
    assert_eq!(key_index_from_topic(b"pref/key/+9"), Some(9));
    assert_eq!(key_index_from_topic(b"pref/key/009"), Some(9));
    assert_eq!(key_index_from_topic(b"pref/key/255"), Some(255));
}

#[test]
fn topic_key_index_rejects_bad_segments() {
    assert_eq!(key_index_from_topic(b"pref/key/"), None);
    assert_eq!(key_index_from_topic(b"pref/key/x"), None);
    assert_eq!(key_index_from_topic(b"pref/key/9x"), None);
    assert_eq!(key_index_from_topic(b"pref/key/256"), None);
    assert_eq!(key_index_from_topic(b"pref/key/-9"), None);
    assert_eq!(key_index_from_topic(b""), None);
    assert_eq!(key_index_from_topic(b"pref/key/99999999999999999999"), None);
}

#[test]
fn control_packet_single_tag() {
    let p = decode_control_packet(b"{\"actions\":[\"ToggleBlinking\"]}").unwrap();
    assert_eq!(p.actions, vec![ControlAction::ToggleBlinking]);
}

#[test]
fn control_packet_both_tags_and_whitespace() {
    let p = decode_control_packet(
        b" { \"actions\" : [ \"ToggleBlinkingAlternativeColor\" ,\t\"ToggleBlinking\" ] } \n",
    )
    .unwrap();
    assert_eq!(
        p.actions,
        vec![ControlAction::ToggleBlinkingAlternativeColor, ControlAction::ToggleBlinking]
    );
}

#[test]
fn control_packet_empty_list() {
    let p = decode_control_packet(b"{\"actions\":[]}").unwrap();
    assert!(p.actions.is_empty());
}

#[test]
fn control_packet_rejects_malformed_input() {
    assert!(decode_control_packet(b"").is_none());
    assert!(decode_control_packet(b"not json").is_none());
    assert!(decode_control_packet(b"{\"actions\":[\"Unknown\"]}").is_none());
    assert!(decode_control_packet(b"{\"actions\":[\"ToggleBlinking\",]}").is_none());
    assert!(decode_control_packet(b"{\"actions\":\"ToggleBlinking\"}").is_none());
    assert!(decode_control_packet(b"{\"other\":[\"ToggleBlinking\"]}").is_none());
    assert!(decode_control_packet(b"{\"actions\":[\"ToggleBlinking\"]} x").is_none());
    assert!(decode_control_packet(b"{\"actions\":[\"ToggleBlinking\"]").is_none());
    assert!(decode_control_packet(b"[\"ToggleBlinking\"]").is_none());
}
