use keypad::action::Action;
use keypad::action::ControlAction;
use keypad::action::PublishRequest;
use keypad::config::Config;
use keypad::config::KeypadConfig;
use keypad::config::OnPressAction;
use keypad::config::OnReleaseAction;
use keypad::keypad::BlinkState;
use keypad::keypad::KeyState;
use keypad::keypad::KeypadState;
use keypad::config::PadConfig;
use keypad::util::Rgb;

fn pad(n: u8) -> PadConfig {
    PadConfig {
        released: [n, 0, 0],
        pressed: [0, n, 0],
        alternative: [0, 0, n],
        on_press: vec![],
        on_release: vec![],
    }
}

fn keypad_config(f: impl Fn(u8) -> PadConfig) -> KeypadConfig {
    KeypadConfig {
        pad_0_0: f(0),
        pad_0_1: f(1),
        pad_0_2: f(2),
        pad_0_3: f(3),
        pad_0_4: f(4),
        pad_1_0: f(5),
        pad_1_1: f(6),
        pad_1_2: f(7),
        pad_1_3: f(8),
        pad_1_4: f(9),
        pad_2_0: f(10),
        pad_2_1: f(11),
        pad_2_2: f(12),
        pad_2_3: f(13),
        pad_2_4: f(14),
        pad_3_0: f(15),
        pad_3_1: f(16),
        pad_3_2: f(17),
        pad_3_3: f(18),
        pad_3_4: f(19),
        pad_4_0: f(20),
        pad_4_1: f(21),
        pad_4_2: f(22),
        pad_4_3: f(23),
        pad_4_4: f(24),
    }
}

fn config(f: impl Fn(u8) -> PadConfig) -> Config {
    Config {
        mqtt_broker_addr: String::from("broker.local"),
        mqtt_broker_port: 1883,
        mqtt_subscribe_prefix: String::from("pref"),
        interval_duration: Some(1000),
        keypad: keypad_config(f),
    }
}

fn key(state: &KeypadState, index: usize) -> &KeyState {
    &state.rows[index / 5].0[index % 5]
}

#[test]
fn grid_construction_copies_each_record() {
    let cfg = config(pad);
    let state = KeypadState::from_config(&cfg);
    assert_eq!(state.rows.len(), 5);
    for r in 0..5 {
        assert_eq!(state.rows[r].0.len(), 5);
        for c in 0..5 {
            let n = (5 * r + c) as u8;
            let k = &state.rows[r].0[c];
            assert_eq!(k.color_pressed.as_slice(), [0, n, 0]);
            assert_eq!(k.color_released.as_slice(), [n, 0, 0]);
            assert!(!k.pressed);
            assert!(!k.blinking);
            assert!(!k.blinking_alternative_color);
            assert_eq!(k.blink_state, BlinkState::Off);
            assert!(k.on_press.is_empty());
            assert!(k.on_release.is_empty());
        }
    }
}

#[test]
fn grid_construction_translates_action_lists() {
    let cfg = config(|n| {
        let mut p = pad(n);
        p.on_press = vec![
            OnPressAction::ToggleBlinking,
            OnPressAction::Publish { topic: String::from("t"), payload: String::from("p") },
            OnPressAction::ToggleBlinkingAlternativeColor,
        ];
        p.on_release = vec![OnReleaseAction::Publish {
            topic: String::from("rt"),
            payload: String::from("rp"),
        }];
        p
    });
    let state = KeypadState::from_config(&cfg);
    let k = key(&state, 13);
    assert_eq!(k.on_press.len(), 3);
    assert_eq!(k.on_press[0], Action::ToggleBlinking);
    assert_eq!(
        k.on_press[1],
        Action::PublishMqtt { topic: String::from("t"), payload: String::from("p") }
    );
    assert_eq!(k.on_press[2], Action::ToggleBlinkingAlternativeColor);
    assert_eq!(
        k.on_release,
        vec![Action::PublishMqtt { topic: String::from("rt"), payload: String::from("rp") }]
    );
}

#[test]
fn press_sets_flag_and_leaves_others_alone() {
    let cfg = config(pad);
    let mut state = KeypadState::from_config(&cfg);
    let reqs = state.pressed(7);
    assert!(reqs.is_empty());
    for i in 0..25 {
        assert_eq!(key(&state, i).pressed, i == 7);
    }
    let reqs = state.released(7);
    assert!(reqs.is_empty());
    assert!(!key(&state, 7).pressed);
}

#[test]
fn out_of_range_dispatch_is_a_no_op() {
    let cfg = config(pad);
    let mut state = KeypadState::from_config(&cfg);
    let reqs = state.pressed(25);
    assert!(reqs.is_empty());
    let reqs = state.released(200);
    assert!(reqs.is_empty());
    state.run_ctrl_action_on_key(25, &ControlAction::ToggleBlinking);
    for i in 0..25 {
        let k = key(&state, i);
        assert!(!k.pressed);
        assert!(!k.blinking);
        assert!(!k.blinking_alternative_color);
    }
}

#[test]
fn press_runs_actions_in_declared_order() {
    let cfg = config(|n| {
        let mut p = pad(n);
        if n == 3 {
            p.on_press = vec![
                OnPressAction::Publish { topic: String::from("a"), payload: String::from("1") },
                OnPressAction::ToggleBlinking,
                OnPressAction::Publish { topic: String::from("b"), payload: String::from("2") },
            ];
        }
        p
    });
    let mut state = KeypadState::from_config(&cfg);
    let reqs = state.pressed(3);
    assert_eq!(
        reqs,
        vec![
            PublishRequest { topic: String::from("a"), payload: String::from("1") },
            PublishRequest { topic: String::from("b"), payload: String::from("2") },
        ]
    );
    let k = key(&state, 3);
    assert!(k.pressed);
    assert!(k.blinking);
}

#[test]
fn toggle_blinking_is_an_involution() {
    let cfg = config(pad);
    let mut state = KeypadState::from_config(&cfg);
    let before = key(&state, 11).blinking;
    state.run_ctrl_action_on_key(11, &ControlAction::ToggleBlinking);
    assert_eq!(key(&state, 11).blinking, !before);
    state.run_ctrl_action_on_key(11, &ControlAction::ToggleBlinking);
    assert_eq!(key(&state, 11).blinking, before);
}

#[test]
fn toggle_alternative_flag_is_independent() {
    let mut k = KeyState::from_pad(&pad(1));
    k.toggle_blinking_alternative_color();
    assert!(k.blinking_alternative_color);
    assert!(!k.blinking);
    k.toggle_blinking_alternative_color();
    assert!(!k.blinking_alternative_color);
}

#[test]
fn color_read_without_blinking_is_static() {
    let mut k = KeyState::from_pad(&pad(9));
    let c = k.color_pressed();
    assert_eq!(c.as_slice(), [0, 9, 0]);
    assert_eq!(k.blink_state, BlinkState::Off);
    let c = k.color_released();
    assert_eq!(c.as_slice(), [9, 0, 0]);
    assert_eq!(k.blink_state, BlinkState::Off);
}

#[test]
fn blinking_reads_alternate_strictly() {
    let mut k = KeyState::from_pad(&pad(9));
    k.toggle_blinking();
    k.blink_state = BlinkState::On;
    let first = k.color_pressed();
    assert_eq!(first.as_slice(), [0, 9, 0]);
    assert_eq!(k.blink_state, BlinkState::Off);
    let second = k.color_pressed();
    assert_eq!(second.as_slice(), [9, 0, 0]);
    assert_eq!(k.blink_state, BlinkState::On);
}

#[test]
fn publish_produces_79_byte_buffers_with_header() {
    let cfg = config(pad);
    let mut state = KeypadState::from_config(&cfg);
    let (pressed_frame, released_frame) = state.publish(&cfg);
    assert_eq!(pressed_frame.topic, "pref/keypad/color/pressed");
    assert_eq!(released_frame.topic, "pref/keypad/color/released");
    assert_eq!(pressed_frame.payload.len(), 79);
    assert_eq!(released_frame.payload.len(), 79);
    assert_eq!(&pressed_frame.payload[0..4], &[0, 0, 0, 25]);
    assert_eq!(&released_frame.payload[0..4], &[0, 0, 0, 25]);
    for i in 0..25usize {
        let n = i as u8;
        assert_eq!(&pressed_frame.payload[4 + 3 * i..4 + 3 * i + 3], &[0, n, 0]);
        assert_eq!(&released_frame.payload[4 + 3 * i..4 + 3 * i + 3], &[n, 0, 0]);
    }
}

#[test]
fn publish_advances_blink_phase_twice_per_cycle() {
    let cfg = config(pad);
    let mut state = KeypadState::from_config(&cfg);
    state.run_ctrl_action_on_key(0, &ControlAction::ToggleBlinking);
    state.rows[0].0[0].blink_state = BlinkState::On;
    let (pressed_frame, released_frame) = state.publish(&cfg);
    // pressed-side read saw phase On: the pressed color of key 0
    assert_eq!(&pressed_frame.payload[4..7], &[0, 0, 0]);
    // released-side read saw phase Off: the released color of key 0
    assert_eq!(&released_frame.payload[4..7], &[0, 0, 0]);
    // after two reads the phase is back to On
    assert_eq!(state.rows[0].0[0].blink_state, BlinkState::On);
}

#[test]
fn control_message_toggles_only_the_addressed_key() {
    let cfg = config(|n| {
        let mut p = pad(n);
        p.on_press =
            vec![OnPressAction::Publish { topic: String::from("x"), payload: String::from("y") }];
        p
    });
    let mut state = KeypadState::from_config(&cfg);
    state.handle_control_message(b"pref/key/9", b"{\"actions\":[\"ToggleBlinking\"]}");
    for i in 0..25 {
        let k = key(&state, i);
        assert_eq!(k.blinking, i == 9);
        // the configured on_press list was never run
        assert!(!k.pressed);
    }
}

#[test]
fn control_message_applies_actions_in_order() {
    let cfg = config(pad);
    let mut state = KeypadState::from_config(&cfg);
    state.handle_control_message(
        b"a/b/key/4",
        b"{ \"actions\" : [ \"ToggleBlinking\" , \"ToggleBlinkingAlternativeColor\" , \"ToggleBlinking\" ] }",
    );
    let k = key(&state, 4);
    assert!(!k.blinking);
    assert!(k.blinking_alternative_color);
}

#[test]
fn malformed_control_message_is_dropped() {
    let cfg = config(pad);
    let mut state = KeypadState::from_config(&cfg);
    state.handle_control_message(b"pref/key/9", b"{\"actions\":[\"Unknown\"]}");
    state.handle_control_message(b"pref/key/x", b"{\"actions\":[\"ToggleBlinking\"]}");
    state.handle_control_message(b"pref/key/9", b"not json");
    for i in 0..25 {
        assert!(!key(&state, i).blinking);
    }
}

#[test]
fn event_payload_dispatches_press_and_release() {
    let cfg = config(pad);
    let mut state = KeypadState::from_config(&cfg);
    let reqs = state.handle_event_payload(b"12");
    assert!(reqs.is_empty());
    assert!(key(&state, 12).pressed);
    let reqs = state.handle_event_payload(b"-12");
    assert!(reqs.is_empty());
    assert!(!key(&state, 12).pressed);
    state.handle_event_payload(b"abc");
    for i in 0..25 {
        assert!(!key(&state, i).pressed);
    }
}

#[test]
fn action_execute_reports_publishes_and_toggles_flags() {
    let mut k = KeyState::from_pad(&pad(2));
    let r = Action::ToggleBlinking.execute(&mut k);
    assert!(r.is_none());
    assert!(k.blinking);
    let r = Action::ToggleBlinkingAlternativeColor.execute(&mut k);
    assert!(r.is_none());
    assert!(k.blinking_alternative_color);
    let publish =
        Action::PublishMqtt { topic: String::from("t"), payload: String::from("p") };
    let r = publish.execute(&mut k);
    assert_eq!(
        r,
        Some(PublishRequest { topic: String::from("t"), payload: String::from("p") })
    );
    assert!(k.blinking);
    assert!(k.blinking_alternative_color);
}

#[test]
fn rgb_round_trips_through_as_slice() {
    let c = Rgb::from([7, 8, 9]);
    assert_eq!(c.as_slice(), [7, 8, 9]);
}

#[test]
fn level_defaults_to_info() {
    assert_eq!(keypad::cli::Level::default(), keypad::cli::Level::Info);
}
