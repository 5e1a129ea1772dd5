use aether::gpio::{pattern_levels, state_to_pattern, LedPattern};
use aether::types::NodeState;

#[test]
fn idle_maps_to_solid_green() {
    assert_eq!(state_to_pattern(NodeState::Idle), LedPattern::SolidGreen);
}

#[test]
fn listening_maps_to_pulse_blue() {
    assert_eq!(state_to_pattern(NodeState::Listening), LedPattern::PulseBlue);
}

#[test]
fn processing_maps_to_pulse_blue() {
    assert_eq!(state_to_pattern(NodeState::Processing), LedPattern::PulseBlue);
}

#[test]
fn error_maps_to_flash_red() {
    assert_eq!(state_to_pattern(NodeState::Error), LedPattern::FlashRed);
}

#[test]
fn all_node_states_have_a_pattern() {
    let states = [NodeState::Idle, NodeState::Listening, NodeState::Processing, NodeState::Error];
    for state in states {
        let _ = state_to_pattern(state);
    }
}

#[test]
fn every_state_lights_exactly_one_colour() {
    for state in [NodeState::Idle, NodeState::Listening, NodeState::Processing, NodeState::Error] {
        let (r, g, b) = pattern_levels(state_to_pattern(state));
        assert_eq!([r, g, b].iter().filter(|x| **x).count(), 1);
    }
    assert_eq!(pattern_levels(LedPattern::Off), (false, false, false));
}

use aether::gpio::{led_pins, panic_button_pin, parse_pin};

#[test]
fn led_pins_need_all_three_variables() {
    assert_eq!(led_pins(Some("17"), None, Some("27")), Ok(None));
    assert_eq!(led_pins(None, None, None), Ok(None));
    assert_eq!(led_pins(Some("17"), Some("+22"), Some("27")), Ok(Some((17, 22, 27))));
}

#[test]
fn led_pins_name_the_first_bad_variable() {
    assert_eq!(
        led_pins(Some("x"), Some("y"), Some("1")),
        Err("AETHER_LED_RED_PIN is not a valid u8".to_string())
    );
    assert_eq!(
        led_pins(Some("1"), Some("256"), Some("z")),
        Err("AETHER_LED_GREEN_PIN is not a valid u8".to_string())
    );
    assert_eq!(
        led_pins(Some("1"), Some("2"), Some(" 3")),
        Err("AETHER_LED_BLUE_PIN is not a valid u8".to_string())
    );
}

#[test]
fn panic_button_pin_is_optional() {
    assert_eq!(panic_button_pin(None), Ok(None));
    assert_eq!(panic_button_pin(Some("26")), Ok(Some(26)));
    assert_eq!(
        panic_button_pin(Some("-1")),
        Err("AETHER_PANIC_BUTTON_PIN is not a valid u8".to_string())
    );
}

#[test]
fn pins_parse_like_u8() {
    for s in ["0", "255", "+7", "007", "", "+", "256", "1 ", "a"] {
        assert_eq!(parse_pin(s), s.parse::<u8>().ok(), "input {s:?}");
    }
}
