//! The status LED of the edge node: which pattern each node state shows,
//! and which colour channels a pattern lights.
use vstd::prelude::*;
use crate::types::NodeState;
use crate::text::{chars_of, parse_unsigned, parse_unsigned_chars, push_str};

verus! {

/// Visual output pattern for the 3-colour status LED.
#[derive(Debug, Clone, Copy, PartialEq, Eq, Structural)]
pub enum LedPattern {
    Off,
    /// Solid green — node is idle and ready.
    SolidGreen,
    /// Pulsing blue — node is actively listening or processing speech.
    PulseBlue,
    /// Flashing red — error condition or Do-Not-Disturb mode.
    FlashRed,
}

/// The pattern shown for each node state.
pub open spec fn pattern_of(state: NodeState) -> LedPattern {
    match state {
        NodeState::Idle => LedPattern::SolidGreen,
        NodeState::Listening => LedPattern::PulseBlue,
        NodeState::Processing => LedPattern::PulseBlue,
        NodeState::Error => LedPattern::FlashRed,
    }
}

/// Map a `NodeState` to the correct LED pattern.
pub fn state_to_pattern(state: NodeState) -> (p: LedPattern)
    ensures
        p == pattern_of(state),
{
    match state {
        NodeState::Idle => LedPattern::SolidGreen,
        NodeState::Listening => LedPattern::PulseBlue,
        NodeState::Processing => LedPattern::PulseBlue,
        NodeState::Error => LedPattern::FlashRed,
    }
}

/// The (red, green, blue) pin levels that start a pattern.
pub open spec fn levels_of(p: LedPattern) -> (bool, bool, bool) {
    match p {
        LedPattern::Off => (false, false, false),
        LedPattern::SolidGreen => (false, true, false),
        LedPattern::PulseBlue => (false, false, true),
        LedPattern::FlashRed => (true, false, false),
    }
}

/// Which of the red, green and blue pins are driven high when `pattern`
/// is applied (pulsing and flashing start from these levels).
pub fn pattern_levels(pattern: LedPattern) -> (l: (bool, bool, bool))
    ensures
        l == levels_of(pattern),
{
    match pattern {
        LedPattern::Off => (false, false, false),
        LedPattern::SolidGreen => (false, true, false),
        LedPattern::PulseBlue => (false, false, true),
        LedPattern::FlashRed => (true, false, false),
    }
}

/// Every state lights exactly one colour, and only an error lights red.
pub proof fn lemma_every_state_lights_one_colour(state: NodeState)
    ensures
        ({
            let (r, g, b) = levels_of(pattern_of(state));
            &&& (r as int) + (g as int) + (b as int) == 1
            &&& r <==> state == NodeState::Error
        }),
{
}

// ── Pin configuration ─────────────────────────────────────────────────────────

/// A GPIO pin number as the environment gives it (`str::parse::<u8>`).
pub open spec fn pin_value(v: Seq<char>) -> Option<u8> {
    match parse_unsigned(v, 255) {
        Some(n) => Some(n as u8),
        None => None,
    }
}

/// Parse one pin number.
pub fn parse_pin(v: &str) -> (r: Option<u8>)
    ensures
        r == pin_value(v@),
{
    let cs = chars_of(v);
    assert(cs@.subrange(0, cs@.len() as int) =~= v@);
    match parse_unsigned_chars(cs.as_slice(), 0, cs.len(), 255) {
        Some(n) => Some(n as u8),
        None => None,
    }
}

fn invalid_pin(var: &str) -> (e: String)
    ensures
        e@ == var@ + " is not a valid u8"@,
{
    let mut e = String::new();
    push_str(&mut e, var);
    push_str(&mut e, " is not a valid u8");
    e
}

/// The red, green and blue LED pins from the values of `AETHER_LED_RED_PIN`,
/// `AETHER_LED_GREEN_PIN` and `AETHER_LED_BLUE_PIN`: none when any of them
/// is unset (the LED is then disabled); otherwise the pins, or an error
/// naming the first of them (red, green, blue) that is not a valid `u8`.
pub fn led_pins(red: Option<&str>, green: Option<&str>, blue: Option<&str>) -> (r: Result<
    Option<(u8, u8, u8)>,
    String,
>)
    ensures
        match (red, green, blue) {
            (Some(rv), Some(gv), Some(bv)) => match r {
                Ok(Some(pins)) => pin_value(rv@) == Some(pins.0) && pin_value(gv@) == Some(pins.1)
                    && pin_value(bv@) == Some(pins.2),
                Ok(None) => false,
                Err(e) => if pin_value(rv@) is None {
                    e@ == "AETHER_LED_RED_PIN is not a valid u8"@
                } else if pin_value(gv@) is None {
                    e@ == "AETHER_LED_GREEN_PIN is not a valid u8"@
                } else {
                    pin_value(bv@) is None && e@ == "AETHER_LED_BLUE_PIN is not a valid u8"@
                },
            },
            _ => r == Ok::<Option<(u8, u8, u8)>, String>(None),
        },
{
    match (red, green, blue) {
        (Some(r), Some(g), Some(b)) => {
            let rp = match parse_pin(r) {
                Some(p) => p,
                None => {
                    let e = invalid_pin("AETHER_LED_RED_PIN");
                    proof {
                        reveal_strlit("AETHER_LED_RED_PIN");
                        reveal_strlit(" is not a valid u8");
                        reveal_strlit("AETHER_LED_RED_PIN is not a valid u8");
                    }
                    assert(e@ =~= "AETHER_LED_RED_PIN is not a valid u8"@);
                    return Err(e);
                },
            };
            let gp = match parse_pin(g) {
                Some(p) => p,
                None => {
                    let e = invalid_pin("AETHER_LED_GREEN_PIN");
                    proof {
                        reveal_strlit("AETHER_LED_GREEN_PIN");
                        reveal_strlit(" is not a valid u8");
                        reveal_strlit("AETHER_LED_GREEN_PIN is not a valid u8");
                    }
                    assert(e@ =~= "AETHER_LED_GREEN_PIN is not a valid u8"@);
                    return Err(e);
                },
            };
            let bp = match parse_pin(b) {
                Some(p) => p,
                None => {
                    let e = invalid_pin("AETHER_LED_BLUE_PIN");
                    proof {
                        reveal_strlit("AETHER_LED_BLUE_PIN");
                        reveal_strlit(" is not a valid u8");
                        reveal_strlit("AETHER_LED_BLUE_PIN is not a valid u8");
                    }
                    assert(e@ =~= "AETHER_LED_BLUE_PIN is not a valid u8"@);
                    return Err(e);
                },
            };
            Ok(Some((rp, gp, bp)))
        },
        _ => Ok(None),
    }
}

/// The panic-button pin from the value of `AETHER_PANIC_BUTTON_PIN`: none
/// when it is unset (the button is then disabled), the pin, or an error
/// when it is not a valid `u8`.
pub fn panic_button_pin(value: Option<&str>) -> (r: Result<Option<u8>, String>)
    ensures
        match value {
            None => r == Ok::<Option<u8>, String>(None),
            Some(v) => match pin_value(v@) {
                Some(p) => r == Ok::<Option<u8>, String>(Some(p)),
                None => r matches Err(e) && e@ == "AETHER_PANIC_BUTTON_PIN is not a valid u8"@,
            },
        },
{
    match value {
        None => Ok(None),
        Some(v) => match parse_pin(v) {
            Some(p) => Ok(Some(p)),
            None => {
                let e = invalid_pin("AETHER_PANIC_BUTTON_PIN");
                proof {
                    reveal_strlit("AETHER_PANIC_BUTTON_PIN");
                    reveal_strlit(" is not a valid u8");
                    reveal_strlit("AETHER_PANIC_BUTTON_PIN is not a valid u8");
                }
                assert(e@ =~= "AETHER_PANIC_BUTTON_PIN is not a valid u8"@);
                Err(e)
            },
        },
    }
}

} // verus!
