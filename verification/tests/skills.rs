use aether::skills::{
    friendly_duration, navidrome_port, normalize_room, parse_volume_pct, set_timer, timer_up,
    volume_command_args, volume_result, wmo_description,
};

#[test]
fn friendly_duration_seconds_only() {
    assert_eq!(friendly_duration(1), "1 second");
    assert_eq!(friendly_duration(30), "30 seconds");
    assert_eq!(friendly_duration(59), "59 seconds");
}

#[test]
fn friendly_duration_minutes_only() {
    assert_eq!(friendly_duration(60), "1 minute");
    assert_eq!(friendly_duration(300), "5 minutes");
    assert_eq!(friendly_duration(3600 - 60), "59 minutes");
}

#[test]
fn friendly_duration_minutes_and_seconds() {
    assert_eq!(friendly_duration(61), "1 minute and 1 second");
    assert_eq!(friendly_duration(90), "1 minute and 30 seconds");
    assert_eq!(friendly_duration(125), "2 minutes and 5 seconds");
}

#[test]
fn friendly_duration_hours_only() {
    assert_eq!(friendly_duration(3600), "1 hour");
    assert_eq!(friendly_duration(7200), "2 hours");
}

#[test]
fn friendly_duration_hours_and_minutes() {
    assert_eq!(friendly_duration(3660), "1 hour and 1 minute");
    assert_eq!(friendly_duration(5400), "1 hour and 30 minutes");
    assert_eq!(friendly_duration(3661), "1 hour and 1 minute");
}

#[test]
fn friendly_duration_zero_and_large() {
    assert_eq!(friendly_duration(0), "0 seconds");
    assert_eq!(friendly_duration(90000), "25 hours");
}

fn amixer_output(pct: u8) -> String {
    format!(
        "Simple mixer control 'Master',0\n\
         Capabilities: pvolume pvolume-joined pswitch pswitch-joined\n\
         Playback channels: Mono\n\
         Limits: Playback 0 - 65536\n\
         Mono: Playback 43384 [{pct}%] [on]\n"
    )
}

#[test]
fn parse_volume_pct_extracts_percentage() {
    assert_eq!(parse_volume_pct(&amixer_output(66)), Some(66));
    assert_eq!(parse_volume_pct(&amixer_output(0)), Some(0));
    assert_eq!(parse_volume_pct(&amixer_output(100)), Some(100));
    assert_eq!(parse_volume_pct("no brackets here"), None);
}

#[test]
fn parse_volume_pct_edge_cases() {
    assert_eq!(parse_volume_pct("[ 42 %]"), Some(42));
    assert_eq!(parse_volume_pct("[300%]"), None);
    assert_eq!(parse_volume_pct("[42]"), None);
    assert_eq!(parse_volume_pct("[+7%]"), Some(7));
}

#[test]
fn volume_up_includes_percentage_in_reply() {
    let out = amixer_output(70);
    let r = volume_result(true, Some(&out));
    assert!(r.spoken_reply.contains("up"), "{}", r.spoken_reply);
    assert!(r.spoken_reply.contains("70%"), "{}", r.spoken_reply);
    assert_eq!(r.spoken_reply, "Volume up, now at 70%.");
}

#[test]
fn volume_down_includes_percentage_in_reply() {
    let out = amixer_output(40);
    let r = volume_result(false, Some(&out));
    assert!(r.spoken_reply.contains("down"), "{}", r.spoken_reply);
    assert!(r.spoken_reply.contains("40%"), "{}", r.spoken_reply);
}

#[test]
fn volume_skill_handles_amixer_failure() {
    let r = volume_result(true, None);
    assert!(r.spoken_reply.to_lowercase().contains("sorry"), "{}", r.spoken_reply);
}

#[test]
fn volume_skill_uses_config_control_and_step() {
    let args = volume_command_args("PCM", 15, true);
    assert_eq!(args, ["sset", "PCM", "15%+", "unmute"]);
    let args = volume_command_args("Master", 10, false);
    assert_eq!(args, ["sset", "Master", "10%-", "unmute"]);
}

#[test]
fn volume_reply_without_percentage() {
    assert_eq!(volume_result(false, Some("done")).spoken_reply, "Volume down.");
}

#[test]
fn timer_skill_uses_duration_param() {
    let (r, secs, label) = set_timer(Some(120));
    assert!(r.spoken_reply.contains("2 minutes"), "{}", r.spoken_reply);
    assert_eq!(secs, 120);
    assert_eq!(label, "2 minutes");
}

#[test]
fn timer_skill_defaults_to_60s_when_param_missing() {
    let (r, secs, _) = set_timer(None);
    assert!(r.spoken_reply.contains("1 minute"), "{}", r.spoken_reply);
    assert_eq!(secs, 60);
    assert_eq!(r.spoken_reply, "Timer set for 1 minute.");
}

#[test]
fn timer_up_message_names_the_timer() {
    assert_eq!(timer_up("5 minutes"), "Your 5 minutes timer is up.");
}

#[test]
fn wmo_codes_describe_conditions() {
    assert_eq!(wmo_description(0), "clear sky");
    assert_eq!(wmo_description(2), "partly cloudy");
    assert_eq!(wmo_description(48), "foggy");
    assert_eq!(wmo_description(99), "thunderstorm with hail");
    assert_eq!(wmo_description(42), "unknown conditions");
}

#[test]
fn navidrome_port_from_url() {
    assert_eq!(navidrome_port(Some("http://navidrome:4533")), 4533);
    assert_eq!(navidrome_port(Some("http://host:8080")), 8080);
    assert_eq!(navidrome_port(Some("http://host")), 4533);
    assert_eq!(navidrome_port(None), 4533);
    assert_eq!(navidrome_port(Some("http://host:99999")), 4533);
}

#[test]
fn room_names_become_entity_slugs() {
    assert_eq!(normalize_room("Living Room"), "living_room");
}

use aether::skills::{light_service_endpoint, light_target, lights_not_configured, lights_outcome, no_default_light};

#[test]
fn named_room_uses_the_room_map_or_builds_an_entity() {
    assert_eq!(light_target(Some("Living Room"), None, Some("light.hall")), Some("light.living_room".to_string()));
    assert_eq!(
        light_target(Some("Bedroom"), Some("light.bedroom_main".to_string()), None),
        Some("light.bedroom_main".to_string())
    );
}

#[test]
fn without_a_room_the_default_entity_is_used() {
    assert_eq!(light_target(None, None, Some("light.hall")), Some("light.hall".to_string()));
    assert_eq!(light_target(Some(""), None, Some("light.hall")), Some("light.hall".to_string()));
    assert_eq!(light_target(None, None, None), None);
}

#[test]
fn light_service_and_replies() {
    assert_eq!(light_service_endpoint("http://ha:8123", true), "http://ha:8123/api/services/light/turn_on");
    assert_eq!(light_service_endpoint("http://ha:8123", false), "http://ha:8123/api/services/light/turn_off");
    assert_eq!(lights_outcome(true, Some(true)).spoken_reply, "Lights on.");
    assert_eq!(lights_outcome(false, Some(true)).spoken_reply, "Lights off.");
    assert_eq!(
        lights_outcome(true, Some(false)).spoken_reply,
        "Home Assistant returned an error — check the entity ID in Settings."
    );
    assert_eq!(lights_outcome(true, None).spoken_reply, "Couldn't reach Home Assistant.");
    assert_eq!(lights_not_configured().spoken_reply, "Home Assistant isn't configured yet — set it up in Skills Settings.");
    assert_eq!(no_default_light().spoken_reply, "Please configure a default light entity in Skills Settings.");
}

#[test]
fn volume_percent_skips_fields_of_other_forms() {
    assert_eq!(parse_volume_pct("Mono: Playback [on] [50%]"), Some(50));
    assert_eq!(parse_volume_pct("Mono: Playback 43384 [66%] [on]"), Some(66));
    assert_eq!(parse_volume_pct("[ 7% ]"), None);
    assert_eq!(parse_volume_pct("[ 7%]"), Some(7));
    assert_eq!(parse_volume_pct("[300%] [40%]"), Some(40));
    assert_eq!(parse_volume_pct("[50%"), None);
}

use aether::skills::{light_target_in, lookup_room};

#[test]
fn room_map_entries_are_found_by_slug() {
    let map = vec![
        ("kitchen".to_string(), "light.kitchen_ceiling".to_string()),
        ("living_room".to_string(), "light.lounge".to_string()),
    ];
    assert_eq!(lookup_room(&map, "living_room"), Some("light.lounge".to_string()));
    assert_eq!(lookup_room(&map, "garage"), None);
    assert_eq!(
        light_target_in(Some("Living Room"), &map, None),
        Some("light.lounge".to_string())
    );
    assert_eq!(light_target_in(Some("Garage"), &map, None), Some("light.garage".to_string()));
    assert_eq!(light_target_in(None, &map, Some("light.hall")), Some("light.hall".to_string()));
    assert_eq!(light_target_in(None, &map, None), None);
}

use aether::skills::{weather_failure, weather_location_check, weather_reply};

#[test]
fn weather_asks_for_a_location_until_both_coordinates_are_set() {
    let r = weather_location_check(false, false).unwrap();
    assert!(r.spoken_reply.contains("location"));
    assert_eq!(r.spoken_reply, "Weather needs your location set in Skills Settings.");
    assert!(weather_location_check(true, false).is_some());
    assert!(weather_location_check(false, true).is_some());
    assert!(weather_location_check(true, true).is_none());
}

#[test]
fn weather_report_names_place_condition_and_numbers() {
    let r = weather_reply(Some("London"), 2, "15", "12");
    assert_eq!(r.spoken_reply, "Currently in London: partly cloudy, 15°C, wind 12 km/h.");
    let r = weather_reply(None, 1234, "-3", "40");
    assert_eq!(r.spoken_reply, "Currently in your location: unknown conditions, -3°C, wind 40 km/h.");
    assert!(weather_failure(true).spoken_reply.to_lowercase().contains("sorry"));
    assert_eq!(
        weather_failure(false).spoken_reply,
        "Sorry, the weather data came back in an unexpected format."
    );
}
