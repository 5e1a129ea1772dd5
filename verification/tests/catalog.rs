use aether::catalog::{list, skill_info, skill_infos};

#[test]
fn list_is_sorted_by_action() {
    let infos = list();
    let actions: Vec<&str> = infos.iter().map(|i| i.action.as_str()).collect();
    assert_eq!(
        actions,
        vec![
            "lights_off",
            "lights_on",
            "pause_music",
            "play_music",
            "respond",
            "set_timer",
            "stop_music",
            "volume_down",
            "volume_up",
            "weather",
        ]
    );
    let mut sorted = actions.clone();
    sorted.sort();
    assert_eq!(actions, sorted);
}

#[test]
fn list_carries_descriptions_and_phrases() {
    let infos = list();
    let timer = infos.iter().find(|i| i.action == "set_timer").unwrap();
    assert_eq!(timer.description, "Set a countdown timer");
    assert_eq!(timer.example_phrases, vec!["set a timer for 5 minutes", "timer 30 seconds"]);
    let weather = infos.iter().find(|i| i.action == "weather").unwrap();
    assert_eq!(weather.example_phrases, vec!["what's the weather?", "is it raining?"]);
}

#[test]
fn unknown_skill_has_no_description() {
    let i = skill_info("teleport");
    assert_eq!(i.action, "teleport");
    assert_eq!(i.description, "No description");
    assert!(i.example_phrases.is_empty());
}

#[test]
fn infos_sort_any_names_in_byte_order() {
    let actions: Vec<String> =
        vec!["b".into(), "a_b".into(), "ab".into(), "a".into(), "B".into(), "é".into()];
    let infos = skill_infos(&actions);
    let got: Vec<&str> = infos.iter().map(|i| i.action.as_str()).collect();
    let mut want: Vec<&str> = actions.iter().map(|s| s.as_str()).collect();
    want.sort();
    assert_eq!(got, want);
}

use aether::catalog::{skill_for, SkillKind};

#[test]
fn known_action_is_dispatched() {
    assert_eq!(skill_for("play_music"), SkillKind::PlayMusic);
    assert_eq!(skill_for("set_timer"), SkillKind::SetTimer);
    assert_eq!(skill_for("volume_down"), SkillKind::VolumeDown);
    assert_eq!(skill_for("respond"), SkillKind::Respond);
}

#[test]
fn unknown_action_uses_fallback() {
    assert_eq!(skill_for("teleport"), SkillKind::Unknown);
    assert_eq!(skill_for(""), SkillKind::Unknown);
    assert_eq!(skill_for("Play_Music"), SkillKind::Unknown);
    assert!(aether::skills::unknown_action_reply().spoken_reply.contains("don't know"));
}

#[test]
fn every_listed_skill_is_dispatched_to_its_own_handler() {
    let kinds: Vec<SkillKind> = list().iter().map(|i| skill_for(&i.action)).collect();
    assert!(kinds.iter().all(|k| *k != SkillKind::Unknown));
    for (i, a) in kinds.iter().enumerate() {
        for b in &kinds[i + 1..] {
            assert_ne!(a, b);
        }
    }
}
