use aether::dispatch::{dispatch_step, SkillStep};

#[test]
fn replies_needing_no_outside_work_are_made_directly() {
    match dispatch_step("pause_music", None, None) {
        SkillStep::Reply(r) => {
            assert_eq!(r.spoken_reply, "Music paused.");
            assert_eq!(r.music_command.unwrap().action, "pause");
        }
        _ => panic!("pause_music should reply"),
    }
    match dispatch_step("respond", None, Some("Hello there")) {
        SkillStep::Reply(r) => assert_eq!(r.spoken_reply, "Hello there"),
        _ => panic!("respond should reply"),
    }
    match dispatch_step("respond", None, None) {
        SkillStep::Reply(r) => assert_eq!(r.spoken_reply, "Okay."),
        _ => panic!("respond should reply"),
    }
    match dispatch_step("fly_to_the_moon", None, None) {
        SkillStep::Reply(r) => assert_eq!(r.spoken_reply, "Sorry, I don't know how to do that yet."),
        _ => panic!("an unknown action gets the fallback reply"),
    }
}

#[test]
fn other_skills_name_their_work() {
    assert!(matches!(dispatch_step("play_music", None, None), SkillStep::PlayMusic));
    assert!(matches!(dispatch_step("lights_on", None, None), SkillStep::Lights { on: true }));
    assert!(matches!(dispatch_step("lights_off", None, None), SkillStep::Lights { on: false }));
    assert!(matches!(dispatch_step("weather", None, None), SkillStep::Weather));
    assert!(matches!(dispatch_step("volume_down", None, None), SkillStep::Volume { up: false }));
    match dispatch_step("set_timer", Some(90), None) {
        SkillStep::StartTimer { result, seconds, label } => {
            assert_eq!(seconds, 90);
            assert_eq!(label, "1 minute and 30 seconds");
            assert_eq!(result.spoken_reply, "Timer set for 1 minute and 30 seconds.");
        }
        _ => panic!("set_timer should start a timer"),
    }
}

use aether::dispatch::{dispatched_params, param_text, ParamValue};

#[test]
fn model_reply_text_is_dispatched_under_response() {
    let given = vec![
        ("room".to_string(), ParamValue::Text("kitchen".to_string())),
        ("response".to_string(), ParamValue::Json("42".to_string())),
        ("duration_seconds".to_string(), ParamValue::Json("90".to_string())),
    ];
    let params = dispatched_params(Some(given), "Turning on the kitchen lights.".to_string());
    assert_eq!(params.len(), 3);
    assert_eq!(params[0].0, "room");
    assert_eq!(params[1].0, "duration_seconds");
    assert_eq!(params[2].0, "response");
    assert_eq!(param_text(&params, "response"), Some("Turning on the kitchen lights.".to_string()));
    assert_eq!(param_text(&params, "room"), Some("kitchen".to_string()));
    assert_eq!(param_text(&params, "duration_seconds"), None);

    let only = dispatched_params(None, "Hello!".to_string());
    assert_eq!(only.len(), 1);
    assert_eq!(param_text(&only, "response"), Some("Hello!".to_string()));
}
