use aether::session::Session;
use aether::types::NodeState;
use aether::web_ui::{
    advance_stage, check_deploy, check_voice_training, check_wake_training, delete_voice_user,
    document_info, mark_voice_trained, new_voice_user, node_list, record_voice_sample,
    register_paired_node, remove_paired_node, remove_wake_sample, safe_file_name,
    samples_for_user, setup_status, wake_phrase, wake_samples_index, AppError, PairedNode,
    TrainWakeWordBody, TrainingRefusal, VoiceSample, WakeSample, WizardError, WizardStage,
    WizardState,
};

#[test]
fn wizard_advances_through_every_stage_then_refuses() {
    let mut w = WizardState::default();
    assert_eq!(w.stage, WizardStage::BrainCheck);
    assert_eq!(advance_stage(&mut w), Ok(WizardStage::Pairing));
    assert_eq!(advance_stage(&mut w), Ok(WizardStage::WakeWord));
    assert_eq!(advance_stage(&mut w), Ok(WizardStage::GoLive));
    assert_eq!(advance_stage(&mut w), Ok(WizardStage::Complete));
    assert_eq!(advance_stage(&mut w), Err(WizardError::AlreadyComplete));
    assert_eq!(w.stage, WizardStage::Complete);
    assert_eq!(WizardStage::GoLive.index(), 3);
}

#[test]
fn pairing_registry_adds_each_node_once() {
    let mut nodes: Vec<PairedNode> = Vec::new();
    assert!(register_paired_node(&mut nodes, "pi-1", "t1".into()));
    assert!(!register_paired_node(&mut nodes, "pi-1", "t2".into()));
    assert!(register_paired_node(&mut nodes, "pi-2", "t3".into()));
    assert_eq!(nodes.len(), 2);
    assert_eq!(nodes[0].paired_at, "t1");
    remove_paired_node(&mut nodes, "pi-1");
    assert_eq!(nodes.len(), 1);
    assert_eq!(nodes[0].node_id, "pi-2");
}

#[test]
fn node_list_marks_online_and_offline_nodes() {
    let paired = vec![
        PairedNode { node_id: "a".into(), paired_at: "t".into() },
        PairedNode { node_id: "b".into(), paired_at: "u".into() },
    ];
    let live = vec![
        Session { node_id: "b".into(), state: NodeState::Listening },
        Session { node_id: "c".into(), state: NodeState::Idle },
    ];
    let list = node_list(&paired, &live);
    assert_eq!(list.len(), 3);
    assert_eq!((list[0].node_id.as_str(), list[0].state.as_str(), list[0].online), ("a", "Offline", false));
    assert_eq!((list[1].node_id.as_str(), list[1].state.as_str(), list[1].online), ("b", "Listening", true));
    assert_eq!((list[2].node_id.as_str(), list[2].online), ("c", true));
    assert_eq!(list[2].paired_at, None);
}

#[test]
fn setup_status_reflects_registry_and_sessions() {
    let w = WizardState { stage: WizardStage::WakeWord, target_node_id: Some("pi".into()), wake_model_path: None };
    let paired = vec![PairedNode { node_id: "pi".into(), paired_at: "t".into() }];
    let st = setup_status(w, &paired, &[], true, true);
    assert!(st.node_paired);
    assert!(!st.node_online);
    assert!(!st.wake_model_ready);
    assert_eq!(st.stage_index, 2);
    assert!(!st.complete);
}

#[test]
fn train_wake_word_needs_three_samples_and_no_running_job() {
    assert_eq!(check_wake_training(0, false), Err(TrainingRefusal::TooFewSamples));
    assert_eq!(check_wake_training(2, false), Err(TrainingRefusal::TooFewSamples));
    assert_eq!(check_wake_training(3, true), Err(TrainingRefusal::AlreadyRunning));
    assert_eq!(check_wake_training(3, false), Ok(()));
}

#[test]
fn train_voice_needs_a_service_and_samples() {
    assert_eq!(check_voice_training(false, 5), Err(TrainingRefusal::NotConfigured));
    assert_eq!(check_voice_training(true, 0), Err(TrainingRefusal::NoSamples));
    assert_eq!(check_voice_training(true, 1), Ok(()));
    assert_eq!(check_deploy(false), Err(TrainingRefusal::NoModel));
    assert_eq!(check_deploy(true), Ok(()));
}

#[test]
fn voice_users_are_created_counted_trained_and_deleted() {
    let mut users = vec![new_voice_user("u1".into(), "Ann".into()), new_voice_user("u2".into(), "".into())];
    record_voice_sample(&mut users, "u2");
    record_voice_sample(&mut users, "u2");
    record_voice_sample(&mut users, "nobody");
    assert_eq!(users[1].sample_count, 2);
    assert_eq!(users[0].sample_count, 0);
    mark_voice_trained(&mut users, "u2", "now".into());
    assert!(users[1].trained);
    assert_eq!(users[1].trained_at.as_deref(), Some("now"));
    delete_voice_user(&mut users, "u1");
    assert_eq!(users.len(), 1);
    delete_voice_user(&mut users, "missing");
    assert_eq!(users.len(), 1);
}

#[test]
fn wake_samples_are_removed_by_id() {
    let mut samples = vec![
        WakeSample { id: "a".into(), filename: "a.wav".into(), duration_ms: 900, size_bytes: 10 },
        WakeSample { id: "b".into(), filename: "b.wav".into(), duration_ms: 800, size_bytes: 20 },
    ];
    assert!(remove_wake_sample(&mut samples, "zzz").is_none());
    let removed = remove_wake_sample(&mut samples, "a").unwrap();
    assert_eq!(removed.filename, "a.wav");
    assert_eq!(samples.len(), 1);
}

#[test]
fn samples_are_selected_per_user() {
    let s = |id: &str, user: &str| VoiceSample {
        id: id.into(),
        user_id: user.into(),
        transcript: "t".into(),
        filename: "f".into(),
    };
    let all = vec![s("1", "a"), s("2", "b"), s("3", "a")];
    let ids: Vec<String> = samples_for_user(&all, "a").into_iter().map(|v| v.id).collect();
    assert_eq!(ids, vec!["1", "3"]);
}

#[test]
fn documents_and_paths() {
    let d = document_info("notes.md".into(), 5000);
    assert_eq!(d.size_kb, 4);
    assert_eq!(d.status, "indexed");
    assert_eq!(safe_file_name("my file (1).txt"), "my_file__1_.txt");
    assert_eq!(wake_samples_index("/etc/aether"), "/etc/aether/wake_samples/index.json");
    assert_eq!(wake_samples_index("/etc/aether/"), "/etc/aether/wake_samples/index.json");
    assert_eq!(wake_phrase(TrainWakeWordBody { phrase: None }), "Hey Aether");
    assert_eq!(wake_phrase(TrainWakeWordBody { phrase: Some("Yo".into()) }), "Yo");
}

#[test]
fn app_errors_answer_500() {
    let e = AppError { message: "disk full".into() };
    assert_eq!(e.status(), 500);
    assert_eq!(e.body(), "Internal error: disk full");
}

use aether::web_ui::{
    add_voice_sample, new_wake_sample, voice_sample_file_name, wake_sample_file_name,
    VoiceTrainingState,
};

#[test]
fn wake_sample_names_keep_the_uploaded_extension() {
    assert_eq!(wake_sample_file_name("abc", "rec.wav"), "sample_abc.wav");
    assert_eq!(wake_sample_file_name("abc", "clip.tar.ogg"), "sample_abc.ogg");
    assert_eq!(wake_sample_file_name("abc", "noext"), "sample_abc.webm");
    assert_eq!(wake_sample_file_name("abc", ".hidden"), "sample_abc.webm");
}

#[test]
fn declared_duration_wins_over_the_header() {
    let mut wav = vec![0u8; 44 + 32_000];
    wav[22..24].copy_from_slice(&1u16.to_le_bytes());
    wav[24..28].copy_from_slice(&16_000u32.to_le_bytes());
    wav[34..36].copy_from_slice(&16u16.to_le_bytes());
    let s = new_wake_sample("id1".into(), Some("a.wav"), Some("1234"), &wav);
    assert_eq!(s.duration_ms, 1234);
    assert_eq!(s.filename, "sample_id1.wav");
    assert_eq!(s.size_bytes, 32_044);
    let s = new_wake_sample("id2".into(), None, Some("not a number"), &wav);
    assert_eq!(s.duration_ms, 1000);
    assert_eq!(s.filename, "sample_id2.webm");
    let s = new_wake_sample("id3".into(), Some("b.wav"), None, &wav);
    assert_eq!(s.duration_ms, 1000);
}

#[test]
fn voice_uploads_are_recorded_for_their_user() {
    let mut st = VoiceTrainingState::default();
    st.users.push(new_voice_user("u1".into(), "Ann".into()));
    let s = add_voice_sample(&mut st, "s1".into(), "u1".into(), "hello".into());
    assert_eq!(s.filename, "voice_u1_s1.wav");
    assert_eq!(voice_sample_file_name("u1", "s1"), "voice_u1_s1.wav");
    assert_eq!(st.active_samples.len(), 1);
    assert_eq!(st.users[0].sample_count, 1);
    add_voice_sample(&mut st, "s2".into(), "nobody".into(), "x".into());
    assert_eq!(st.active_samples.len(), 2);
    assert_eq!(st.users[0].sample_count, 1);
}

use aether::web_ui::{
    no_usable_samples, voice_training_progress, wake_training_progress, VoiceTrainingStep,
    WakeTrainingStep,
};

#[test]
fn wake_training_reports_its_steps() {
    let e = wake_training_progress(&WakeTrainingStep::Augmenting);
    assert_eq!((e.percent, e.message.as_str(), e.done, e.error), (10, "Generating TTS reference samples…", false, false));
    let e = wake_training_progress(&WakeTrainingStep::PreparingSamples);
    assert_eq!(e.percent, 30);
    let e = wake_training_progress(&WakeTrainingStep::BuildingReference { user: 3, synthetic: 5 });
    assert_eq!(e.message, "Building reference from 3 user + 5 TTS samples…");
    assert_eq!(e.percent, 55);
    let e = wake_training_progress(&WakeTrainingStep::Complete);
    assert_eq!((e.percent, e.done, e.error), (100, true, false));
    let e = wake_training_progress(&WakeTrainingStep::Failed { reason: no_usable_samples() });
    assert_eq!(e.message, "Training failed: no valid WAV samples found — re-record samples");
    assert_eq!((e.percent, e.done, e.error), (0, true, true));
}

#[test]
fn voice_training_reports_its_steps() {
    let e = voice_training_progress(&VoiceTrainingStep::Submitting);
    assert_eq!((e.percent, e.message.as_str()), (5, "Submitting to fine-tuning service…"));
    let e = voice_training_progress(&VoiceTrainingStep::Complete);
    assert_eq!((e.percent, e.done, e.error), (100, true, false));
    let e = voice_training_progress(&VoiceTrainingStep::Rejected { status: "500 Internal Server Error".into() });
    assert_eq!(e.message, "finetuning service returned 500 Internal Server Error");
    assert!(e.error);
    let e = voice_training_progress(&VoiceTrainingStep::Unreachable { error: "refused".into() });
    assert_eq!(e.message, "finetuning request failed: refused");
}

use aether::web_ui::{deployed_answer, train_voice_answer, train_wake_word_answer};

#[test]
fn wake_word_training_answers() {
    assert_eq!(
        train_wake_word_answer(0, false),
        (400, "{\"error\":\"need at least 3 samples to train\"}".to_string())
    );
    assert_eq!(
        train_wake_word_answer(2, true),
        (400, "{\"error\":\"need at least 3 samples to train\"}".to_string())
    );
    assert_eq!(
        train_wake_word_answer(3, true),
        (409, "{\"error\":\"training already in progress\"}".to_string())
    );
    assert_eq!(
        train_wake_word_answer(3, false),
        (200, "{\"status\":\"training started\"}".to_string())
    );
}

#[test]
fn voice_training_answers() {
    assert_eq!(
        train_voice_answer(false, 5),
        (503, "{\"error\":\"finetuning service not configured\"}".to_string())
    );
    assert_eq!(
        train_voice_answer(true, 0),
        (400, "{\"error\":\"no samples for this user\"}".to_string())
    );
    assert_eq!(train_voice_answer(true, 2), (200, "{\"status\":\"training started\"}".to_string()));
}

#[test]
fn deployment_answer_counts_nodes() {
    assert_eq!(deployed_answer(2), (200, "{\"deployed_to\":2,\"status\":\"deployed\"}".to_string()));
}

use aether::pipeline::TranscriptRoute;
use aether::trie::{CommandTrie, TrieAction};
use aether::web_ui::{skill_test_labels, skill_test_route};

#[test]
fn skill_tester_routes_queries() {
    let trie = CommandTrie::default();
    assert_eq!(
        skill_test_route(&trie, "play music", false),
        Ok(TranscriptRoute::Direct(TrieAction::PlayMusic))
    );
    assert_eq!(skill_test_route(&trie, "tell me a story", true), Ok(TranscriptRoute::AskLlm));
    assert_eq!(
        skill_test_route(&trie, "tell me a story", false),
        Err((502, "{\"error\":\"LLM not configured\"}".to_string()))
    );
    assert_eq!(skill_test_labels(true), ("trie", "trie"));
    assert_eq!(skill_test_labels(false), ("llm", "ollama"));
}
