use aether::pipeline::{
    begin_processing, chunk_in_order, close_stream, llm_action, open_stream, route_transcript,
    TranscriptRoute,
};
use aether::session::SessionTable;
use aether::trie::{CommandTrie, TrieAction};
use aether::types::NodeState;

#[test]
fn matched_command_is_dispatched_directly() {
    let trie = CommandTrie::default();
    assert_eq!(
        route_transcript(&trie, "could you play music please", true),
        TranscriptRoute::Direct(TrieAction::PlayMusic)
    );
    assert_eq!(
        route_transcript(&trie, "lights off", false),
        TranscriptRoute::Direct(TrieAction::LightsOff)
    );
}

#[test]
fn unmatched_transcript_goes_to_the_llm_when_configured() {
    let trie = CommandTrie::default();
    assert_eq!(route_transcript(&trie, "tell me a joke", true), TranscriptRoute::AskLlm);
    assert_eq!(route_transcript(&trie, "tell me a joke", false), TranscriptRoute::Silent);
    // A command still in progress is not a match either.
    assert_eq!(route_transcript(&trie, "turn", true), TranscriptRoute::AskLlm);
}

#[test]
fn llm_without_action_responds() {
    assert_eq!(llm_action(None), "respond");
    assert_eq!(llm_action(Some("weather".into())), "weather");
}

#[test]
fn chunks_are_checked_against_the_expected_number() {
    assert!(chunk_in_order(7, 7));
    assert!(!chunk_in_order(8, 7));
}

#[test]
fn stream_lifecycle_states() {
    let mut table = SessionTable::new();
    let events = open_stream(&mut table, "pi-1".into());
    assert_eq!(events.len(), 2);
    assert_eq!(events[0].state, NodeState::Idle);
    assert_eq!(events[1].state, NodeState::Listening);
    assert_eq!(table.state_of("pi-1"), Some(NodeState::Listening));

    let ev = begin_processing(&mut table, "pi-1").unwrap();
    assert_eq!(ev.state, NodeState::Processing);

    let events = close_stream(&mut table, "pi-1");
    assert_eq!(events.len(), 1);
    assert_eq!(events[0].node_id, "pi-1");
    assert_eq!(events[0].state, NodeState::Idle);
    assert_eq!(table.state_of("pi-1"), None);
    assert_eq!(table.count(), 0);
}

#[test]
fn closing_an_unknown_stream_emits_nothing() {
    let mut table = SessionTable::new();
    table.register("other".into());
    assert!(close_stream(&mut table, "pi-1").is_empty());
    assert_eq!(table.count(), 1);
    assert!(begin_processing(&mut table, "pi-1").is_none());
}

use aether::pipeline::{
    accept_stream, direct_replies, llm_replies, stream_node_id, transcript_only, BrainReply,
    StreamRefusal,
};

#[test]
fn stream_without_node_id_is_refused_and_registers_nothing() {
    let mut table = SessionTable::new();
    assert_eq!(accept_stream(&mut table, None).unwrap_err(), StreamRefusal::MissingNodeId);
    assert_eq!(table.count(), 0);
    let bad: &[u8] = &[b'p', 0xc3, 0xa9];
    assert_eq!(accept_stream(&mut table, Some(bad)).unwrap_err(), StreamRefusal::MissingNodeId);
    assert_eq!(table.count(), 0);
    assert_eq!(stream_node_id(Some(&[b'a', 10u8][..])), Err(StreamRefusal::MissingNodeId));
}

#[test]
fn stream_with_node_id_is_registered_listening() {
    let mut table = SessionTable::new();
    let (id, events) = accept_stream(&mut table, Some(b"pi-1".as_slice())).unwrap();
    assert_eq!(id, "pi-1");
    assert_eq!(events.len(), 2);
    assert_eq!(events[0].node_id, "pi-1");
    assert_eq!(events[0].state, NodeState::Idle);
    assert_eq!(events[1].state, NodeState::Listening);
    assert_eq!(table.state_of("pi-1"), Some(NodeState::Listening));
    let events = close_stream(&mut table, "pi-1");
    assert_eq!(events.len(), 1);
    assert_eq!(table.count(), 0);
}

#[test]
fn trie_match_replies_transcript_action_then_audio() {
    let wav = b"RIFF0000WAVE".to_vec();
    let replies = direct_replies("play some jazz".into(), TrieAction::PlayMusic, Some(wav.clone()));
    assert_eq!(replies.len(), 3);
    match &replies[0] {
        BrainReply::Transcript { text, is_final } => {
            assert_eq!(text, "play some jazz");
            assert!(*is_final);
        }
        other => panic!("unexpected first reply {:?}", other),
    }
    match &replies[1] {
        BrainReply::Action { action, params_json } => {
            assert_eq!(action, "play_music");
            assert_eq!(params_json, "{}");
        }
        other => panic!("unexpected second reply {:?}", other),
    }
    match &replies[2] {
        BrainReply::TtsAudio { wav: w } => assert!(w.starts_with(b"RIFF")),
        other => panic!("unexpected third reply {:?}", other),
    }
}

#[test]
fn llm_replies_default_to_respond_and_skip_missing_audio() {
    let replies = llm_replies("tell me a joke".into(), None, "{\"response\":\"hi\"}".into(), None);
    assert_eq!(replies.len(), 2);
    match &replies[1] {
        BrainReply::Action { action, params_json } => {
            assert_eq!(action, "respond");
            assert_eq!(params_json, "{\"response\":\"hi\"}");
        }
        other => panic!("unexpected reply {:?}", other),
    }
    let only = transcript_only("mumble".into());
    assert_eq!(only.len(), 1);
}
