use aether::session::{push_targets, SessionTable};
use aether::types::NodeState;

#[test]
fn register_then_unregister_counts_sessions() {
    let mut reg = SessionTable::new();
    reg.register("pi-1".into());
    reg.register("pi-2".into());
    assert_eq!(reg.count(), 2);
    assert!(reg.unregister("pi-1"));
    assert_eq!(reg.count(), 1);
    assert!(!reg.unregister("pi-1"));
}

#[test]
fn set_state_changes_the_session() {
    let mut reg = SessionTable::new();
    reg.register("pi-1".into());
    let ev = reg.set_state("pi-1", NodeState::Processing).unwrap();
    assert_eq!(ev.node_id, "pi-1");
    assert_eq!(ev.state, NodeState::Processing);
    assert_eq!(reg.state_of("pi-1"), Some(NodeState::Processing));
}

#[test]
fn register_emits_idle_event() {
    let mut reg = SessionTable::new();
    let ev = reg.register("pi-1".into());
    assert_eq!(ev.node_id, "pi-1");
    assert_eq!(ev.state, NodeState::Idle);
}

#[test]
fn set_state_of_unknown_node_changes_nothing() {
    let mut reg = SessionTable::new();
    assert!(reg.set_state("ghost", NodeState::Error).is_none());
    assert_eq!(reg.count(), 0);
    assert_eq!(reg.state_of("ghost"), None);
}

#[test]
fn re_registering_resets_to_idle() {
    let mut reg = SessionTable::new();
    reg.register("pi-1".into());
    reg.set_state("pi-1", NodeState::Listening);
    reg.register("pi-1".into());
    assert_eq!(reg.count(), 1);
    assert_eq!(reg.state_of("pi-1"), Some(NodeState::Idle));
}

#[test]
fn snapshot_lists_each_session_once() {
    let mut reg = SessionTable::new();
    reg.register("a".into());
    reg.register("b".into());
    reg.register("a".into());
    let mut ids: Vec<String> = reg.snapshot().into_iter().map(|s| s.node_id).collect();
    ids.sort();
    assert_eq!(ids, vec!["a", "b"]);
}

#[test]
fn push_targets_keep_requested_online_nodes() {
    let online = vec!["a".to_string(), "b".to_string(), "c".to_string()];
    assert_eq!(push_targets(&online, &[]), online);
    assert_eq!(push_targets(&online, &["c".to_string(), "x".to_string()]), vec!["c".to_string()]);
}

#[test]
fn sessions_of_other_nodes_are_untouched() {
    let mut reg = SessionTable::new();
    reg.register("a".into());
    reg.register("b".into());
    reg.set_state("b", NodeState::Processing);
    reg.set_state("a", NodeState::Error);
    reg.unregister("a");
    assert_eq!(reg.state_of("b"), Some(NodeState::Processing));
}
