use aether::history::{format_history, recent_turns, HistoryEntry, Role};

fn entry(role: Role, content: &str, t: i64) -> HistoryEntry {
    HistoryEntry { node_id: "pi-1".into(), role, content: content.into(), timestamp_us: t }
}

#[test]
fn format_history_produces_correct_lines() {
    let entries = vec![
        HistoryEntry {
            node_id: "pi-1".into(),
            role: Role::User,
            content: "What time is it?".into(),
            timestamp_us: 1,
        },
        HistoryEntry {
            node_id: "pi-1".into(),
            role: Role::Assistant,
            content: "It is noon.".into(),
            timestamp_us: 2,
        },
    ];
    let text = format_history(&entries);
    assert_eq!(text, "User: What time is it?\nAssistant: It is noon.");
}

#[test]
fn format_history_of_nothing_is_empty() {
    assert_eq!(format_history(&[]), "");
}

#[test]
fn recent_turns_sorted_chronologically() {
    let results = vec![entry(Role::Assistant, "second", 2), entry(Role::User, "first", 1)];
    let turns = recent_turns(results, 10);
    assert_eq!(turns[0].content, "first");
    assert_eq!(turns[1].content, "second");
}

#[test]
fn recent_turns_truncates_to_n() {
    let results: Vec<HistoryEntry> =
        (0..5).map(|i| entry(Role::User, &format!("turn {i}"), i)).collect();
    let turns = recent_turns(results, 3);
    assert_eq!(turns.len(), 3);
}

#[test]
fn recent_turns_keeps_the_latest_in_time_order() {
    let results = vec![
        entry(Role::User, "c", 30),
        entry(Role::User, "a1", 10),
        entry(Role::User, "b", 20),
        entry(Role::User, "a2", 10),
    ];
    let turns = recent_turns(results, 3);
    let contents: Vec<&str> = turns.iter().map(|t| t.content.as_str()).collect();
    assert_eq!(contents, vec!["a2", "b", "c"]);
    let turns = recent_turns(vec![entry(Role::User, "old", 0), entry(Role::User, "new", 1)], 1);
    assert_eq!(turns[0].content, "new");
}

#[test]
fn point_id_sorts_chronologically() {
    let a = HistoryEntry::point_id("pi-1", 1_000);
    let b = HistoryEntry::point_id("pi-1", 2_000);
    assert!(a < b, "earlier timestamp should sort before later");
}

#[test]
fn point_id_pads_timestamp_to_twenty_places() {
    assert_eq!(HistoryEntry::point_id("pi-1", 42), "pi-1_00000000000000000042");
    assert_eq!(HistoryEntry::point_id("n", -5), "n_-0000000000000000005");
}
