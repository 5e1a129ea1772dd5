use aether::sse::take_sse_payloads;

#[test]
fn complete_events_are_taken_and_the_rest_kept() {
    let (payloads, rest) = take_sse_payloads("data: \"Idle\"\n\ndata: \"Listening\"\n\ndata: \"Proc");
    assert_eq!(payloads, vec!["\"Idle\"", "\"Listening\""]);
    assert_eq!(rest, "data: \"Proc");
}

#[test]
fn other_fields_are_ignored() {
    let (payloads, rest) = take_sse_payloads(": keep-alive\n\nevent: x\ndata: 1\nid: 7\n\n");
    assert_eq!(payloads, vec!["1"]);
    assert_eq!(rest, "");
}

#[test]
fn crlf_lines_are_read() {
    let (payloads, rest) = take_sse_payloads("data: a\r\ndata: b\n\n");
    assert_eq!(payloads, vec!["a", "b"]);
    assert_eq!(rest, "");
}

#[test]
fn nothing_complete_leaves_the_buffer() {
    let (payloads, rest) = take_sse_payloads("data: \"Idle\"\n");
    assert!(payloads.is_empty());
    assert_eq!(rest, "data: \"Idle\"\n");
    let (payloads, rest) = take_sse_payloads("");
    assert!(payloads.is_empty());
    assert_eq!(rest, "");
}
