use aether::edge_loop::{edge_step, states_to_publish, EdgeAction, EdgeEvent, EdgePhase};
use aether::types::NodeState;

#[test]
fn idle_waits_for_the_wake_word() {
    assert_eq!(edge_step(EdgePhase::Idle, EdgeEvent::Audio { wake: false }), (EdgePhase::Idle, EdgeAction::Wait));
    assert_eq!(edge_step(EdgePhase::Idle, EdgeEvent::Kill), (EdgePhase::Idle, EdgeAction::Wait));
    assert_eq!(
        edge_step(EdgePhase::Idle, EdgeEvent::Audio { wake: true }),
        (EdgePhase::Streaming, EdgeAction::OpenStream)
    );
}

#[test]
fn streaming_forwards_until_the_stream_ends() {
    assert_eq!(
        edge_step(EdgePhase::Streaming, EdgeEvent::Audio { wake: true }),
        (EdgePhase::Streaming, EdgeAction::Forward)
    );
    assert_eq!(edge_step(EdgePhase::Streaming, EdgeEvent::StreamEnded), (EdgePhase::Idle, EdgeAction::EndStream));
    assert_eq!(edge_step(EdgePhase::Streaming, EdgeEvent::ForwardFailed), (EdgePhase::Idle, EdgeAction::EndStream));
    assert_eq!(edge_step(EdgePhase::Streaming, EdgeEvent::Kill), (EdgePhase::Idle, EdgeAction::AbortStream));
}

#[test]
fn published_states_follow_a_session() {
    let events = [
        EdgeEvent::Audio { wake: false },
        EdgeEvent::Audio { wake: true },
        EdgeEvent::Audio { wake: false },
        EdgeEvent::Kill,
        EdgeEvent::Audio { wake: true },
        EdgeEvent::StreamEnded,
    ];
    let mut phase = EdgePhase::Idle;
    let mut published = Vec::new();
    for e in events {
        let (next, action) = edge_step(phase, e);
        published.extend(states_to_publish(action));
        phase = next;
    }
    assert_eq!(phase, EdgePhase::Idle);
    assert_eq!(
        published,
        vec![
            NodeState::Listening,
            NodeState::Processing,
            NodeState::Idle,
            NodeState::Listening,
            NodeState::Processing,
            NodeState::Idle,
        ]
    );
}

#[test]
fn no_audio_is_forwarded_without_the_wake_word() {
    let mut phase = EdgePhase::Idle;
    for e in [EdgeEvent::Audio { wake: false }, EdgeEvent::Kill, EdgeEvent::StreamEnded, EdgeEvent::ForwardFailed, EdgeEvent::Audio { wake: false }] {
        let (next, action) = edge_step(phase, e);
        assert_ne!(action, EdgeAction::Forward);
        assert_ne!(action, EdgeAction::OpenStream);
        phase = next;
    }
    assert_eq!(phase, EdgePhase::Idle);
}

#[test]
fn panic_button_kills_the_stream() {
    let (next, action) = edge_step(EdgePhase::Streaming, EdgeEvent::Kill);
    assert_eq!((next, action), (EdgePhase::Idle, EdgeAction::AbortStream));
    assert_eq!(states_to_publish(action), vec![NodeState::Idle]);
}
