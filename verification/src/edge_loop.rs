//! The edge node's main loop as a state machine: it idles listening for the
//! wake word, then streams audio to the brain until the stream ends, fails or
//! is killed. The caller captures audio, runs the detector, drives the stream
//! and publishes the states; this module decides what happens next.
use vstd::prelude::*;
use crate::types::NodeState;

verus! {

/// Where the loop is.
#[derive(Debug, Clone, Copy, PartialEq, Eq, Structural)]
pub enum EdgePhase {
    /// Listening for the wake word; no stream is open.
    Idle,
    /// A stream to the brain is open and captured audio is forwarded to it.
    Streaming,
}

/// What happened.
#[derive(Debug, Clone, Copy, PartialEq, Eq, Structural)]
pub enum EdgeEvent {
    /// A chunk of audio was captured; `wake` tells whether the wake-word
    /// detector fired on it (only looked at while idle).
    Audio { wake: bool },
    /// The kill signal (panic button) fired.
    Kill,
    /// The brain closed the stream, or it failed.
    StreamEnded,
    /// Forwarding audio to the stream failed: its receiver is gone.
    ForwardFailed,
}

/// What to do about it.
#[derive(Debug, Clone, Copy, PartialEq, Eq, Structural)]
pub enum EdgeAction {
    /// Nothing.
    Wait,
    /// Publish `Listening`, open a stream to the brain, publish `Processing`.
    OpenStream,
    /// Forward the captured chunk to the open stream.
    Forward,
    /// Abort the open stream, then end it as `EndStream` does.
    AbortStream,
    /// Reload the wake-word detector if a model update arrived during the
    /// stream, then publish `Idle`.
    EndStream,
}

/// The next phase and action for `event` in `phase`.
pub open spec fn step_of(phase: EdgePhase, event: EdgeEvent) -> (EdgePhase, EdgeAction) {
    match phase {
        EdgePhase::Idle => match event {
            EdgeEvent::Audio { wake: true } => (EdgePhase::Streaming, EdgeAction::OpenStream),
            _ => (EdgePhase::Idle, EdgeAction::Wait),
        },
        EdgePhase::Streaming => match event {
            EdgeEvent::Audio { .. } => (EdgePhase::Streaming, EdgeAction::Forward),
            EdgeEvent::Kill => (EdgePhase::Idle, EdgeAction::AbortStream),
            EdgeEvent::StreamEnded => (EdgePhase::Idle, EdgeAction::EndStream),
            EdgeEvent::ForwardFailed => (EdgePhase::Idle, EdgeAction::EndStream),
        },
    }
}

/// Decide the next phase and action. While idle only the wake word matters
/// (a kill signal is ignored: nothing is running); while streaming, audio is
/// forwarded until the stream ends, forwarding fails or the kill signal
/// aborts it.
pub fn edge_step(phase: EdgePhase, event: EdgeEvent) -> (r: (EdgePhase, EdgeAction))
    ensures
        r == step_of(phase, event),
{
    match phase {
        EdgePhase::Idle => match event {
            EdgeEvent::Audio { wake } => if wake {
                (EdgePhase::Streaming, EdgeAction::OpenStream)
            } else {
                (EdgePhase::Idle, EdgeAction::Wait)
            },
            _ => (EdgePhase::Idle, EdgeAction::Wait),
        },
        EdgePhase::Streaming => match event {
            EdgeEvent::Audio { .. } => (EdgePhase::Streaming, EdgeAction::Forward),
            EdgeEvent::Kill => (EdgePhase::Idle, EdgeAction::AbortStream),
            EdgeEvent::StreamEnded => (EdgePhase::Idle, EdgeAction::EndStream),
            EdgeEvent::ForwardFailed => (EdgePhase::Idle, EdgeAction::EndStream),
        },
    }
}

/// The states an action publishes, in order.
pub open spec fn published_by(a: EdgeAction) -> Seq<NodeState> {
    match a {
        EdgeAction::OpenStream => seq![NodeState::Listening, NodeState::Processing],
        EdgeAction::AbortStream => seq![NodeState::Idle],
        EdgeAction::EndStream => seq![NodeState::Idle],
        _ => Seq::empty(),
    }
}

/// The states an action publishes, in order.
pub fn states_to_publish(a: EdgeAction) -> (v: Vec<NodeState>)
    ensures
        v@ == published_by(a),
{
    let mut v: Vec<NodeState> = Vec::new();
    match a {
        EdgeAction::OpenStream => {
            v.push(NodeState::Listening);
            v.push(NodeState::Processing);
        },
        EdgeAction::AbortStream | EdgeAction::EndStream => {
            v.push(NodeState::Idle);
        },
        _ => {},
    }
    v
}

/// The phase after `events`, starting idle.
pub open spec fn phase_after(events: Seq<EdgeEvent>) -> EdgePhase
    decreases events.len(),
{
    if events.len() == 0 {
        EdgePhase::Idle
    } else {
        step_of(phase_after(events.drop_last()), events.last()).0
    }
}

/// Every state published while handling `events`, starting idle (after the
/// initial `Idle`).
pub open spec fn published_after(events: Seq<EdgeEvent>) -> Seq<NodeState>
    decreases events.len(),
{
    if events.len() == 0 {
        Seq::empty()
    } else {
        published_after(events.drop_last()) + published_by(
            step_of(phase_after(events.drop_last()), events.last()).1,
        )
    }
}

/// The published states follow the node's life, whatever happens: while a
/// stream is open the last two states published are `Listening` then
/// `Processing`; while idle the last one is `Idle` (or nothing was published
/// yet); and streams never overlap: one is opened only from idle and ended
/// or aborted only while open.
pub proof fn lemma_published_states_follow_phase(events: Seq<EdgeEvent>)
    ensures
        ({
            let p = published_after(events);
            &&& phase_after(events) == EdgePhase::Streaming ==> p.len() >= 2 && p.last()
                == NodeState::Processing && p[p.len() - 2] == NodeState::Listening
            &&& phase_after(events) == EdgePhase::Idle ==> p.len() == 0 || p.last()
                == NodeState::Idle
        }),
        forall|i: int|
            0 <= i < events.len() ==> (#[trigger] step_of(
                phase_after(events.take(i)),
                events[i],
            ).1 == EdgeAction::OpenStream ==> phase_after(events.take(i)) == EdgePhase::Idle),
        forall|i: int|
            0 <= i < events.len() ==> ((#[trigger] step_of(
                phase_after(events.take(i)),
                events[i],
            ).1 == EdgeAction::EndStream || step_of(phase_after(events.take(i)), events[i]).1
                == EdgeAction::AbortStream) ==> phase_after(events.take(i)) == EdgePhase::Streaming),
    decreases events.len(),
{
    if events.len() > 0 {
        let pre = events.drop_last();
        lemma_published_states_follow_phase(pre);
        assert forall|i: int|
            0 <= i < events.len() implies (#[trigger] step_of(
                phase_after(events.take(i)),
                events[i],
            ).1 == EdgeAction::OpenStream ==> phase_after(events.take(i)) == EdgePhase::Idle) by {
            if i < pre.len() {
                assert(events.take(i) =~= pre.take(i));
                assert(events[i] == pre[i]);
            }
        }
        assert forall|i: int|
            0 <= i < events.len() implies ((#[trigger] step_of(
                phase_after(events.take(i)),
                events[i],
            ).1 == EdgeAction::EndStream || step_of(phase_after(events.take(i)), events[i]).1
                == EdgeAction::AbortStream) ==> phase_after(events.take(i)) == EdgePhase::Streaming) by {
            if i < pre.len() {
                assert(events.take(i) =~= pre.take(i));
                assert(events[i] == pre[i]);
            }
        }
    }
}

/// The action taken on the `i`-th of `events`, starting idle.
pub open spec fn action_at(events: Seq<EdgeEvent>, i: int) -> EdgeAction {
    step_of(phase_after(events.take(i)), events[i]).1
}

proof fn lemma_phase_step(events: Seq<EdgeEvent>, i: int)
    requires
        0 <= i < events.len(),
    ensures
        phase_after(events.take(i + 1)) == step_of(phase_after(events.take(i)), events[i]).0,
{
    assert(events.take(i + 1).drop_last() =~= events.take(i));
    assert(events.take(i + 1).last() == events[i]);
}

/// Whether the stream open after the first `i` events was opened by the
/// wake word at event `j`, with only forwarding since.
pub open spec fn opened_by_wake_at(events: Seq<EdgeEvent>, j: int, i: int) -> bool {
    &&& 0 <= j < i
    &&& events[j] == EdgeEvent::Audio { wake: true }
    &&& action_at(events, j) == EdgeAction::OpenStream
    &&& forall|k: int| j < k < i ==> #[trigger] action_at(events, k) == EdgeAction::Forward
}

proof fn lemma_streaming_was_opened_by_wake(events: Seq<EdgeEvent>, i: int)
    requires
        0 <= i <= events.len(),
        phase_after(events.take(i)) == EdgePhase::Streaming,
    ensures
        exists|j: int| opened_by_wake_at(events, j, i),
    decreases i,
{
    if i == 0 {
        assert(events.take(0) =~= Seq::<EdgeEvent>::empty());
    } else {
        lemma_phase_step(events, i - 1);
        let prev = phase_after(events.take(i - 1));
        if prev == EdgePhase::Idle {
            assert(opened_by_wake_at(events, i - 1, i));
        } else {
            let im = i - 1;
            lemma_streaming_was_opened_by_wake(events, im);
            let j = choose|j: int| opened_by_wake_at(events, j, im);
            assert(action_at(events, i - 1) == EdgeAction::Forward);
            assert(opened_by_wake_at(events, j, i));
        }
    }
}

/// Audio leaves the node only after the wake word: whenever captured audio
/// is forwarded to the brain, an earlier chunk triggered the wake word and
/// opened the stream, and since then every event only forwarded audio (the
/// stream was neither ended nor aborted in between).
pub proof fn lemma_audio_only_after_wake(events: Seq<EdgeEvent>, i: int)
    requires
        0 <= i < events.len(),
        action_at(events, i) == EdgeAction::Forward,
    ensures
        exists|j: int| opened_by_wake_at(events, j, i),
{
    lemma_streaming_was_opened_by_wake(events, i);
}

} // verus!
