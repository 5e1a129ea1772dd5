//! Shared data types passed between the nodes and the skills.
use vstd::prelude::*;

verus! {

/// A music playback instruction returned by a music skill for the edge node.
#[derive(Debug, Clone)]
pub struct MusicCommandResult {
    /// `"play"`, `"pause"` or `"stop"`.
    pub action: String,
    pub stream_url: String,
    pub title: String,
    pub artist: String,
}

/// Outcome returned by a skill handler.
#[derive(Debug, Clone)]
pub struct SkillResult {
    /// Text the TTS engine should speak back to the user.
    pub spoken_reply: String,
    /// A playback instruction for the edge node, if any.
    pub music_command: Option<MusicCommandResult>,
}

impl SkillResult {
    /// A result that only speaks `text`.
    pub fn speak(text: String) -> (r: SkillResult)
        ensures
            r.spoken_reply == text,
            r.music_command is None,
    {
        SkillResult { spoken_reply: text, music_command: None }
    }
}

/// State broadcast by the edge node; auxiliary nodes mirror this.
#[derive(Debug, Clone, Copy, PartialEq, Eq, Structural)]
pub enum NodeState {
    Idle,
    Listening,
    Processing,
    Error,
}

/// The name of a state, as it is shown and serialised.
pub open spec fn state_name(s: NodeState) -> Seq<char> {
    match s {
        NodeState::Idle => "Idle"@,
        NodeState::Listening => "Listening"@,
        NodeState::Processing => "Processing"@,
        NodeState::Error => "Error"@,
    }
}

impl NodeState {
    /// The name of the state, as it is shown on the dashboard.
    pub fn name(&self) -> (s: &'static str)
        ensures
            s@ == state_name(*self),
    {
        match self {
            NodeState::Idle => "Idle",
            NodeState::Listening => "Listening",
            NodeState::Processing => "Processing",
            NodeState::Error => "Error",
        }
    }
}

/// A state change of one node.
#[derive(Debug, Clone)]
pub struct NodeStateEvent {
    pub node_id: String,
    pub state: NodeState,
}

} // verus!
