//! The brain's per-stream decisions: which session states an audio stream
//! goes through, whether chunks arrive in order, and how a final transcript
//! is answered (a command matched by the trie, the language model, or no
//! reply). The audio, transcription, model and synthesis calls themselves
//! are made by the caller.
use vstd::prelude::*;
use crate::session::SessionTable;
use crate::text::push_str;
use crate::trie::{action_name, classify_tokens, tokens_of, ClassifyResult, CommandTrie, TrieAction};
use crate::types::{NodeState, NodeStateEvent};

verus! {

/// How a final transcript is answered.
#[derive(Debug, Clone, Copy, PartialEq, Eq, Structural)]
pub enum TranscriptRoute {
    /// The trie matched a command: dispatch it directly, with no parameters.
    Direct(TrieAction),
    /// No command matched: ask the language model.
    AskLlm,
    /// No command matched and no language model is configured: no reply.
    Silent,
}

/// The route for a transcript whose tokens classify as `c`.
pub open spec fn route_of(c: ClassifyResult, llm_configured: bool) -> TranscriptRoute {
    match c {
        ClassifyResult::Match(a) => TranscriptRoute::Direct(a),
        _ => if llm_configured {
            TranscriptRoute::AskLlm
        } else {
            TranscriptRoute::Silent
        },
    }
}

/// Decide how to answer the final transcript `text`.
pub fn route_transcript(trie: &CommandTrie, text: &str, llm_configured: bool) -> (r: TranscriptRoute)
    ensures
        r == route_of(classify_tokens(trie@, tokens_of(text@)), llm_configured),
{
    match trie.classify(text) {
        ClassifyResult::Match(a) => TranscriptRoute::Direct(a),
        _ => if llm_configured {
            TranscriptRoute::AskLlm
        } else {
            TranscriptRoute::Silent
        },
    }
}

/// The action to dispatch for a language-model reply: the one it names, or
/// "respond" when it names none.
pub fn llm_action(action: Option<String>) -> (r: String)
    ensures
        r@ == match action {
            Some(a) => a@,
            None => "respond"@,
        },
{
    match action {
        Some(a) => a,
        None => {
            let mut r = String::new();
            push_str(&mut r, "respond");
            r
        },
    }
}

/// Whether the chunk numbered `seq` is the one expected next.
pub fn chunk_in_order(seq: u64, expected: u64) -> (b: bool)
    ensures
        b == (seq == expected),
{
    seq == expected
}

/// Open the stream of `node_id`: its session is (re)registered and set to
/// `Listening`. Returns the events to broadcast, in order.
pub fn open_stream(table: &mut SessionTable, node_id: String) -> (events: Vec<NodeStateEvent>)
    ensures
        final(table)@ == old(table)@.insert(node_id@, NodeState::Listening),
        events@.len() == 2,
        events@[0].node_id@ == node_id@ && events@[0].state == NodeState::Idle,
        events@[1].node_id@ == node_id@ && events@[1].state == NodeState::Listening,
{
    let mut id = String::new();
    push_str(&mut id, node_id.as_str());
    let first = table.register(node_id);
    let second = table.set_state(id.as_str(), NodeState::Listening);
    let mut events: Vec<NodeStateEvent> = Vec::new();
    events.push(first);
    match second {
        Some(e) => events.push(e),
        None => {},
    }
    events
}

/// Mark the stream of `node_id` as being transcribed. Returns the event to
/// broadcast, if its session is open.
pub fn begin_processing(table: &mut SessionTable, node_id: &str) -> (ev: Option<NodeStateEvent>)
    ensures
        old(table)@.contains_key(node_id@) ==> final(table)@ == old(table)@.insert(
            node_id@,
            NodeState::Processing,
        ),
        !old(table)@.contains_key(node_id@) ==> final(table)@ == old(table)@,
        ev is Some == old(table)@.contains_key(node_id@),
        ev matches Some(e) ==> e.node_id@ == node_id@ && e.state == NodeState::Processing,
{
    table.set_state(node_id, NodeState::Processing)
}

/// Close the stream of `node_id`: its session returns to `Idle` and is then
/// removed. Returns the events to broadcast (none when no session was open).
pub fn close_stream(table: &mut SessionTable, node_id: &str) -> (events: Vec<NodeStateEvent>)
    ensures
        final(table)@ == old(table)@.remove(node_id@),
        events@.len() == if old(table)@.contains_key(node_id@) {
            1int
        } else {
            0int
        },
        events@.len() == 1 ==> events@[0].node_id@ == node_id@ && events@[0].state
            == NodeState::Idle,
{
    let ev = table.set_state(node_id, NodeState::Idle);
    table.unregister(node_id);
    let mut events: Vec<NodeStateEvent> = Vec::new();
    match ev {
        Some(e) => events.push(e),
        None => {},
    }
    proof {
        assert(table@ =~= old(table)@.remove(node_id@)) by {
            if old(table)@.contains_key(node_id@) {
                assert(old(table)@.insert(node_id@, NodeState::Idle).remove(node_id@) =~= old(
                    table,
                )@.remove(node_id@));
            }
        }
    }
    events
}

/// A stream leaves no trace in the session table: opening and then closing
/// the stream of a node removes that node's session and changes no other.
pub proof fn lemma_stream_leaves_no_session(before: Map<Seq<char>, NodeState>, id: Seq<char>)
    ensures
        before.insert(id, NodeState::Listening).remove(id) == before.remove(id),
        before.insert(id, NodeState::Listening).insert(id, NodeState::Processing).remove(id)
            == before.remove(id),
{
    assert(before.insert(id, NodeState::Listening).remove(id) =~= before.remove(id));
    assert(before.insert(id, NodeState::Listening).insert(id, NodeState::Processing).remove(id)
        =~= before.remove(id));
}

// ── Accepting a stream ────────────────────────────────────────────────────────

/// Why an audio stream is refused.
#[derive(Debug, Clone, Copy, PartialEq, Eq, Structural)]
pub enum StreamRefusal {
    /// The stream carries no readable `x-node-id` metadata (answered
    /// Unauthenticated, "missing x-node-id metadata").
    MissingNodeId,
}

/// Whether a metadata byte is visible ASCII (or a tab), as a text metadata
/// value must be to be read as a string.
pub open spec fn visible_ascii(b: u8) -> bool {
    (32 <= b && b < 127) || b == 9
}

/// The node id a stream's `x-node-id` metadata value gives: its bytes as
/// text when there is one and all of them are visible ASCII.
pub open spec fn node_id_of(value: Option<Seq<u8>>) -> Option<Seq<char>> {
    match value {
        Some(v) => if forall|i: int| 0 <= i < v.len() ==> visible_ascii(#[trigger] v[i]) {
            Some(v.map_values(|b: u8| b as char))
        } else {
            None
        },
        None => None,
    }
}

/// The view of optional bytes.
pub open spec fn opt_bytes(o: Option<&[u8]>) -> Option<Seq<u8>> {
    match o {
        Some(v) => Some(v@),
        None => None,
    }
}

/// The node id of a stream whose `x-node-id` metadata holds `value`.
pub fn stream_node_id(value: Option<&[u8]>) -> (r: Result<String, StreamRefusal>)
    ensures
        match node_id_of(opt_bytes(value)) {
            Some(id) => r matches Ok(s) && s@ == id,
            None => r == Err::<String, StreamRefusal>(StreamRefusal::MissingNodeId),
        },
{
    if value.is_none() {
        return Err(StreamRefusal::MissingNodeId);
    }
    let v = value.unwrap();
    let mut s = String::new();
    let mut i: usize = 0;
    while i < v.len()
        invariant
            opt_bytes(value) == Some(v@),
            i <= v@.len(),
            forall|k: int| 0 <= k < i ==> visible_ascii(#[trigger] v@[k]),
            s@ == v@.take(i as int).map_values(|b: u8| b as char),
        decreases v.len() - i,
    {
        let b = v[i];
        if !((32 <= b && b < 127) || b == 9) {
            assert(!visible_ascii(v@[i as int]));
            return Err(StreamRefusal::MissingNodeId);
        }
        let c: char = b as char;
        crate::text::push_char(&mut s, c);
        i = i + 1;
        assert(s@ =~= v@.take(i as int).map_values(|b: u8| b as char));
    }
    assert(v@.take(v@.len() as int) =~= v@);
    Ok(s)
}

/// Accept an audio stream: refuse it, registering nothing, when it carries no
/// readable node id; otherwise open its session (`Listening`) and return the
/// node id with the events to broadcast.
pub fn accept_stream(table: &mut SessionTable, node_id_value: Option<&[u8]>) -> (r: Result<
    (String, Vec<NodeStateEvent>),
    StreamRefusal,
>)
    ensures
        match node_id_of(opt_bytes(node_id_value)) {
            None => r == Err::<(String, Vec<NodeStateEvent>), StreamRefusal>(
                StreamRefusal::MissingNodeId,
            ) && final(table)@ == old(table)@,
            Some(id) => r matches Ok((s, events)) && s@ == id && final(table)@ == old(table)@.insert(
                id,
                NodeState::Listening,
            ) && events@.len() == 2 && events@[0].node_id@ == id && events@[0].state
                == NodeState::Idle && events@[1].node_id@ == id && events@[1].state
                == NodeState::Listening,
        },
{
    match stream_node_id(node_id_value) {
        Err(e) => Err(e),
        Ok(id) => {
            let mut key = String::new();
            push_str(&mut key, id.as_str());
            let events = open_stream(table, key);
            Ok((id, events))
        },
    }
}

// ── Replies to a transcript ───────────────────────────────────────────────────

/// A message the brain sends back on an audio stream.
#[derive(Debug, Clone)]
pub enum BrainReply {
    /// The final transcript of what was said.
    Transcript { text: String, is_final: bool },
    /// The skill action dispatched, with its parameters as JSON.
    Action { action: String, params_json: String },
    /// The spoken reply, as WAV bytes.
    TtsAudio { wav: Vec<u8> },
}

/// The view of a reply: its kind (0 transcript, 1 action, 2 audio), its two
/// texts and its bytes.
pub open spec fn reply_view(r: BrainReply) -> (int, Seq<char>, Seq<char>, bool, Seq<u8>) {
    match r {
        BrainReply::Transcript { text, is_final } => (0, text@, Seq::empty(), is_final, Seq::empty()),
        BrainReply::Action { action, params_json } => (1, action@, params_json@, false, Seq::empty()),
        BrainReply::TtsAudio { wav } => (2, Seq::empty(), Seq::empty(), false, wav@),
    }
}

/// The replies to a final transcript `text` answered by `action` with
/// parameters `params` (none when no action is dispatched), followed by the
/// synthesised reply when speech synthesis produced one: the transcript
/// first, then the action, then the audio.
pub open spec fn replies_of(
    text: Seq<char>,
    action: Option<(Seq<char>, Seq<char>)>,
    wav: Option<Seq<u8>>,
) -> Seq<(int, Seq<char>, Seq<char>, bool, Seq<u8>)> {
    seq![(0int, text, Seq::<char>::empty(), true, Seq::<u8>::empty())] + match action {
        Some((a, p)) => seq![(1int, a, p, false, Seq::<u8>::empty())] + match wav {
            Some(w) => seq![(2int, Seq::<char>::empty(), Seq::<char>::empty(), false, w)],
            None => Seq::empty(),
        },
        None => Seq::empty(),
    }
}

/// The replies to a transcript the trie matched as `action`: the transcript,
/// the action by its snake-case name with parameters `{}`, then the audio.
pub fn direct_replies(text: String, action: TrieAction, wav: Option<Vec<u8>>) -> (v: Vec<BrainReply>)
    ensures
        v@.map_values(|r: BrainReply| reply_view(r)) == replies_of(
            text@,
            Some((action_name(action), "{}"@)),
            match wav {
                Some(w) => Some(w@),
                None => None,
            },
        ),
{
    let mut name = String::new();
    push_str(&mut name, action.as_str());
    let mut params = String::new();
    push_str(&mut params, "{}");
    replies(text, Some((name, params)), wav)
}

/// The replies to a transcript answered through the language model, which
/// chose `action` (none: "respond") with parameters `params_json`.
pub fn llm_replies(text: String, action: Option<String>, params_json: String, wav: Option<Vec<u8>>) -> (v:
    Vec<BrainReply>)
    ensures
        v@.map_values(|r: BrainReply| reply_view(r)) == replies_of(
            text@,
            Some(
                (
                    match action {
                        Some(a) => a@,
                        None => "respond"@,
                    },
                    params_json@,
                ),
            ),
            match wav {
                Some(w) => Some(w@),
                None => None,
            },
        ),
{
    let a = llm_action(action);
    replies(text, Some((a, params_json)), wav)
}

/// The replies to a transcript no action answers: the transcript alone.
pub fn transcript_only(text: String) -> (v: Vec<BrainReply>)
    ensures
        v@.map_values(|r: BrainReply| reply_view(r)) == replies_of(text@, None, None),
{
    replies(text, None, None)
}

fn replies(text: String, action: Option<(String, String)>, wav: Option<Vec<u8>>) -> (v: Vec<BrainReply>)
    ensures
        v@.map_values(|r: BrainReply| reply_view(r)) == replies_of(
            text@,
            match action {
                Some((a, p)) => Some((a@, p@)),
                None => None,
            },
            match wav {
                Some(w) => Some(w@),
                None => None,
            },
        ),
{
    let mut v: Vec<BrainReply> = Vec::new();
    v.push(BrainReply::Transcript { text, is_final: true });
    match action {
        Some((a, p)) => {
            v.push(BrainReply::Action { action: a, params_json: p });
            match wav {
                Some(w) => v.push(BrainReply::TtsAudio { wav: w }),
                None => {},
            }
        },
        None => {},
    }
    assert(v@.map_values(|r: BrainReply| reply_view(r)) =~= replies_of(
        text@,
        match action {
            Some((a, p)) => Some((a@, p@)),
            None => None,
        },
        match wav {
            Some(w) => Some(w@),
            None => None,
        },
    ));
    v
}

} // verus!
