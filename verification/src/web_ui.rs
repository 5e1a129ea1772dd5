//! State behind the brain's web UI: the setup wizard, the paired-node
//! registry, the node listing, wake-word samples, voice users and the
//! checks that guard training requests, and the answers to them.
use vstd::prelude::*;
use crate::pipeline::{route_of, route_transcript, TranscriptRoute};
use crate::session::Session;
use crate::text::{alphanumeric, chars_of, decimal, is_alphanumeric, parse_unsigned, parse_unsigned_chars, push_char, push_decimal, push_str};
use crate::training::{duration_fits, wav_duration, wav_duration_ms};
use crate::trie::{classify_tokens, tokens_of, CommandTrie};
use crate::types::{state_name, NodeState};

verus! {

// ── Setup wizard ──────────────────────────────────────────────────────────────

/// The stages of the first-run setup wizard, in order.
#[derive(Debug, Clone, Copy, PartialEq, Eq, Structural)]
pub enum WizardStage {
    BrainCheck,
    Pairing,
    WakeWord,
    GoLive,
    Complete,
}

/// The position of a stage in the wizard.
pub open spec fn stage_index(s: WizardStage) -> nat {
    match s {
        WizardStage::BrainCheck => 0,
        WizardStage::Pairing => 1,
        WizardStage::WakeWord => 2,
        WizardStage::GoLive => 3,
        WizardStage::Complete => 4,
    }
}

/// The stage after `s`, if any.
pub open spec fn next_stage(s: WizardStage) -> Option<WizardStage> {
    match s {
        WizardStage::BrainCheck => Some(WizardStage::Pairing),
        WizardStage::Pairing => Some(WizardStage::WakeWord),
        WizardStage::WakeWord => Some(WizardStage::GoLive),
        WizardStage::GoLive => Some(WizardStage::Complete),
        WizardStage::Complete => None,
    }
}

impl WizardStage {
    /// The stage that follows this one; `None` once complete.
    pub fn next(&self) -> (r: Option<WizardStage>)
        ensures
            r == next_stage(*self),
    {
        match self {
            Self::BrainCheck => Some(Self::Pairing),
            Self::Pairing => Some(Self::WakeWord),
            Self::WakeWord => Some(Self::GoLive),
            Self::GoLive => Some(Self::Complete),
            Self::Complete => None,
        }
    }

    /// Zero-based position of the stage.
    pub fn index(&self) -> (i: usize)
        ensures
            i == stage_index(*self),
    {
        match self {
            Self::BrainCheck => 0,
            Self::Pairing => 1,
            Self::WakeWord => 2,
            Self::GoLive => 3,
            Self::Complete => 4,
        }
    }
}

/// Advancing moves exactly one position on; only the last stage has no
/// successor, and the index identifies the stage.
pub proof fn lemma_stages_advance_in_order(s: WizardStage, t: WizardStage)
    ensures
        next_stage(s) matches Some(n) ==> stage_index(n) == stage_index(s) + 1,
        next_stage(s) is None <==> s == WizardStage::Complete,
        stage_index(s) == stage_index(t) ==> s == t,
        stage_index(s) <= 4,
{
}

/// The wizard's progress, persisted between restarts.
#[derive(Debug, Clone)]
pub struct WizardState {
    pub stage: WizardStage,
    pub target_node_id: Option<String>,
    /// Path to the trained wake-word model on the brain (config dir).
    pub wake_model_path: Option<String>,
}

impl Default for WizardState {
    fn default() -> (w: Self)
        ensures
            w.stage == WizardStage::BrainCheck,
            w.target_node_id is None,
            w.wake_model_path is None,
    {
        Self { stage: WizardStage::BrainCheck, target_node_id: None, wake_model_path: None }
    }
}

/// Why a wizard request was refused.
#[derive(Debug, Clone, Copy, PartialEq, Eq, Structural)]
pub enum WizardError {
    /// The wizard is already complete.
    AlreadyComplete,
}

/// Move the wizard to its next stage and report the new stage.
pub fn advance_stage(wizard: &mut WizardState) -> (r: Result<WizardStage, WizardError>)
    ensures
        match next_stage(old(wizard).stage) {
            Some(n) => r == Ok::<WizardStage, WizardError>(n) && final(wizard).stage == n,
            None => r == Err::<WizardStage, WizardError>(WizardError::AlreadyComplete)
                && final(wizard).stage == old(wizard).stage,
        },
        final(wizard).target_node_id == old(wizard).target_node_id,
        final(wizard).wake_model_path == old(wizard).wake_model_path,
{
    match wizard.stage.next() {
        Some(n) => {
            wizard.stage = n;
            Ok(n)
        },
        None => Err(WizardError::AlreadyComplete),
    }
}

// ── Paired nodes ──────────────────────────────────────────────────────────────

/// A node that completed pairing, with the time it was paired.
#[derive(Debug, Clone)]
pub struct PairedNode {
    pub node_id: String,
    pub paired_at: String,
}

/// The node ids of a list of paired nodes.
pub open spec fn paired_ids(nodes: Seq<PairedNode>) -> Seq<Seq<char>> {
    nodes.map_values(|n: PairedNode| n.node_id@)
}

fn contains_node(nodes: &[PairedNode], node_id: &str) -> (b: bool)
    ensures
        b == paired_ids(nodes@).contains(node_id@),
{
    let key = String::from_str(node_id);
    let mut i: usize = 0;
    while i < nodes.len()
        invariant
            0 <= i <= nodes@.len(),
            key@ == node_id@,
            forall|k: int| 0 <= k < i ==> (#[trigger] nodes@[k]).node_id@ != node_id@,
        decreases nodes@.len() - i,
    {
        if nodes[i].node_id == key {
            assert(paired_ids(nodes@)[i as int] == node_id@);
            return true;
        }
        i = i + 1;
    }
    assert forall|k: int| 0 <= k < paired_ids(nodes@).len() implies paired_ids(nodes@)[k] != node_id@ by {
        assert(paired_ids(nodes@)[k] == nodes@[k].node_id@);
    }
    false
}

/// Add `node_id` to the registry, paired at `paired_at`, unless it is
/// already there. Tells whether it was added (and the registry must be saved).
pub fn register_paired_node(nodes: &mut Vec<PairedNode>, node_id: &str, paired_at: String) -> (added: bool)
    ensures
        added == !paired_ids(old(nodes)@).contains(node_id@),
        added ==> final(nodes)@.len() == old(nodes)@.len() + 1 && final(nodes)@.take(
            old(nodes)@.len() as int,
        ) == old(nodes)@ && final(nodes)@.last().node_id@ == node_id@ && final(nodes)@.last().paired_at
            == paired_at,
        !added ==> final(nodes)@ == old(nodes)@,
{
    if contains_node(nodes.as_slice(), node_id) {
        false
    } else {
        nodes.push(PairedNode { node_id: String::from_str(node_id), paired_at });
        assert(nodes@.take(old(nodes)@.len() as int) =~= old(nodes)@);
        true
    }
}

/// Remove every entry for `node_id` from the registry, keeping the others in order.
pub fn remove_paired_node(nodes: &mut Vec<PairedNode>, node_id: &str)
    ensures
        final(nodes)@ == old(nodes)@.filter(|n: PairedNode| n.node_id@ != node_id@),
{
    let ghost src = old(nodes)@;
    let key = String::from_str(node_id);
    let mut kept: Vec<PairedNode> = Vec::new();
    let mut all: Vec<PairedNode> = Vec::new();
    std::mem::swap(&mut all, nodes);
    let mut i: usize = 0;
    let n = all.len();
    // walk from the back so each node can be moved out
    let mut rev: Vec<PairedNode> = Vec::new();
    while all.len() > 0
        invariant
            all@ == src.take(all@.len() as int),
            all@.len() <= src.len(),
            rev@.reverse() == src.skip(all@.len() as int).filter(|n: PairedNode| n.node_id@ != key@),
            key@ == node_id@,
        decreases all@.len(),
    {
        let x = all.pop().unwrap();
        let k = all.len();
        let ghost tail = src.skip(k as int);
        assert(tail =~= seq![x] + src.skip(k + 1));
        assert(all@ =~= src.take(k as int));
        proof {
            lemma_filter_cons(x, src.skip(k + 1), |n: PairedNode| n.node_id@ != key@);
        }
        if x.node_id != key {
            let ghost before = rev@;
            rev.push(x);
            assert(rev@.reverse() =~= seq![x] + before.reverse());
        }
    }
    assert(src.skip(0) =~= src);
    while rev.len() > 0
        invariant
            kept@ + rev@.reverse() == src.filter(|n: PairedNode| n.node_id@ != key@),
            key@ == node_id@,
        decreases rev@.len(),
    {
        let ghost before_rev = rev@;
        let x = rev.pop().unwrap();
        assert(before_rev.reverse() =~= seq![x] + rev@.reverse());
        let ghost before = kept@;
        kept.push(x);
        assert(kept@ + rev@.reverse() =~= before + before_rev.reverse());
    }
    assert(kept@ + rev@.reverse() =~= kept@);
    *nodes = kept;
}

proof fn lemma_filter_cons<T>(x: T, s: Seq<T>, f: spec_fn(T) -> bool)
    ensures
        (seq![x] + s).filter(f) == if f(x) {
            seq![x] + s.filter(f)
        } else {
            s.filter(f)
        },
{
    s.lemma_filter_prepend(x, f);
    assert(seq![x] + s =~= s.insert(0, x));
    if f(x) {
        assert(s.filter(f).insert(0, x) =~= seq![x] + s.filter(f));
    }
}

// ── Node listing ──────────────────────────────────────────────────────────────

/// A node as listed in the UI.
#[derive(Debug)]
pub struct NodeInfo {
    pub node_id: String,
    pub state: String,
    pub online: bool,
    pub paired_at: Option<String>,
}

/// The state of the first live session of `id`, if any.
pub open spec fn live_state(live: Seq<Session>, id: Seq<char>) -> Option<NodeState>
    decreases live.len(),
{
    if live.len() == 0 {
        None
    } else if live[0].node_id@ == id {
        Some(live[0].state)
    } else {
        live_state(live.drop_first(), id)
    }
}

/// What a listed node shows: its id, state text, whether it is online and
/// when it was paired.
pub type NodeLine = (Seq<char>, Seq<char>, bool, Option<Seq<char>>);

/// The line of a paired node.
pub open spec fn paired_line(p: PairedNode, live: Seq<Session>) -> NodeLine {
    match live_state(live, p.node_id@) {
        Some(st) => (p.node_id@, state_name(st), true, Some(p.paired_at@)),
        None => (p.node_id@, "Offline"@, false, Some(p.paired_at@)),
    }
}

/// The lines for live sessions not yet listed, each id listed once.
pub open spec fn extra_lines(live: Seq<Session>, listed: Seq<Seq<char>>) -> Seq<NodeLine>
    decreases live.len(),
{
    if live.len() == 0 {
        seq![]
    } else {
        let s = live[0];
        if listed.contains(s.node_id@) {
            extra_lines(live.drop_first(), listed)
        } else {
            seq![(s.node_id@, state_name(s.state), true, None::<Seq<char>>)] + extra_lines(
                live.drop_first(),
                listed.push(s.node_id@),
            )
        }
    }
}

/// The node listing: every paired node in registry order (offline ones
/// too), then live sessions that are not in the registry.
pub open spec fn node_lines(paired: Seq<PairedNode>, live: Seq<Session>) -> Seq<NodeLine> {
    paired_lines(paired, live) + extra_lines(live, paired_ids(paired))
}

/// The lines shown for a list of `NodeInfo`s.
pub open spec fn info_lines(s: Seq<NodeInfo>) -> Seq<NodeLine> {
    s.map_values(|n: NodeInfo| info_line(n))
}

/// The lines of the paired nodes.
pub open spec fn paired_lines(paired: Seq<PairedNode>, live: Seq<Session>) -> Seq<NodeLine> {
    paired.map_values(|p: PairedNode| paired_line(p, live))
}

/// What a `NodeInfo` shows.
pub open spec fn info_line(n: NodeInfo) -> NodeLine {
    (
        n.node_id@,
        n.state@,
        n.online,
        match n.paired_at {
            Some(t) => Some(t@),
            None => None,
        },
    )
}

fn find_live(live: &[Session], id: &String) -> (r: Option<NodeState>)
    ensures
        r == live_state(live@, id@),
{
    let mut i: usize = 0;
    assert(live@.skip(0) =~= live@);
    while i < live.len()
        invariant
            0 <= i <= live@.len(),
            live_state(live@, id@) == live_state(live@.skip(i as int), id@),
        decreases live@.len() - i,
    {
        assert(live@.skip(i as int).drop_first() =~= live@.skip(i + 1));
        if live[i].node_id == *id {
            return Some(live[i].state);
        }
        i = i + 1;
    }
    None
}

fn listed_contains(listed: &Vec<String>, id: &String) -> (b: bool)
    ensures
        b == crate::trie::views(listed@).contains(id@),
{
    let mut i: usize = 0;
    while i < listed.len()
        invariant
            0 <= i <= listed@.len(),
            forall|k: int| 0 <= k < i ==> (#[trigger] listed@[k])@ != id@,
        decreases listed@.len() - i,
    {
        if listed[i] == *id {
            assert(crate::trie::views(listed@)[i as int] == id@);
            return true;
        }
        i = i + 1;
    }
    assert forall|k: int| 0 <= k < crate::trie::views(listed@).len() implies crate::trie::views(
        listed@,
    )[k] != id@ by {
        assert(crate::trie::views(listed@)[k] == listed@[k]@);
    }
    false
}

/// List paired nodes (offline ones too) and live sessions not in the registry.
pub fn node_list(paired: &[PairedNode], live: &[Session]) -> (r: Vec<NodeInfo>)
    ensures
        info_lines(r@) == node_lines(paired@, live@),
{
    let mut r: Vec<NodeInfo> = Vec::new();
    let mut listed: Vec<String> = Vec::new();
    let mut i: usize = 0;
    assert(info_lines(r@) =~= paired_lines(paired@.take(0), live@));
    assert(crate::trie::views(listed@) =~= paired_ids(paired@.take(0)));
    while i < paired.len()
        invariant
            0 <= i <= paired@.len(),
            info_lines(r@) == paired_lines(paired@.take(i as int), live@),
            crate::trie::views(listed@) == paired_ids(paired@.take(i as int)),
        decreases paired@.len() - i,
    {
        let p = &paired[i];
        let id = p.node_id.clone();
        let info = match find_live(live, &id) {
            Some(st) => NodeInfo {
                node_id: p.node_id.clone(),
                state: String::from_str(st.name()),
                online: true,
                paired_at: Some(p.paired_at.clone()),
            },
            None => NodeInfo {
                node_id: p.node_id.clone(),
                state: String::from_str("Offline"),
                online: false,
                paired_at: Some(p.paired_at.clone()),
            },
        };
        assert(info_line(info) == paired_line(paired@[i as int], live@));
        let ghost before = r@;
        let ghost before_l = listed@;
        r.push(info);
        listed.push(id);
        assert(paired@.take(i + 1) =~= paired@.take(i as int).push(paired@[i as int]));
        assert(info_lines(r@) =~= info_lines(before).push(info_line(info)));
        assert(paired_lines(paired@.take(i + 1), live@) =~= paired_lines(
            paired@.take(i as int),
            live@,
        ).push(paired_line(paired@[i as int], live@)));
        assert(crate::trie::views(listed@) =~= crate::trie::views(before_l).push(id@));
        assert(paired_ids(paired@.take(i + 1)) =~= paired_ids(paired@.take(i as int)).push(
            paired@[i as int].node_id@,
        ));
        i = i + 1;
    }
    assert(paired@.take(paired@.len() as int) =~= paired@);
    assert(live@.skip(0) =~= live@);
    let mut j: usize = 0;
    while j < live.len()
        invariant
            0 <= j <= live@.len(),
            node_lines(paired@, live@) == info_lines(r@) + extra_lines(
                live@.skip(j as int),
                crate::trie::views(listed@),
            ),
        decreases live@.len() - j,
    {
        let s = &live[j];
        let ghost rest = live@.skip(j as int);
        assert(rest.drop_first() =~= live@.skip(j + 1));
        assert(rest[0] == live@[j as int]);
        if !listed_contains(&listed, &s.node_id) {
            let info = NodeInfo {
                node_id: s.node_id.clone(),
                state: String::from_str(s.state.name()),
                online: true,
                paired_at: None,
            };
            let ghost before = r@;
            let ghost before_l = crate::trie::views(listed@);
            r.push(info);
            listed.push(s.node_id.clone());
            assert(crate::trie::views(listed@) =~= before_l.push(s.node_id@));
            assert(info_lines(r@) =~= info_lines(before).push(info_line(info)));
            assert(info_lines(before) + extra_lines(rest, before_l) =~= info_lines(r@)
                + extra_lines(live@.skip(j + 1), crate::trie::views(listed@)));
        }
        j = j + 1;
    }
    assert(extra_lines(live@.skip(live@.len() as int), crate::trie::views(listed@)) =~= Seq::<NodeLine>::empty());
    assert(info_lines(r@) + Seq::<NodeLine>::empty() =~= info_lines(r@));
    r
}

// ── Setup status ──────────────────────────────────────────────────────────────

/// What the setup page shows about the wizard and the system.
#[derive(Debug)]
pub struct SetupStatus {
    pub stage: WizardStage,
    pub stage_index: usize,
    pub target_node_id: Option<String>,
    pub wake_model_path: Option<String>,
    pub brain_healthy: bool,
    pub node_paired: bool,
    pub wake_model_ready: bool,
    pub node_online: bool,
    pub complete: bool,
}

/// Whether the wizard's node is paired: the chosen node when one is chosen,
/// any node otherwise.
pub open spec fn node_paired(target: Option<Seq<char>>, paired: Seq<Seq<char>>) -> bool {
    match target {
        Some(id) => paired.contains(id),
        None => paired.len() > 0,
    }
}

/// Whether the wizard's chosen node has a live session.
pub open spec fn node_online(target: Option<Seq<char>>, live: Seq<Session>) -> bool {
    match target {
        Some(id) => live_state(live, id) is Some,
        None => false,
    }
}

/// The wizard's status given the paired registry, the live sessions, the
/// health of the brain's services and whether the wake model file exists.
pub fn setup_status(
    wizard: WizardState,
    paired: &[PairedNode],
    live: &[Session],
    brain_healthy: bool,
    wake_model_exists: bool,
) -> (st: SetupStatus)
    ensures
        st.stage == wizard.stage,
        st.stage_index == stage_index(wizard.stage),
        st.target_node_id == wizard.target_node_id,
        st.wake_model_path == wizard.wake_model_path,
        st.brain_healthy == brain_healthy,
        st.node_paired == node_paired(
            match wizard.target_node_id {
                Some(t) => Some(t@),
                None => None,
            },
            paired_ids(paired@),
        ),
        st.wake_model_ready == (wizard.wake_model_path is Some && wake_model_exists),
        st.node_online == node_online(
            match wizard.target_node_id {
                Some(t) => Some(t@),
                None => None,
            },
            live@,
        ),
        st.complete == (wizard.stage == WizardStage::Complete),
{
    let paired_ok = match &wizard.target_node_id {
        Some(id) => contains_node(paired, id.as_str()),
        None => paired.len() > 0,
    };
    let online = match &wizard.target_node_id {
        Some(id) => find_live(live, id).is_some(),
        None => false,
    };
    let ready = wizard.wake_model_path.is_some() && wake_model_exists;
    let stage = wizard.stage;
    SetupStatus {
        stage,
        stage_index: stage.index(),
        target_node_id: wizard.target_node_id,
        wake_model_path: wizard.wake_model_path,
        brain_healthy,
        node_paired: paired_ok,
        wake_model_ready: ready,
        node_online: online,
        complete: stage == WizardStage::Complete,
    }
}

// ── Progress, samples and voice users ─────────────────────────────────────────

/// Progress of a training job or ingestion run, streamed to the browser.
#[derive(Debug, Clone, Default)]
pub struct ProgressEvent {
    pub percent: u8,
    pub message: String,
    pub done: bool,
    pub error: bool,
}

/// The steps of a wake-word training run, as its progress is reported.
#[derive(Debug, Clone)]
pub enum WakeTrainingStep {
    /// Synthesising reference samples of the phrase.
    Augmenting,
    /// Trimming the user's recordings.
    PreparingSamples,
    /// Building the reference from `user` recordings and `synthetic` samples.
    BuildingReference { user: usize, synthetic: usize },
    /// The model was written.
    Complete,
    /// The run failed for `reason`.
    Failed { reason: String },
}

/// The progress event reported for a step: its percentage, message and
/// whether the run is over (and failed).
pub open spec fn step_event(step: WakeTrainingStep) -> (u8, Seq<char>, bool, bool) {
    match step {
        WakeTrainingStep::Augmenting => (10, "Generating TTS reference samples…"@, false, false),
        WakeTrainingStep::PreparingSamples => (30, "Processing user samples…"@, false, false),
        WakeTrainingStep::BuildingReference { user, synthetic } => (
            55,
            "Building reference from "@ + decimal(user as nat) + " user + "@ + decimal(
                synthetic as nat,
            ) + " TTS samples…"@,
            false,
            false,
        ),
        WakeTrainingStep::Complete => (100, "Training complete"@, true, false),
        WakeTrainingStep::Failed { reason } => (0, "Training failed: "@ + reason@, true, true),
    }
}

/// The progress event reported for `step`.
pub fn wake_training_progress(step: &WakeTrainingStep) -> (e: ProgressEvent)
    ensures
        (e.percent, e.message@, e.done, e.error) == step_event(*step),
{
    match step {
        WakeTrainingStep::Augmenting => ProgressEvent {
            percent: 10,
            message: String::from_str("Generating TTS reference samples…"),
            done: false,
            error: false,
        },
        WakeTrainingStep::PreparingSamples => ProgressEvent {
            percent: 30,
            message: String::from_str("Processing user samples…"),
            done: false,
            error: false,
        },
        WakeTrainingStep::BuildingReference { user, synthetic } => {
            let mut m = String::from_str("Building reference from ");
            push_decimal(&mut m, *user as u64);
            push_str(&mut m, " user + ");
            push_decimal(&mut m, *synthetic as u64);
            push_str(&mut m, " TTS samples…");
            ProgressEvent { percent: 55, message: m, done: false, error: false }
        },
        WakeTrainingStep::Complete => ProgressEvent {
            percent: 100,
            message: String::from_str("Training complete"),
            done: true,
            error: false,
        },
        WakeTrainingStep::Failed { reason } => {
            let mut m = String::from_str("Training failed: ");
            push_str(&mut m, reason.as_str());
            ProgressEvent { percent: 0, message: m, done: true, error: true }
        },
    }
}

/// The steps of a voice fine-tuning run, as its progress is reported.
#[derive(Debug, Clone)]
pub enum VoiceTrainingStep {
    /// The samples are being sent to the fine-tuning service.
    Submitting,
    /// The service finished fine-tuning.
    Complete,
    /// The service answered with the error status `status`.
    Rejected { status: String },
    /// The service could not be reached: `error`.
    Unreachable { error: String },
}

/// The progress event reported for a fine-tuning step: its percentage,
/// message and whether the run is over (and failed).
pub open spec fn voice_step_event(step: VoiceTrainingStep) -> (u8, Seq<char>, bool, bool) {
    match step {
        VoiceTrainingStep::Submitting => (5, "Submitting to fine-tuning service…"@, false, false),
        VoiceTrainingStep::Complete => (100, "Fine-tuning complete"@, true, false),
        VoiceTrainingStep::Rejected { status } => (
            0,
            "finetuning service returned "@ + status@,
            true,
            true,
        ),
        VoiceTrainingStep::Unreachable { error } => (
            0,
            "finetuning request failed: "@ + error@,
            true,
            true,
        ),
    }
}

/// The progress event reported for `step`.
pub fn voice_training_progress(step: &VoiceTrainingStep) -> (e: ProgressEvent)
    ensures
        (e.percent, e.message@, e.done, e.error) == voice_step_event(*step),
{
    match step {
        VoiceTrainingStep::Submitting => ProgressEvent {
            percent: 5,
            message: String::from_str("Submitting to fine-tuning service…"),
            done: false,
            error: false,
        },
        VoiceTrainingStep::Complete => ProgressEvent {
            percent: 100,
            message: String::from_str("Fine-tuning complete"),
            done: true,
            error: false,
        },
        VoiceTrainingStep::Rejected { status } => {
            let mut m = String::from_str("finetuning service returned ");
            push_str(&mut m, status.as_str());
            ProgressEvent { percent: 0, message: m, done: true, error: true }
        },
        VoiceTrainingStep::Unreachable { error } => {
            let mut m = String::from_str("finetuning request failed: ");
            push_str(&mut m, error.as_str());
            ProgressEvent { percent: 0, message: m, done: true, error: true }
        },
    }
}

/// Why a run fails when none of the user's recordings could be used.
pub fn no_usable_samples() -> (r: String)
    ensures
        r@ == "no valid WAV samples found — re-record samples"@,
{
    String::from_str("no valid WAV samples found — re-record samples")
}

/// A recorded wake-word sample.
#[derive(Debug, Clone)]
pub struct WakeSample {
    pub id: String,
    pub filename: String,
    pub duration_ms: u32,
    pub size_bytes: u64,
}

/// Remove the first sample with id `id`, giving it back so its file can be deleted.
pub fn remove_wake_sample(samples: &mut Vec<WakeSample>, id: &str) -> (r: Option<WakeSample>)
    ensures
        match r {
            Some(s) => exists|i: int|
                0 <= i < old(samples)@.len() && old(samples)@[i] == s && s.id@ == id@ && (forall|k: int|
                    0 <= k < i ==> (#[trigger] old(samples)@[k]).id@ != id@) && final(samples)@
                    == old(samples)@.remove(i),
            None => final(samples)@ == old(samples)@ && forall|k: int|
                0 <= k < old(samples)@.len() ==> (#[trigger] old(samples)@[k]).id@ != id@,
        },
{
    let key = String::from_str(id);
    let mut i: usize = 0;
    while i < samples.len()
        invariant
            0 <= i <= samples@.len(),
            samples@ == old(samples)@,
            key@ == id@,
            forall|k: int| 0 <= k < i ==> (#[trigger] samples@[k]).id@ != id@,
        decreases samples@.len() - i,
    {
        if samples[i].id == key {
            let s = samples.remove(i);
            return Some(s);
        }
        i = i + 1;
    }
    None
}

/// What `Path::extension` gives for the path `name`, as text.
pub uninterp spec fn extension_of(name: Seq<char>) -> Option<Seq<char>>;

/// `std::path::Path::extension` of `name`, as an owned string when it is
/// valid Unicode (it always is for a `&str`). The result is named by
/// `extension_of`.
#[verifier::external_body]
fn path_extension(name: &str) -> (r: Option<String>)
    ensures
        match r {
            Some(e) => extension_of(name@) == Some(e@),
            None => extension_of(name@) is None,
        },
{
    std::path::Path::new(name).extension().and_then(|e| e.to_str()).map(|e| e.to_string())
}

/// The stored name of a wake sample: `sample_<id>.<ext>`, the extension of
/// the uploaded file's name, `webm` when it has none.
pub open spec fn wake_sample_name(id: Seq<char>, uploaded: Seq<char>) -> Seq<char> {
    "sample_"@ + id + "."@ + match extension_of(uploaded) {
        Some(e) => e,
        None => "webm"@,
    }
}

/// The file name a wake sample with id `id` is stored under.
pub fn wake_sample_file_name(id: &str, uploaded_name: &str) -> (f: String)
    ensures
        f@ == wake_sample_name(id@, uploaded_name@),
{
    let mut f = String::from_str("sample_");
    push_str(&mut f, id);
    push_str(&mut f, ".");
    match path_extension(uploaded_name) {
        Some(e) => push_str(&mut f, e.as_str()),
        None => push_str(&mut f, "webm"),
    }
    f
}

/// The duration the client declared in the `duration_ms` field: the number
/// it holds, 0 when it is missing or not a `u32`.
pub open spec fn declared_duration(field: Option<Seq<char>>) -> nat {
    match field {
        Some(t) => match parse_unsigned(t, u32::MAX as nat) {
            Some(n) => n,
            None => 0,
        },
        None => 0,
    }
}

/// The view of an optional string.
pub open spec fn opt_str(o: Option<&str>) -> Option<Seq<char>> {
    match o {
        Some(s) => Some(s@),
        None => None,
    }
}

/// The record of an uploaded wake sample: its id, stored name, duration
/// (the declared one, or the WAV header's when none was declared) and size.
pub fn new_wake_sample(id: String, uploaded_name: Option<&str>, duration_field: Option<&str>, data: &[u8]) -> (s:
    WakeSample)
    requires
        declared_duration(opt_str(duration_field)) == 0 ==> duration_fits(data@),
    ensures
        s.id == id,
        s.filename@ == wake_sample_name(
            id@,
            match uploaded_name {
                Some(n) => n@,
                None => "sample.webm"@,
            },
        ),
        s.duration_ms == if declared_duration(opt_str(duration_field)) == 0 {
            wav_duration(data@)
        } else {
            declared_duration(opt_str(duration_field))
        },
        s.size_bytes == data@.len(),
{
    let declared: u32 = match duration_field {
        Some(t) => {
            let cs = chars_of(t);
            assert(cs@.subrange(0, cs@.len() as int) =~= t@);
            match parse_unsigned_chars(cs.as_slice(), 0, cs.len(), 0xffff_ffff) {
                Some(n) => n as u32,
                None => 0,
            }
        },
        None => 0,
    };
    let duration_ms = if declared == 0 {
        wav_duration_ms(data)
    } else {
        declared
    };
    let filename = match uploaded_name {
        Some(n) => wake_sample_file_name(id.as_str(), n),
        None => wake_sample_file_name(id.as_str(), "sample.webm"),
    };
    WakeSample { id, filename, duration_ms, size_bytes: data.len() as u64 }
}

/// A user whose voice can be enrolled.
#[derive(Debug, Clone)]
pub struct VoiceUser {
    pub id: String,
    pub name: String,
    pub sample_count: usize,
    pub trained: bool,
    pub trained_at: Option<String>,
}

/// A fresh voice user with no samples.
pub fn new_voice_user(id: String, name: String) -> (u: VoiceUser)
    ensures
        u.id == id,
        u.name == name,
        u.sample_count == 0,
        !u.trained,
        u.trained_at is None,
{
    VoiceUser { id, name, sample_count: 0, trained: false, trained_at: None }
}

/// Remove every user with id `id`, keeping the others in order.
pub fn delete_voice_user(users: &mut Vec<VoiceUser>, id: &str)
    ensures
        final(users)@ == old(users)@.filter(|u: VoiceUser| u.id@ != id@),
{
    let ghost src = old(users)@;
    let key = String::from_str(id);
    let mut all: Vec<VoiceUser> = Vec::new();
    std::mem::swap(&mut all, users);
    let mut rev: Vec<VoiceUser> = Vec::new();
    while all.len() > 0
        invariant
            all@ == src.take(all@.len() as int),
            all@.len() <= src.len(),
            rev@.reverse() == src.skip(all@.len() as int).filter(|u: VoiceUser| u.id@ != key@),
            key@ == id@,
        decreases all@.len(),
    {
        let x = all.pop().unwrap();
        let k = all.len();
        assert(src.skip(k as int) =~= seq![x] + src.skip(k + 1));
        assert(all@ =~= src.take(k as int));
        proof {
            lemma_filter_cons(x, src.skip(k + 1), |u: VoiceUser| u.id@ != key@);
        }
        if x.id != key {
            let ghost before = rev@;
            rev.push(x);
            assert(rev@.reverse() =~= seq![x] + before.reverse());
        }
    }
    assert(src.skip(0) =~= src);
    let mut kept: Vec<VoiceUser> = Vec::new();
    while rev.len() > 0
        invariant
            kept@ + rev@.reverse() == src.filter(|u: VoiceUser| u.id@ != key@),
            key@ == id@,
        decreases rev@.len(),
    {
        let ghost before_rev = rev@;
        let x = rev.pop().unwrap();
        assert(before_rev.reverse() =~= seq![x] + rev@.reverse());
        let ghost before = kept@;
        kept.push(x);
        assert(kept@ + rev@.reverse() =~= before + before_rev.reverse());
    }
    assert(kept@ + rev@.reverse() =~= kept@);
    *users = kept;
}

/// The index of the first user with id `id`.
pub open spec fn user_index(users: Seq<VoiceUser>, id: Seq<char>) -> Option<int>
    decreases users.len(),
{
    if users.len() == 0 {
        None
    } else if users[0].id@ == id {
        Some(0)
    } else {
        match user_index(users.drop_first(), id) {
            Some(i) => Some(i + 1),
            None => None,
        }
    }
}

fn find_user(users: &Vec<VoiceUser>, id: &str) -> (r: Option<usize>)
    ensures
        r matches Some(i) ==> i < users@.len() && user_index(users@, id@) == Some(i as int),
        r is None ==> user_index(users@, id@) is None,
{
    let key = String::from_str(id);
    let mut i: usize = 0;
    assert(users@.skip(0) =~= users@);
    while i < users.len()
        invariant
            0 <= i <= users@.len(),
            key@ == id@,
            user_index(users@, id@) == match user_index(users@.skip(i as int), id@) {
                Some(k) => Some(k + i),
                None => None,
            },
        decreases users@.len() - i,
    {
        assert(users@.skip(i as int).drop_first() =~= users@.skip(i + 1));
        if users[i].id == key {
            return Some(i);
        }
        i = i + 1;
    }
    None
}

/// Count one more recorded sample for the user `user_id`, if there is one.
pub fn record_voice_sample(users: &mut Vec<VoiceUser>, user_id: &str)
    requires
        forall|k: int| 0 <= k < old(users)@.len() ==> (#[trigger] old(users)@[k]).sample_count < usize::MAX,
    ensures
        match user_index(old(users)@, user_id@) {
            Some(i) => final(users)@ == old(users)@.update(
                i,
                VoiceUser { sample_count: (old(users)@[i].sample_count + 1) as usize, ..old(users)@[i] },
            ),
            None => final(users)@ == old(users)@,
        },
{
    match find_user(users, user_id) {
        Some(i) => {
            let mut u = users.remove(i);
            u.sample_count = u.sample_count + 1;
            users.insert(i, u);
            assert(users@ =~= old(users)@.update(
                i as int,
                VoiceUser { sample_count: (old(users)@[i as int].sample_count + 1) as usize, ..old(users)@[i as int] },
            ));
        },
        None => {},
    }
}

/// Mark the user `user_id` as trained at `at`, if there is one.
pub fn mark_voice_trained(users: &mut Vec<VoiceUser>, user_id: &str, at: String)
    ensures
        match user_index(old(users)@, user_id@) {
            Some(i) => final(users)@ == old(users)@.update(
                i,
                VoiceUser { trained: true, trained_at: Some(at), ..old(users)@[i] },
            ),
            None => final(users)@ == old(users)@,
        },
{
    match find_user(users, user_id) {
        Some(i) => {
            let mut u = users.remove(i);
            u.trained = true;
            u.trained_at = Some(at);
            users.insert(i, u);
            assert(users@ =~= old(users)@.update(
                i as int,
                VoiceUser { trained: true, trained_at: Some(at), ..old(users)@[i as int] },
            ));
        },
        None => {},
    }
}

/// The state of a voice fine-tuning job.
#[derive(Debug, Clone)]
pub enum VoiceTrainingStatus {
    Idle,
    Running { user_id: String, progress: u8 },
    Complete { user_id: String },
    Failed { user_id: String, error: String },
}

/// Voice users, their recorded samples and the current job.
#[derive(Debug)]
pub struct VoiceTrainingState {
    pub users: Vec<VoiceUser>,
    pub active_samples: Vec<VoiceSample>,
    pub status: VoiceTrainingStatus,
}

impl Default for VoiceTrainingState {
    fn default() -> (s: Self)
        ensures
            s.users@.len() == 0,
            s.active_samples@.len() == 0,
            s.status is Idle,
    {
        VoiceTrainingState {
            users: Vec::new(),
            active_samples: Vec::new(),
            status: VoiceTrainingStatus::Idle,
        }
    }
}

/// A recorded voice sample of a user.
#[derive(Debug, Clone)]
pub struct VoiceSample {
    pub id: String,
    pub user_id: String,
    pub transcript: String,
    pub filename: String,
}

fn copy_voice_sample(s: &VoiceSample) -> (c: VoiceSample)
    ensures
        c.id@ == s.id@ && c.user_id@ == s.user_id@ && c.transcript@ == s.transcript@ && c.filename@
            == s.filename@,
{
    VoiceSample {
        id: s.id.clone(),
        user_id: s.user_id.clone(),
        transcript: s.transcript.clone(),
        filename: s.filename.clone(),
    }
}

/// The fields of a voice sample as text.
pub open spec fn sample_view(s: VoiceSample) -> (Seq<char>, Seq<char>, Seq<char>, Seq<char>) {
    (s.id@, s.user_id@, s.transcript@, s.filename@)
}

/// The stored name of a voice sample: `voice_<user>_<id>.wav`.
pub open spec fn voice_sample_name(user_id: Seq<char>, id: Seq<char>) -> Seq<char> {
    "voice_"@ + user_id + "_"@ + id + ".wav"@
}

/// The file name a voice sample is stored under.
pub fn voice_sample_file_name(user_id: &str, id: &str) -> (f: String)
    ensures
        f@ == voice_sample_name(user_id@, id@),
{
    let mut f = String::from_str("voice_");
    push_str(&mut f, user_id);
    push_str(&mut f, "_");
    push_str(&mut f, id);
    push_str(&mut f, ".wav");
    f
}

/// Record an uploaded voice sample: it joins the active samples and its
/// user, if known, counts one more sample. Returns the new sample.
pub fn add_voice_sample(state: &mut VoiceTrainingState, id: String, user_id: String, transcript: String) -> (s:
    VoiceSample)
    requires
        forall|k: int|
            0 <= k < old(state).users@.len() ==> (#[trigger] old(state).users@[k]).sample_count
                < usize::MAX,
    ensures
        sample_view(s) == (id@, user_id@, transcript@, voice_sample_name(user_id@, id@)),
        final(state).active_samples@.len() == old(state).active_samples@.len() + 1,
        final(state).active_samples@.take(old(state).active_samples@.len() as int) == old(
            state,
        ).active_samples@,
        sample_view(final(state).active_samples@.last()) == sample_view(s),
        final(state).status == old(state).status,
        match user_index(old(state).users@, user_id@) {
            Some(i) => final(state).users@ == old(state).users@.update(
                i,
                VoiceUser {
                    sample_count: (old(state).users@[i].sample_count + 1) as usize,
                    ..old(state).users@[i]
                },
            ),
            None => final(state).users@ == old(state).users@,
        },
{
    let filename = voice_sample_file_name(user_id.as_str(), id.as_str());
    let s = VoiceSample { id, user_id, transcript, filename };
    let stored = copy_voice_sample(&s);
    state.active_samples.push(stored);
    assert(state.active_samples@.take(old(state).active_samples@.len() as int) =~= old(
        state,
    ).active_samples@);
    record_voice_sample(&mut state.users, s.user_id.as_str());
    s
}

/// The samples recorded for `user_id`, in recording order.
pub fn samples_for_user(samples: &[VoiceSample], user_id: &str) -> (r: Vec<VoiceSample>)
    ensures
        r@.map_values(|s: VoiceSample| sample_view(s)) == samples@.filter(
            |s: VoiceSample| s.user_id@ == user_id@,
        ).map_values(|s: VoiceSample| sample_view(s)),
{
    let key = String::from_str(user_id);
    let mut r: Vec<VoiceSample> = Vec::new();
    let mut i: usize = 0;
    while i < samples.len()
        invariant
            0 <= i <= samples@.len(),
            key@ == user_id@,
            r@.map_values(|s: VoiceSample| sample_view(s)) == samples@.take(i as int).filter(
                |s: VoiceSample| s.user_id@ == user_id@,
            ).map_values(|s: VoiceSample| sample_view(s)),
        decreases samples@.len() - i,
    {
        let ghost pre = samples@.take(i as int);
        assert(samples@.take(i + 1) =~= pre.push(samples@[i as int]));
        reveal_with_fuel(Seq::<_>::filter, 1);
        assert(samples@.take(i + 1).drop_last() =~= pre);
        if samples[i].user_id == key {
            let c = copy_voice_sample(&samples[i]);
            let ghost before = r@;
            r.push(c);
            assert(r@.map_values(|s: VoiceSample| sample_view(s)) =~= before.map_values(
                |s: VoiceSample| sample_view(s),
            ).push(sample_view(samples@[i as int])));
            assert(pre.push(samples@[i as int]).filter(|s: VoiceSample| s.user_id@ == user_id@)
                =~= pre.filter(|s: VoiceSample| s.user_id@ == user_id@).push(samples@[i as int]));
            assert(pre.filter(|s: VoiceSample| s.user_id@ == user_id@).push(
                samples@[i as int],
            ).map_values(|s: VoiceSample| sample_view(s)) =~= pre.filter(
                |s: VoiceSample| s.user_id@ == user_id@,
            ).map_values(|s: VoiceSample| sample_view(s)).push(sample_view(samples@[i as int])));
        }
        i = i + 1;
    }
    assert(samples@.take(samples@.len() as int) =~= samples@);
    r
}

// ── Request checks ────────────────────────────────────────────────────────────

/// Why a training request was refused.
#[derive(Debug, Clone, Copy, PartialEq, Eq, Structural)]
pub enum TrainingRefusal {
    /// Fewer than three wake-word samples are recorded (bad request).
    TooFewSamples,
    /// A training run is already in progress (conflict).
    AlreadyRunning,
    /// No fine-tuning service is configured (service unavailable).
    NotConfigured,
    /// The user has no recorded samples (bad request).
    NoSamples,
    /// No trained model exists yet (bad request).
    NoModel,
}

/// May wake-word training start with `sample_count` samples while another
/// run is (or is not) in progress?
pub fn check_wake_training(sample_count: usize, running: bool) -> (r: Result<(), TrainingRefusal>)
    ensures
        sample_count < 3 ==> r == Err::<(), TrainingRefusal>(TrainingRefusal::TooFewSamples),
        sample_count >= 3 && running ==> r == Err::<(), TrainingRefusal>(
            TrainingRefusal::AlreadyRunning,
        ),
        sample_count >= 3 && !running ==> r is Ok,
{
    if sample_count < 3 {
        Err(TrainingRefusal::TooFewSamples)
    } else if running {
        Err(TrainingRefusal::AlreadyRunning)
    } else {
        Ok(())
    }
}

/// May voice fine-tuning start for a user with `sample_count` samples?
pub fn check_voice_training(service_configured: bool, sample_count: usize) -> (r: Result<
    (),
    TrainingRefusal,
>)
    ensures
        !service_configured ==> r == Err::<(), TrainingRefusal>(TrainingRefusal::NotConfigured),
        service_configured && sample_count == 0 ==> r == Err::<(), TrainingRefusal>(
            TrainingRefusal::NoSamples,
        ),
        service_configured && sample_count > 0 ==> r is Ok,
{
    if !service_configured {
        Err(TrainingRefusal::NotConfigured)
    } else if sample_count == 0 {
        Err(TrainingRefusal::NoSamples)
    } else {
        Ok(())
    }
}

/// May a model be deployed? Only once one has been trained.
pub fn check_deploy(model_trained: bool) -> (r: Result<(), TrainingRefusal>)
    ensures
        model_trained <==> r is Ok,
        !model_trained ==> r == Err::<(), TrainingRefusal>(TrainingRefusal::NoModel),
{
    if model_trained {
        Ok(())
    } else {
        Err(TrainingRefusal::NoModel)
    }
}

// ── Answers to training requests ──────────────────────────────────────────────

/// The JSON body of an error answer: `{"error":"<msg>"}` (the messages used
/// here hold no character that JSON escapes).
pub open spec fn error_body(msg: Seq<char>) -> Seq<char> {
    "{\"error\":\""@ + msg + "\"}"@
}

/// The JSON body answering a training request that was started.
pub open spec fn started_body() -> Seq<char> {
    "{\"status\":\"training started\"}"@
}

/// The status code and error message a refusal is answered with.
pub open spec fn refusal_answer(r: TrainingRefusal) -> (u16, Seq<char>) {
    match r {
        TrainingRefusal::TooFewSamples => (400, "need at least 3 samples to train"@),
        TrainingRefusal::AlreadyRunning => (409, "training already in progress"@),
        TrainingRefusal::NotConfigured => (503, "finetuning service not configured"@),
        TrainingRefusal::NoSamples => (400, "no samples for this user"@),
        TrainingRefusal::NoModel => (400, "no trained model available"@),
    }
}

/// The answer to a training request: 200 and the "training started" body
/// when it may start, else the refusal's status code and error body.
pub open spec fn training_answer_of(r: Result<(), TrainingRefusal>) -> (u16, Seq<char>) {
    match r {
        Ok(()) => (200, started_body()),
        Err(x) => (refusal_answer(x).0, error_body(refusal_answer(x).1)),
    }
}

fn error_answer(status: u16, msg: &str) -> (a: (u16, String))
    ensures
        a.0 == status,
        a.1@ == error_body(msg@),
{
    let mut b = String::from_str("{\"error\":\"");
    push_str(&mut b, msg);
    push_str(&mut b, "\"}");
    (status, b)
}

/// The status code and JSON body answering a training request.
pub fn training_answer(r: Result<(), TrainingRefusal>) -> (a: (u16, String))
    ensures
        (a.0, a.1@) == training_answer_of(r),
{
    match r {
        Ok(()) => (200, String::from_str("{\"status\":\"training started\"}")),
        Err(TrainingRefusal::TooFewSamples) => error_answer(400, "need at least 3 samples to train"),
        Err(TrainingRefusal::AlreadyRunning) => error_answer(409, "training already in progress"),
        Err(TrainingRefusal::NotConfigured) => error_answer(503, "finetuning service not configured"),
        Err(TrainingRefusal::NoSamples) => error_answer(400, "no samples for this user"),
        Err(TrainingRefusal::NoModel) => error_answer(400, "no trained model available"),
    }
}

/// The answer to a request to train the wake word with `sample_count`
/// samples recorded while a run is (or is not) in progress: 400 "need at
/// least 3 samples to train" below three samples, else 409 "training already
/// in progress" while a run is in progress, else 200 "training started".
pub fn train_wake_word_answer(sample_count: usize, running: bool) -> (a: (u16, String))
    ensures
        sample_count < 3 ==> (a.0, a.1@) == (400u16, error_body("need at least 3 samples to train"@)),
        sample_count >= 3 && running ==> (a.0, a.1@) == (409u16, error_body(
            "training already in progress"@,
        )),
        sample_count >= 3 && !running ==> (a.0, a.1@) == (200u16, started_body()),
{
    training_answer(check_wake_training(sample_count, running))
}

/// The answer to a request to fine-tune a user's voice: 503 "finetuning
/// service not configured" without a service, else 400 "no samples for this
/// user" when the user has no recorded sample, else 200 "training started".
pub fn train_voice_answer(service_configured: bool, user_sample_count: usize) -> (a: (u16, String))
    ensures
        !service_configured ==> (a.0, a.1@) == (503u16, error_body(
            "finetuning service not configured"@,
        )),
        service_configured && user_sample_count == 0 ==> (a.0, a.1@) == (400u16, error_body(
            "no samples for this user"@,
        )),
        service_configured && user_sample_count > 0 ==> (a.0, a.1@) == (200u16, started_body()),
{
    training_answer(check_voice_training(service_configured, user_sample_count))
}

/// The answer to a deployment that reached `deployed` nodes:
/// `{"deployed_to":<n>,"status":"deployed"}`.
pub fn deployed_answer(deployed: usize) -> (a: (u16, String))
    ensures
        a.0 == 200,
        a.1@ == "{\"deployed_to\":"@ + decimal(deployed as nat) + ",\"status\":\"deployed\"}"@,
{
    let mut b = String::from_str("{\"deployed_to\":");
    push_decimal(&mut b, deployed as u64);
    push_str(&mut b, ",\"status\":\"deployed\"}");
    (200, b)
}

// ── The skill tester ──────────────────────────────────────────────────────────

/// How the skill tester answers a query: dispatched directly when the trie
/// matches it, else through the language model, else (no model configured)
/// refused with 502 "LLM not configured".
pub fn skill_test_route(trie: &CommandTrie, query: &str, llm_configured: bool) -> (r: Result<
    TranscriptRoute,
    (u16, String),
>)
    ensures
        match route_of(classify_tokens(trie@, tokens_of(query@)), llm_configured) {
            TranscriptRoute::Silent => r matches Err(e) && e.0 == 502 && e.1@ == error_body(
                "LLM not configured"@,
            ),
            route => r matches Ok(x) && x == route,
        },
{
    match route_transcript(trie, query, llm_configured) {
        TranscriptRoute::Silent => Err(error_answer(502, "LLM not configured")),
        route => Ok(route),
    }
}

/// The `matched` and `latency_source` fields of a skill-test answer: "trie"
/// twice for a trie match, "llm" and "ollama" for the language model.
pub fn skill_test_labels(direct: bool) -> (r: (&'static str, &'static str))
    ensures
        direct ==> r.0@ == "trie"@ && r.1@ == "trie"@,
        !direct ==> r.0@ == "llm"@ && r.1@ == "ollama"@,
{
    if direct {
        ("trie", "trie")
    } else {
        ("llm", "ollama")
    }
}

// ── Documents ─────────────────────────────────────────────────────────────────

/// A document in the documents directory.
#[derive(Debug)]
pub struct DocumentInfo {
    pub name: String,
    pub size_kb: u64,
    pub status: String,
}

/// The listing entry of a document of `size_bytes` bytes: whole kilobytes,
/// status "indexed".
pub fn document_info(name: String, size_bytes: u64) -> (d: DocumentInfo)
    ensures
        d.name == name,
        d.size_kb == size_bytes / 1024,
        d.status@ == "indexed"@,
{
    DocumentInfo { name, size_kb: size_bytes / 1024, status: String::from_str("indexed") }
}

/// Whether `c` may stay in an uploaded file name.
pub open spec fn safe_char(c: char) -> bool {
    alphanumeric(c) || c == '.' || c == '-' || c == '_'
}

/// An uploaded file name with every other character replaced by `_`.
pub open spec fn safe_name(name: Seq<char>) -> Seq<char> {
    name.map_values(|c: char| if safe_char(c) { c } else { '_' })
}

/// Sanitise an uploaded file name: keep letters, digits, `.`, `-` and `_`,
/// replace anything else with `_`.
pub fn safe_file_name(name: &str) -> (r: String)
    ensures
        r@ == safe_name(name@),
{
    let cs = chars_of(name);
    let mut r = String::new();
    let mut i: usize = 0;
    while i < cs.len()
        invariant
            0 <= i <= cs@.len(),
            cs@ == name@,
            r@ == safe_name(cs@.take(i as int)),
        decreases cs@.len() - i,
    {
        let c = cs[i];
        let keep = is_alphanumeric(c) || c == '.' || c == '-' || c == '_';
        push_char(&mut r, if keep { c } else { '_' });
        i = i + 1;
        assert(r@ =~= safe_name(cs@.take(i as int)));
    }
    assert(cs@.take(cs@.len() as int) =~= cs@);
    r
}

/// The index file of the wake samples under `config_dir`
/// (`config_dir.join("wake_samples").join("index.json")`).
pub open spec fn wake_samples_index_path(config_dir: Seq<char>) -> Seq<char> {
    if config_dir.len() == 0 {
        "wake_samples/index.json"@
    } else if config_dir.last() == '/' {
        config_dir + "wake_samples/index.json"@
    } else {
        config_dir + "/"@ + "wake_samples/index.json"@
    }
}

/// The path of the wake-sample index file under `config_dir`.
pub fn wake_samples_index(config_dir: &str) -> (p: String)
    ensures
        p@ == wake_samples_index_path(config_dir@),
{
    let cs = chars_of(config_dir);
    let mut p = String::from_str(config_dir);
    if cs.len() == 0 {
        let r = String::from_str("wake_samples/index.json");
        return r;
    }
    if cs[cs.len() - 1] != '/' {
        push_str(&mut p, "/");
    }
    push_str(&mut p, "wake_samples/index.json");
    assert(p@ =~= wake_samples_index_path(config_dir@));
    p
}

// ── Request bodies ────────────────────────────────────────────────────────────

/// Confirms the pairing of a node.
#[derive(Debug)]
pub struct PairConfirm {
    pub node_id: String,
}

/// Renames a node.
#[derive(Debug)]
pub struct RenameBody {
    pub display_name: String,
}

/// A query for the skill tester.
#[derive(Debug)]
pub struct TestBody {
    pub query: String,
}

/// A place name to look up.
#[derive(Debug)]
pub struct LocationQuery {
    pub q: String,
}

/// Starts wake-word training, optionally for a given phrase.
#[derive(Debug)]
pub struct TrainWakeWordBody {
    pub phrase: Option<String>,
}

/// The phrase to train: the one given, "Hey Aether" by default.
pub fn wake_phrase(body: TrainWakeWordBody) -> (p: String)
    ensures
        match body.phrase {
            Some(q) => p == q,
            None => p@ == "Hey Aether"@,
        },
{
    match body.phrase {
        Some(q) => q,
        None => String::from_str("Hey Aether"),
    }
}

/// Deploys the trained model to nodes (all online nodes when empty).
#[derive(Debug)]
pub struct DeployBody {
    pub node_ids: Vec<String>,
}

/// Creates a voice user.
#[derive(Debug)]
pub struct CreateUserBody {
    pub name: String,
}

/// Starts voice fine-tuning for a user.
#[derive(Debug)]
pub struct TrainVoiceBody {
    pub user_id: String,
}

// ── Model settings and errors ─────────────────────────────────────────────────

/// Which speech-recognition model size to run.
#[derive(Debug, Clone, Copy, PartialEq, Eq, Structural)]
pub enum WhisperMode {
    Medium,
    Dynamic,
    Large,
}

/// How requests are routed to the language model.
#[derive(Debug, Clone, Copy, PartialEq, Eq, Structural)]
pub enum LlmRouting {
    Fast,
    Auto,
}

/// An internal error of a web UI handler, answered with status 500.
pub struct AppError {
    pub message: String,
}

impl AppError {
    /// The HTTP status the error is answered with.
    pub fn status(&self) -> (s: u16)
        ensures
            s == 500,
    {
        500
    }

    /// The text of the error response.
    pub fn body(&self) -> (b: String)
        ensures
            b@ == "Internal error: "@ + self.message@,
    {
        let mut b = String::new();
        push_str(&mut b, "Internal error: ");
        push_str(&mut b, self.message.as_str());
        b
    }
}

} // verus!
