//! The skills catalogue shown by the web UI: each registered action with its
//! description and example phrases, sorted by action name.
use vstd::prelude::*;
use crate::text::{chars_of, push_str, str_eq};
use crate::trie::views;

verus! {

/// Information about a registered skill, used by the web UI skills page.
#[derive(Debug, Clone)]
pub struct SkillInfo {
    pub action: String,
    pub description: String,
    pub example_phrases: Vec<String>,
}

/// The view of a skill's information: (action, description, phrases).
pub open spec fn info_view(i: SkillInfo) -> (Seq<char>, Seq<char>, Seq<Seq<char>>) {
    (i.action@, i.description@, views(i.example_phrases@))
}

// ── Ordering of names ─────────────────────────────────────────────────────────

/// Whether `a` sorts strictly before `b`, comparing characters by code point
/// (the order of `str`'s `Ord`, which compares the UTF-8 bytes).
pub open spec fn str_less(a: Seq<char>, b: Seq<char>) -> bool
    decreases a.len(),
{
    if a.len() == 0 {
        b.len() > 0
    } else if b.len() == 0 {
        false
    } else if a[0] != b[0] {
        (a[0] as int) < (b[0] as int)
    } else {
        str_less(a.drop_first(), b.drop_first())
    }
}

proof fn lemma_str_less_irreflexive(a: Seq<char>)
    ensures
        !str_less(a, a),
    decreases a.len(),
{
    if a.len() > 0 {
        lemma_str_less_irreflexive(a.drop_first());
    }
}

proof fn lemma_char_ne(x: char, y: char)
    requires
        x != y,
    ensures
        (x as int) != (y as int),
{
}

proof fn lemma_str_less_total(a: Seq<char>, b: Seq<char>)
    ensures
        str_less(a, b) ==> !str_less(b, a),
        a != b ==> str_less(a, b) || str_less(b, a),
    decreases a.len(),
{
    if a.len() > 0 && b.len() > 0 {
        lemma_str_less_total(a.drop_first(), b.drop_first());
        if a[0] != b[0] {
            lemma_char_ne(a[0], b[0]);
        }
        if a[0] == b[0] && a.drop_first() == b.drop_first() {
            assert(a =~= b) by {
                assert forall|k: int| 0 <= k < a.len() implies a[k] == b[k] by {
                    if k > 0 {
                        assert(a[k] == a.drop_first()[k - 1]);
                        assert(b[k] == b.drop_first()[k - 1]);
                    }
                }
            }
        }
    } else if a.len() == 0 && b.len() == 0 {
        assert(a =~= b);
    }
}

proof fn lemma_str_less_transitive(a: Seq<char>, b: Seq<char>, c: Seq<char>)
    ensures
        str_less(a, b) && str_less(b, c) ==> str_less(a, c),
    decreases a.len(),
{
    if a.len() > 0 && b.len() > 0 && c.len() > 0 {
        lemma_str_less_transitive(a.drop_first(), b.drop_first(), c.drop_first());
    }
}

/// `str_less` is a strict total order: irreflexive, asymmetric, transitive and
/// total on distinct strings.
pub proof fn lemma_str_less_order(a: Seq<char>, b: Seq<char>, c: Seq<char>)
    ensures
        !str_less(a, a),
        str_less(a, b) ==> !str_less(b, a),
        str_less(a, b) && str_less(b, c) ==> str_less(a, c),
        a != b ==> str_less(a, b) || str_less(b, a),
{
    lemma_str_less_irreflexive(a);
    lemma_str_less_total(a, b);
    lemma_str_less_transitive(a, b, c);
}

/// Compare two names in `str` order.
fn name_less(a: &str, b: &str) -> (r: bool)
    ensures
        r == str_less(a@, b@),
{
    let ca = chars_of(a);
    let cb = chars_of(b);
    let mut i: usize = 0;
    assert(a@.skip(0) =~= a@);
    assert(b@.skip(0) =~= b@);
    while i < ca.len() && i < cb.len()
        invariant
            ca@ == a@,
            cb@ == b@,
            i <= ca@.len(),
            i <= cb@.len(),
            str_less(a@, b@) == str_less(a@.skip(i as int), b@.skip(i as int)),
        decreases ca.len() - i,
    {
        if ca[i] != cb[i] {
            assert(a@.skip(i as int)[0] == ca@[i as int]);
            assert(b@.skip(i as int)[0] == cb@[i as int]);
            return ca[i] < cb[i];
        }
        proof {
            assert(a@.skip(i as int).drop_first() =~= a@.skip(i + 1));
            assert(b@.skip(i as int).drop_first() =~= b@.skip(i + 1));
        }
        i = i + 1;
    }
    i == ca.len() && i < cb.len()
}

// ── The catalogue ─────────────────────────────────────────────────────────────

/// The description and example phrases of each action the catalogue knows.
pub open spec fn description_of(a: Seq<char>) -> Option<(Seq<char>, Seq<Seq<char>>)> {
    if a == "lights_off"@ {
        Some(("Turn off the lights"@, seq!["lights off"@, "turn off the lights"@]))
    } else if a == "lights_on"@ {
        Some(("Turn on the lights"@, seq!["lights on"@, "turn on the lights"@]))
    } else if a == "pause_music"@ {
        Some(("Pause music playback"@, seq!["pause"@, "pause music"@]))
    } else if a == "play_music"@ {
        Some(("Start music playback"@, seq!["play music"@, "play something"@]))
    } else if a == "respond"@ {
        Some(("General conversation / fallback"@, seq!["what time is it?"@, "tell me a joke"@]))
    } else if a == "set_timer"@ {
        Some(("Set a countdown timer"@, seq!["set a timer for 5 minutes"@, "timer 30 seconds"@]))
    } else if a == "stop_music"@ {
        Some(("Stop music playback"@, seq!["stop music"@, "stop"@]))
    } else if a == "volume_down"@ {
        Some(("Decrease the volume"@, seq!["volume down"@, "quieter"@]))
    } else if a == "volume_up"@ {
        Some(("Increase the volume"@, seq!["volume up"@, "louder"@]))
    } else if a == "weather"@ {
        Some(("Report the current weather"@, seq!["what's the weather?"@, "is it raining?"@]))
    } else {
        None
    }
}

/// The catalogue entry of action `a`: "No description" and no phrases for an
/// action the catalogue does not know.
pub open spec fn entry_of(a: Seq<char>) -> (Seq<char>, Seq<char>, Seq<Seq<char>>) {
    match description_of(a) {
        Some((d, p)) => (a, d, p),
        None => (a, "No description"@, Seq::empty()),
    }
}

fn owned(t: &str) -> (s: String)
    ensures
        s@ == t@,
{
    let mut s = String::new();
    push_str(&mut s, t);
    s
}

fn info(action: &str, description: &str, p1: &str, p2: &str) -> (i: SkillInfo)
    ensures
        info_view(i) == (action@, description@, seq![p1@, p2@]),
{
    let phrases = vec![owned(p1), owned(p2)];
    let i = SkillInfo { action: owned(action), description: owned(description), example_phrases: phrases };
    assert(views(i.example_phrases@) =~= seq![p1@, p2@]);
    i
}

/// The catalogue entry of `action`.
pub fn skill_info(action: &str) -> (i: SkillInfo)
    ensures
        info_view(i) == entry_of(action@),
{
    if str_eq(action, "lights_off") {
        info(action, "Turn off the lights", "lights off", "turn off the lights")
    } else if str_eq(action, "lights_on") {
        info(action, "Turn on the lights", "lights on", "turn on the lights")
    } else if str_eq(action, "pause_music") {
        info(action, "Pause music playback", "pause", "pause music")
    } else if str_eq(action, "play_music") {
        info(action, "Start music playback", "play music", "play something")
    } else if str_eq(action, "respond") {
        info(action, "General conversation / fallback", "what time is it?", "tell me a joke")
    } else if str_eq(action, "set_timer") {
        info(action, "Set a countdown timer", "set a timer for 5 minutes", "timer 30 seconds")
    } else if str_eq(action, "stop_music") {
        info(action, "Stop music playback", "stop music", "stop")
    } else if str_eq(action, "volume_down") {
        info(action, "Decrease the volume", "volume down", "quieter")
    } else if str_eq(action, "volume_up") {
        info(action, "Increase the volume", "volume up", "louder")
    } else if str_eq(action, "weather") {
        info(action, "Report the current weather", "what's the weather?", "is it raining?")
    } else {
        let i = SkillInfo {
            action: owned(action),
            description: owned("No description"),
            example_phrases: Vec::new(),
        };
        assert(views(i.example_phrases@) =~= Seq::<Seq<char>>::empty());
        i
    }
}

// ── Sorting ───────────────────────────────────────────────────────────────────

/// Where an entry named `a` goes in `r`: before the first entry not sorting
/// before it.
pub open spec fn slot(r: Seq<(Seq<char>, Seq<char>, Seq<Seq<char>>)>, a: Seq<char>) -> int
    decreases r.len(),
{
    if r.len() == 0 || !str_less(r[0].0, a) {
        0
    } else {
        1 + slot(r.drop_first(), a)
    }
}

/// The catalogue entries of `actions` sorted by action name, entries with
/// equal names keeping their order (a stable sort).
pub open spec fn sorted_entries(actions: Seq<Seq<char>>) -> Seq<(Seq<char>, Seq<char>, Seq<Seq<char>>)>
    decreases actions.len(),
{
    if actions.len() == 0 {
        Seq::empty()
    } else {
        let r = sorted_entries(actions.drop_first());
        let p = slot(r, actions[0]);
        r.take(p) + seq![entry_of(actions[0])] + r.skip(p)
    }
}

/// Whether entries are in order of their names.
pub open spec fn by_name(r: Seq<(Seq<char>, Seq<char>, Seq<Seq<char>>)>) -> bool {
    forall|i: int, j: int| 0 <= i < j < r.len() ==> !str_less(#[trigger] r[j].0, #[trigger] r[i].0)
}

proof fn lemma_slot(r: Seq<(Seq<char>, Seq<char>, Seq<Seq<char>>)>, a: Seq<char>)
    ensures
        0 <= slot(r, a) <= r.len(),
        forall|k: int| 0 <= k < slot(r, a) ==> str_less(#[trigger] r[k].0, a),
        slot(r, a) < r.len() ==> !str_less(r[slot(r, a)].0, a),
    decreases r.len(),
{
    if r.len() > 0 && str_less(r[0].0, a) {
        lemma_slot(r.drop_first(), a);
        assert forall|k: int| 0 <= k < slot(r, a) implies str_less(#[trigger] r[k].0, a) by {
            if k > 0 {
                assert(r[k] == r.drop_first()[k - 1]);
            }
        }
    }
}

/// The catalogue lists each action once per occurrence, with its entry, in
/// order of action name.
pub proof fn lemma_sorted_entries(actions: Seq<Seq<char>>)
    ensures
        by_name(sorted_entries(actions)),
        sorted_entries(actions).to_multiset() == actions.map_values(|a: Seq<char>| entry_of(a)).to_multiset(),
        sorted_entries(actions).len() == actions.len(),
    decreases actions.len(),
{
    broadcast use vstd::multiset::group_multiset_axioms;
    if actions.len() > 0 {
        let rest = actions.drop_first();
        lemma_sorted_entries(rest);
        let r = sorted_entries(rest);
        let a = actions[0];
        let x = entry_of(a);
        lemma_slot(r, a);
        let p = slot(r, a);
        let out = r.take(p) + seq![x] + r.skip(p);
        assert(x.0 == a);
        assert forall|i: int, j: int| 0 <= i < j < out.len() implies !str_less(
            #[trigger] out[j].0,
            #[trigger] out[i].0,
        ) by {
            if j < p {
                assert(out[i] == r[i] && out[j] == r[j]);
            } else if j == p {
                assert(out[i] == r[i]);
                lemma_str_less_order(r[i].0, a, a);
            } else if i < p {
                assert(out[i] == r[i] && out[j] == r[j - 1]);
                lemma_str_less_order(r[i].0, r[j - 1].0, a);
                lemma_str_less_order(r[j - 1].0, r[i].0, a);
            } else if i == p {
                assert(out[j] == r[j - 1]);
                lemma_str_less_order(r[p].0, r[p].0, r[p].0);
                assert(!str_less(r[j - 1].0, r[p].0));
                lemma_str_less_order(r[j - 1].0, r[p].0, a);
                lemma_str_less_order(r[p].0, a, r[j - 1].0);
                lemma_str_less_order(r[j - 1].0, a, r[p].0);
                lemma_str_less_order(a, r[p].0, r[j - 1].0);
            } else {
                assert(out[i] == r[i - 1] && out[j] == r[j - 1]);
            }
        }
        let f = |s: Seq<char>| entry_of(s);
        let m = rest.map_values(f);
        let ta = r.take(p);
        let tb = r.skip(p);
        let xs = seq![x];
        assert(ta + tb =~= r);
        assert(out =~= (ta + xs) + tb);
        assert(actions.map_values(f) =~= xs + m);
        vstd::seq_lib::lemma_multiset_commutative(ta + xs, tb);
        vstd::seq_lib::lemma_multiset_commutative(ta, xs);
        vstd::seq_lib::lemma_multiset_commutative(ta, tb);
        vstd::seq_lib::lemma_multiset_commutative(xs, m);
        assert(out.to_multiset() == ta.to_multiset().add(xs.to_multiset()).add(tb.to_multiset()));
        assert(r.to_multiset() == ta.to_multiset().add(tb.to_multiset()));
        assert(actions.map_values(f).to_multiset() == xs.to_multiset().add(m.to_multiset()));
        assert(out.to_multiset() =~= actions.map_values(f).to_multiset());
    } else {
        assert(actions.map_values(|a: Seq<char>| entry_of(a)) =~= Seq::<
            (Seq<char>, Seq<char>, Seq<Seq<char>>),
        >::empty());
    }
}

/// Return metadata for the skills registered under `actions`, sorted by
/// action name.
pub fn skill_infos(actions: &Vec<String>) -> (infos: Vec<SkillInfo>)
    ensures
        infos@.map_values(|i: SkillInfo| info_view(i)) == sorted_entries(views(actions@)),
{
    let ghost s = views(actions@);
    let mut out: Vec<SkillInfo> = Vec::new();
    let mut i: usize = actions.len();
    assert(s.skip(i as int) =~= Seq::<Seq<char>>::empty());
    while i > 0
        invariant
            i <= actions@.len(),
            s == views(actions@),
            out@.map_values(|x: SkillInfo| info_view(x)) == sorted_entries(s.skip(i as int)),
        decreases i,
    {
        i = i - 1;
        let entry = skill_info(actions[i].as_str());
        let ghost r = out@.map_values(|x: SkillInfo| info_view(x));
        proof {
            assert(s.skip(i as int).drop_first() =~= s.skip(i + 1));
            assert(s.skip(i as int)[0] == actions@[i as int]@);
        }
        let mut k: usize = 0;
        assert(r.skip(0) =~= r);
        while k < out.len() && name_less(out[k].action.as_str(), actions[i].as_str())
            invariant
                k <= out@.len(),
                i < actions@.len(),
                r == out@.map_values(|x: SkillInfo| info_view(x)),
                slot(r, actions@[i as int]@) == k + slot(r.skip(k as int), actions@[i as int]@),
            decreases out.len() - k,
        {
            proof {
                assert(r.skip(k as int).drop_first() =~= r.skip(k + 1));
                assert(r.skip(k as int)[0] == r[k as int]);
            }
            k = k + 1;
        }
        proof {
            assert(r.skip(k as int).len() == 0 || !str_less(r.skip(k as int)[0].0, actions@[i as int]@));
        }
        out.insert(k, entry);
        proof {
            assert(out@.map_values(|x: SkillInfo| info_view(x)) =~= r.take(k as int) + seq![
                entry_of(s.skip(i as int)[0]),
            ] + r.skip(k as int));
        }
    }
    assert(s.skip(0) =~= s);
    out
}

/// The actions the skill registry holds.
pub open spec fn registered_actions() -> Seq<Seq<char>> {
    seq![
        "play_music"@,
        "pause_music"@,
        "stop_music"@,
        "set_timer"@,
        "lights_on"@,
        "lights_off"@,
        "weather"@,
        "volume_up"@,
        "volume_down"@,
        "respond"@,
    ]
}

/// Return metadata for all registered skills, sorted by action name.
/// Used by the web UI skills page and the skill-tester API.
pub fn list() -> (infos: Vec<SkillInfo>)
    ensures
        infos@.map_values(|i: SkillInfo| info_view(i)) == sorted_entries(registered_actions()),
{
    let actions = vec![
        owned("play_music"),
        owned("pause_music"),
        owned("stop_music"),
        owned("set_timer"),
        owned("lights_on"),
        owned("lights_off"),
        owned("weather"),
        owned("volume_up"),
        owned("volume_down"),
        owned("respond"),
    ];
    assert(views(actions@) =~= registered_actions());
    skill_infos(&actions)
}

// ── Dispatch ──────────────────────────────────────────────────────────────────

/// The skill that handles an action.
#[derive(Debug, Clone, Copy, PartialEq, Eq, Structural)]
pub enum SkillKind {
    PlayMusic,
    PauseMusic,
    StopMusic,
    SetTimer,
    LightsOn,
    LightsOff,
    Weather,
    VolumeUp,
    VolumeDown,
    Respond,
    /// The fallback for actions no skill is registered for.
    Unknown,
}

/// The skill registered for action `a`.
pub open spec fn kind_of(a: Seq<char>) -> SkillKind {
    if a == "play_music"@ {
        SkillKind::PlayMusic
    } else if a == "pause_music"@ {
        SkillKind::PauseMusic
    } else if a == "stop_music"@ {
        SkillKind::StopMusic
    } else if a == "set_timer"@ {
        SkillKind::SetTimer
    } else if a == "lights_on"@ {
        SkillKind::LightsOn
    } else if a == "lights_off"@ {
        SkillKind::LightsOff
    } else if a == "weather"@ {
        SkillKind::Weather
    } else if a == "volume_up"@ {
        SkillKind::VolumeUp
    } else if a == "volume_down"@ {
        SkillKind::VolumeDown
    } else if a == "respond"@ {
        SkillKind::Respond
    } else {
        SkillKind::Unknown
    }
}

/// The skill to dispatch `action` to: the registered one, or the fallback.
pub fn skill_for(action: &str) -> (k: SkillKind)
    ensures
        k == kind_of(action@),
{
    if str_eq(action, "play_music") {
        SkillKind::PlayMusic
    } else if str_eq(action, "pause_music") {
        SkillKind::PauseMusic
    } else if str_eq(action, "stop_music") {
        SkillKind::StopMusic
    } else if str_eq(action, "set_timer") {
        SkillKind::SetTimer
    } else if str_eq(action, "lights_on") {
        SkillKind::LightsOn
    } else if str_eq(action, "lights_off") {
        SkillKind::LightsOff
    } else if str_eq(action, "weather") {
        SkillKind::Weather
    } else if str_eq(action, "volume_up") {
        SkillKind::VolumeUp
    } else if str_eq(action, "volume_down") {
        SkillKind::VolumeDown
    } else if str_eq(action, "respond") {
        SkillKind::Respond
    } else {
        SkillKind::Unknown
    }
}

/// Each registered action is dispatched to the skill named after it
/// ("play_music" to the music player, "stop_music" to stopping the music,
/// "volume_up" to raising the volume, and so on through the registry), and
/// every other action to the fallback.
pub proof fn lemma_actions_dispatch_to_their_skill()
    ensures
        ({
            let names = seq![
                "play_music"@,
                "pause_music"@,
                "stop_music"@,
                "set_timer"@,
                "lights_on"@,
                "lights_off"@,
                "weather"@,
                "volume_up"@,
                "volume_down"@,
                "respond"@,
            ];
            let kinds = seq![
                SkillKind::PlayMusic,
                SkillKind::PauseMusic,
                SkillKind::StopMusic,
                SkillKind::SetTimer,
                SkillKind::LightsOn,
                SkillKind::LightsOff,
                SkillKind::Weather,
                SkillKind::VolumeUp,
                SkillKind::VolumeDown,
                SkillKind::Respond,
            ];
            &&& forall|i: int| 0 <= i < names.len() ==> kind_of(#[trigger] names[i]) == kinds[i]
            &&& forall|a: Seq<char>| !names.contains(a) ==> #[trigger] kind_of(a) == SkillKind::Unknown
        }),
{
    lemma_registered_actions_dispatch();
    let names = seq![
        "play_music"@,
        "pause_music"@,
        "stop_music"@,
        "set_timer"@,
        "lights_on"@,
        "lights_off"@,
        "weather"@,
        "volume_up"@,
        "volume_down"@,
        "respond"@,
    ];
    assert(names =~= registered_actions());
    let r = registered_actions();
    assert(kind_of(r[0]) == SkillKind::PlayMusic);
    assert(kind_of(r[1]) == SkillKind::PauseMusic);
    assert(kind_of(r[2]) == SkillKind::StopMusic);
    assert(kind_of(r[3]) == SkillKind::SetTimer);
    assert(kind_of(r[4]) == SkillKind::LightsOn);
    assert(kind_of(r[5]) == SkillKind::LightsOff);
    assert(kind_of(r[6]) == SkillKind::Weather);
    assert(kind_of(r[7]) == SkillKind::VolumeUp);
    assert(kind_of(r[8]) == SkillKind::VolumeDown);
    assert(kind_of(r[9]) == SkillKind::Respond);
    assert forall|a: Seq<char>| !names.contains(a) implies #[trigger] kind_of(a)
        == SkillKind::Unknown by {
        if a == names[0] || a == names[1] || a == names[2] || a == names[3] || a == names[4]
            || a == names[5] || a == names[6] || a == names[7] || a == names[8] || a == names[9] {
            assert(false);
        }
    }
}

/// Every registered action is handled by a skill of its own and has a
/// catalogue entry, and every action the trie can match is registered.
pub proof fn lemma_registered_actions_dispatch()
    ensures
        forall|i: int|
            0 <= i < registered_actions().len() ==> kind_of(#[trigger] registered_actions()[i])
                != SkillKind::Unknown && description_of(registered_actions()[i]) is Some,
        forall|i: int, j: int|
            0 <= i < j < registered_actions().len() ==> kind_of(#[trigger] registered_actions()[i])
                != kind_of(#[trigger] registered_actions()[j]),
        forall|a: crate::trie::TrieAction|
            #![trigger crate::trie::action_name(a)]
            registered_actions().contains(crate::trie::action_name(a)),
{
    reveal_strlit("play_music");
    reveal_strlit("pause_music");
    reveal_strlit("stop_music");
    reveal_strlit("set_timer");
    reveal_strlit("lights_on");
    reveal_strlit("lights_off");
    reveal_strlit("weather");
    reveal_strlit("volume_up");
    reveal_strlit("volume_down");
    reveal_strlit("respond");
    let r = registered_actions();
    assert(r[0] == "play_music"@);
    assert(r[1] == "pause_music"@);
    assert(r[2] == "stop_music"@);
    assert(r[3] == "set_timer"@);
    assert(r[4] == "lights_on"@);
    assert(r[5] == "lights_off"@);
    assert(r[6] == "weather"@);
    assert(r[7] == "volume_up"@);
    assert(r[8] == "volume_down"@);
    assert(r[9] == "respond"@);
    assert(r[1].len() != "play_music"@.len());
    assert(r[2][0] != "play_music"@[0]);
    assert(r[2].len() != "pause_music"@.len());
    assert(r[3].len() != "play_music"@.len());
    assert(r[3].len() != "pause_music"@.len());
    assert(r[3].len() != "stop_music"@.len());
    assert(r[4].len() != "play_music"@.len());
    assert(r[4].len() != "pause_music"@.len());
    assert(r[4].len() != "stop_music"@.len());
    assert(r[4][0] != "set_timer"@[0]);
    assert(r[5][0] != "play_music"@[0]);
    assert(r[5].len() != "pause_music"@.len());
    assert(r[5][0] != "stop_music"@[0]);
    assert(r[5].len() != "set_timer"@.len());
    assert(r[5].len() != "lights_on"@.len());
    assert(r[6].len() != "play_music"@.len());
    assert(r[6].len() != "pause_music"@.len());
    assert(r[6].len() != "stop_music"@.len());
    assert(r[6].len() != "set_timer"@.len());
    assert(r[6].len() != "lights_on"@.len());
    assert(r[6].len() != "lights_off"@.len());
    assert(r[7].len() != "play_music"@.len());
    assert(r[7].len() != "pause_music"@.len());
    assert(r[7].len() != "stop_music"@.len());
    assert(r[7][0] != "set_timer"@[0]);
    assert(r[7][0] != "lights_on"@[0]);
    assert(r[7].len() != "lights_off"@.len());
    assert(r[7].len() != "weather"@.len());
    assert(r[8].len() != "play_music"@.len());
    assert(r[8][0] != "pause_music"@[0]);
    assert(r[8].len() != "stop_music"@.len());
    assert(r[8].len() != "set_timer"@.len());
    assert(r[8].len() != "lights_on"@.len());
    assert(r[8].len() != "lights_off"@.len());
    assert(r[8].len() != "weather"@.len());
    assert(r[8].len() != "volume_up"@.len());
    assert(r[9].len() != "play_music"@.len());
    assert(r[9].len() != "pause_music"@.len());
    assert(r[9].len() != "stop_music"@.len());
    assert(r[9].len() != "set_timer"@.len());
    assert(r[9].len() != "lights_on"@.len());
    assert(r[9].len() != "lights_off"@.len());
    assert(r[9][0] != "weather"@[0]);
    assert(r[9].len() != "volume_up"@.len());
    assert(r[9].len() != "volume_down"@.len());
    assert(kind_of(r[0]) == SkillKind::PlayMusic);
    assert(kind_of(r[1]) == SkillKind::PauseMusic);
    assert(kind_of(r[2]) == SkillKind::StopMusic);
    assert(kind_of(r[3]) == SkillKind::SetTimer);
    assert(kind_of(r[4]) == SkillKind::LightsOn);
    assert(kind_of(r[5]) == SkillKind::LightsOff);
    assert(kind_of(r[6]) == SkillKind::Weather);
    assert(kind_of(r[7]) == SkillKind::VolumeUp);
    assert(kind_of(r[8]) == SkillKind::VolumeDown);
    assert(kind_of(r[9]) == SkillKind::Respond);
    assert forall|a: crate::trie::TrieAction|
        #![trigger crate::trie::action_name(a)]
        r.contains(crate::trie::action_name(a)) by {
        match a {
            crate::trie::TrieAction::PlayMusic => assert(r[0] == crate::trie::action_name(a)),
            crate::trie::TrieAction::PauseMusic => assert(r[1] == crate::trie::action_name(a)),
            crate::trie::TrieAction::StopMusic => assert(r[2] == crate::trie::action_name(a)),
            crate::trie::TrieAction::SetTimer => assert(r[3] == crate::trie::action_name(a)),
            crate::trie::TrieAction::LightsOn => assert(r[4] == crate::trie::action_name(a)),
            crate::trie::TrieAction::LightsOff => assert(r[5] == crate::trie::action_name(a)),
            crate::trie::TrieAction::Weather => assert(r[6] == crate::trie::action_name(a)),
            crate::trie::TrieAction::VolumeUp => assert(r[7] == crate::trie::action_name(a)),
            crate::trie::TrieAction::VolumeDown => assert(r[8] == crate::trie::action_name(a)),
        }
    }
}

} // verus!
