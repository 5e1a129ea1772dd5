//! Dispatching an action to its skill: the replies that need no outside
//! work are made here; for the others the step names the work (a music
//! search, a lights call, a forecast, a mixer change) that the caller does
//! before asking the skill's reply function for the answer.
use vstd::prelude::*;
use crate::catalog::{kind_of, skill_for, SkillKind};
use crate::music::{pause_music, stop_music};
use crate::skills::{
    duration_phrase, respond_reply, set_timer, timer_seconds, timer_set_reply,
    unknown_action_reply,
};
use crate::text::{push_str, str_eq};
use crate::types::SkillResult;

verus! {

/// What dispatching an action comes to.
pub enum SkillStep {
    /// Speak this result; nothing else is to be done.
    Reply(SkillResult),
    /// Speak this result and start a timer of `seconds` labelled `label`.
    StartTimer { result: SkillResult, seconds: u64, label: String },
    /// Search the music library and play what it finds.
    PlayMusic,
    /// Switch the lights on (or off).
    Lights { on: bool },
    /// Fetch the current weather.
    Weather,
    /// Turn the volume up (or down).
    Volume { up: bool },
}

/// Whether `r` speaks `text` and sends the playback command `action` with
/// no track.
pub open spec fn music_control(r: SkillResult, action: Seq<char>, text: Seq<char>) -> bool {
    &&& r.spoken_reply@ == text
    &&& r.music_command matches Some(m) && m.action@ == action && m.stream_url@.len() == 0
        && m.title@.len() == 0 && m.artist@.len() == 0
}

/// Dispatch `action`, whose parameters hold `duration_seconds` (for a
/// timer) and `response` (the language model's text), to its skill; an
/// action no skill is registered for gets the fallback reply.
pub fn dispatch_step(action: &str, duration_seconds: Option<u64>, response: Option<&str>) -> (s:
    SkillStep)
    ensures
        match kind_of(action@) {
            SkillKind::PlayMusic => s is PlayMusic,
            SkillKind::PauseMusic => s matches SkillStep::Reply(r) && music_control(
                r,
                "pause"@,
                "Music paused."@,
            ),
            SkillKind::StopMusic => s matches SkillStep::Reply(r) && music_control(
                r,
                "stop"@,
                "Music stopped."@,
            ),
            SkillKind::SetTimer => s matches SkillStep::StartTimer { result, seconds, label }
                && result.spoken_reply@ == timer_set_reply(timer_seconds(duration_seconds) as nat)
                && result.music_command is None && seconds == timer_seconds(duration_seconds)
                && label@ == duration_phrase(timer_seconds(duration_seconds) as nat),
            SkillKind::LightsOn => s == SkillStep::Lights { on: true },
            SkillKind::LightsOff => s == SkillStep::Lights { on: false },
            SkillKind::Weather => s is Weather,
            SkillKind::VolumeUp => s == SkillStep::Volume { up: true },
            SkillKind::VolumeDown => s == SkillStep::Volume { up: false },
            SkillKind::Respond => s matches SkillStep::Reply(r) && r.music_command is None
                && r.spoken_reply@ == match response {
                Some(t) => t@,
                None => "Okay."@,
            },
            SkillKind::Unknown => s matches SkillStep::Reply(r) && r.music_command is None
                && r.spoken_reply@ == "Sorry, I don't know how to do that yet."@,
        },
{
    match skill_for(action) {
        SkillKind::PlayMusic => SkillStep::PlayMusic,
        SkillKind::PauseMusic => SkillStep::Reply(pause_music()),
        SkillKind::StopMusic => SkillStep::Reply(stop_music()),
        SkillKind::SetTimer => {
            let (result, seconds, label) = set_timer(duration_seconds);
            SkillStep::StartTimer { result, seconds, label }
        },
        SkillKind::LightsOn => SkillStep::Lights { on: true },
        SkillKind::LightsOff => SkillStep::Lights { on: false },
        SkillKind::Weather => SkillStep::Weather,
        SkillKind::VolumeUp => SkillStep::Volume { up: true },
        SkillKind::VolumeDown => SkillStep::Volume { up: false },
        SkillKind::Respond => SkillStep::Reply(respond_reply(response)),
        SkillKind::Unknown => SkillStep::Reply(unknown_action_reply()),
    }
}

// ── The parameters a language-model reply is dispatched with ─────────────────

/// A parameter value: a JSON string (held as its text) or any other JSON
/// value (held as its JSON text).
pub enum ParamValue {
    Text(String),
    Json(String),
}

/// A parameter value as plain values: whether it is a string, and its text.
pub open spec fn value_view(v: ParamValue) -> (bool, Seq<char>) {
    match v {
        ParamValue::Text(t) => (true, t@),
        ParamValue::Json(j) => (false, j@),
    }
}

/// Parameters (an object's entries, one per key) as plain values.
pub open spec fn params_view(p: Seq<(String, ParamValue)>) -> Seq<(Seq<char>, (bool, Seq<char>))> {
    p.map_values(|e: (String, ParamValue)| (e.0@, value_view(e.1)))
}

/// The entries of `p` whose key is not `k`, in order.
pub open spec fn without_key(p: Seq<(Seq<char>, (bool, Seq<char>))>, k: Seq<char>) -> Seq<
    (Seq<char>, (bool, Seq<char>)),
>
    decreases p.len(),
{
    if p.len() == 0 {
        Seq::empty()
    } else if p.last().0 == k {
        without_key(p.drop_last(), k)
    } else {
        without_key(p.drop_last(), k).push(p.last())
    }
}

/// The parameters a language-model reply is dispatched with: the ones it
/// gave (none: an empty object) with its reply text set as the string
/// `"response"`.
pub open spec fn with_response(p: Seq<(Seq<char>, (bool, Seq<char>))>, response: Seq<char>) -> Seq<
    (Seq<char>, (bool, Seq<char>)),
> {
    without_key(p, "response"@).push(("response"@, (true, response)))
}

/// The string value under key `k`, if the entry for `k` holds a string.
pub open spec fn text_param(p: Seq<(Seq<char>, (bool, Seq<char>))>, k: Seq<char>) -> Option<Seq<char>>
    decreases p.len(),
{
    if p.len() == 0 {
        None
    } else if p[0].0 == k {
        if p[0].1.0 {
            Some(p[0].1.1)
        } else {
            None
        }
    } else {
        text_param(p.skip(1), k)
    }
}

fn copy_text(t: &str) -> (r: String)
    ensures
        r@ == t@,
{
    let mut r = String::new();
    push_str(&mut r, t);
    r
}

/// Build the parameters a language-model reply is dispatched with.
pub fn dispatched_params(params: Option<Vec<(String, ParamValue)>>, response: String) -> (r: Vec<
    (String, ParamValue),
>)
    ensures
        params_view(r@) == with_response(
            match params {
                Some(p) => params_view(p@),
                None => Seq::empty(),
            },
            response@,
        ),
{
    let given: Vec<(String, ParamValue)> = match params {
        Some(p) => p,
        None => Vec::new(),
    };
    let ghost g = params_view(given@);
    let mut out: Vec<(String, ParamValue)> = Vec::new();
    let mut i: usize = 0;
    while i < given.len()
        invariant
            i <= given@.len(),
            g == params_view(given@),
            params_view(out@) == without_key(g.take(i as int), "response"@),
        decreases given.len() - i,
    {
        let key = &given[i].0;
        assert(g.take(i + 1).drop_last() =~= g.take(i as int));
        if !str_eq(key.as_str(), "response") {
            let value = match &given[i].1 {
                ParamValue::Text(t) => ParamValue::Text(copy_text(t.as_str())),
                ParamValue::Json(j) => ParamValue::Json(copy_text(j.as_str())),
            };
            out.push((copy_text(key.as_str()), value));
            assert(params_view(out@) =~= without_key(g.take(i as int), "response"@).push(g[i as int]));
        }
        i = i + 1;
    }
    assert(g.take(given@.len() as int) =~= g);
    out.push((copy_text("response"), ParamValue::Text(response)));
    assert(params_view(out@) =~= with_response(g, response@));
    out
}

/// The string under key `k` in parameters `p`.
pub fn param_text(p: &[(String, ParamValue)], k: &str) -> (r: Option<String>)
    ensures
        match text_param(params_view(p@), k@) {
            Some(t) => r matches Some(x) && x@ == t,
            None => r is None,
        },
{
    let ghost g = params_view(p@);
    let mut i: usize = 0;
    assert(g.skip(0) =~= g);
    while i < p.len()
        invariant
            i <= p@.len(),
            g == params_view(p@),
            text_param(g, k@) == text_param(g.skip(i as int), k@),
        decreases p.len() - i,
    {
        assert(g.skip(i as int)[0] == g[i as int]);
        if str_eq(p[i].0.as_str(), k) {
            return match &p[i].1 {
                ParamValue::Text(t) => Some(copy_text(t.as_str())),
                ParamValue::Json(_) => None,
            };
        }
        assert(g.skip(i as int).skip(1) =~= g.skip(i + 1));
        i = i + 1;
    }
    None
}

/// Entries without key `k` hold no entry for `k`.
proof fn lemma_without_key_lacks(p: Seq<(Seq<char>, (bool, Seq<char>))>, k: Seq<char>)
    ensures
        forall|i: int| 0 <= i < without_key(p, k).len() ==> #[trigger] without_key(p, k)[i].0 != k,
    decreases p.len(),
{
    if p.len() > 0 {
        let w = without_key(p.drop_last(), k);
        lemma_without_key_lacks(p.drop_last(), k);
        assert forall|i: int| 0 <= i < without_key(p, k).len() implies #[trigger] without_key(
            p,
            k,
        )[i].0 != k by {
            if i < w.len() {
                assert(without_key(p, k)[i] == w[i]);
            }
        }
    }
}

/// Looking past entries that lack the key.
proof fn lemma_text_param_skips(a: Seq<(Seq<char>, (bool, Seq<char>))>, b: Seq<(Seq<char>, (bool, Seq<char>))>, k: Seq<char>)
    requires
        forall|i: int| 0 <= i < a.len() ==> #[trigger] a[i].0 != k,
    ensures
        text_param(a + b, k) == text_param(b, k),
    decreases a.len(),
{
    if a.len() > 0 {
        assert((a + b).skip(1) =~= a.skip(1) + b);
        assert forall|i: int| 0 <= i < a.skip(1).len() implies #[trigger] a.skip(1)[i].0 != k by {
            assert(a.skip(1)[i] == a[i + 1]);
        }
        lemma_text_param_skips(a.skip(1), b, k);
    }
}

/// The skills see the language model's reply text: in the parameters it is
/// dispatched with, the string under `"response"` is that text, whatever
/// parameters the model gave.
pub proof fn lemma_response_reaches_skill(p: Seq<(Seq<char>, (bool, Seq<char>))>, response: Seq<char>)
    ensures
        text_param(with_response(p, response), "response"@) == Some(response),
{
    let w = without_key(p, "response"@);
    lemma_without_key_lacks(p, "response"@);
    let last = seq![("response"@, (true, response))];
    assert(with_response(p, response) =~= w + last);
    lemma_text_param_skips(w, last, "response"@);
    assert(last.skip(1) =~= Seq::<(Seq<char>, (bool, Seq<char>))>::empty());
}

} // verus!
