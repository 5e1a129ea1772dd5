//! Skill logic: the replies that skills speak, the parsing of tool output
//! they rely on, and the catalogue of registered skills.
use vstd::prelude::*;
use crate::text::{str_eq, 
    chars_of, decimal, lowercase, parse_unsigned, parse_unsigned_chars, push_decimal, push_str,
    string_from_chars, to_lowercase, trim, trim_range,
};
use crate::types::SkillResult;

verus! {

// ── Durations ─────────────────────────────────────────────────────────────────

/// `n` followed by `unit`, pluralised unless `n` is one.
pub open spec fn count_of(n: nat, unit: Seq<char>) -> Seq<char> {
    decimal(n) + " "@ + unit + if n == 1 {
        Seq::<char>::empty()
    } else {
        "s"@
    }
}

/// A duration in seconds as natural English: the two most significant
/// non-zero units, seconds dropped when hours are present.
pub open spec fn duration_phrase(total: nat) -> Seq<char> {
    let h = total / 3600;
    let m = (total % 3600) / 60;
    let s = total % 60;
    if h == 0 && m == 0 {
        count_of(s, "second"@)
    } else if h == 0 && s == 0 {
        count_of(m, "minute"@)
    } else if h == 0 {
        count_of(m, "minute"@) + " and "@ + count_of(s, "second"@)
    } else if m == 0 {
        count_of(h, "hour"@)
    } else {
        count_of(h, "hour"@) + " and "@ + count_of(m, "minute"@)
    }
}

/// A duration of at least an hour is spoken by its hours, then — whenever
/// it has minutes beyond the whole hours — " and " and those minutes; its
/// seconds are not spoken.
pub proof fn lemma_duration_with_hours(total: nat)
    requires
        total >= 3600,
    ensures
        (total % 3600) / 60 > 0 ==> duration_phrase(total) == decimal(total / 3600) + " hour"@ + (
        if total / 3600 == 1 {
            ""@
        } else {
            "s"@
        }) + " and "@ + decimal((total % 3600) / 60) + " minute"@ + (if (total % 3600) / 60 == 1 {
            ""@
        } else {
            "s"@
        }),
        (total % 3600) / 60 == 0 ==> duration_phrase(total) == decimal(total / 3600) + " hour"@ + (
        if total / 3600 == 1 {
            ""@
        } else {
            "s"@
        }),
{
    reveal_strlit("");
    reveal_strlit(" hour");
    reveal_strlit("hour");
    reveal_strlit(" minute");
    reveal_strlit("minute");
    reveal_strlit(" ");
    let h = total / 3600;
    let m = (total % 3600) / 60;
    assert(" "@ + "hour"@ =~= " hour"@);
    assert(" "@ + "minute"@ =~= " minute"@);
    assert(""@ =~= Seq::<char>::empty());
    assert(count_of(h, "hour"@) =~= decimal(h) + " hour"@ + (if h == 1 { ""@ } else { "s"@ }));
    assert(count_of(m, "minute"@) =~= decimal(m) + " minute"@ + (if m == 1 { ""@ } else { "s"@ }));
}

/// A duration under an hour is spoken in seconds alone when under a
/// minute; otherwise by its minutes, then — whenever it has seconds beyond
/// the whole minutes — " and " and those seconds.
pub proof fn lemma_duration_under_an_hour(total: nat)
    requires
        total < 3600,
    ensures
        total < 60 ==> duration_phrase(total) == decimal(total) + " second"@ + (if total == 1 {
            ""@
        } else {
            "s"@
        }),
        total >= 60 && total % 60 == 0 ==> duration_phrase(total) == decimal(total / 60)
            + " minute"@ + (if total / 60 == 1 {
            ""@
        } else {
            "s"@
        }),
        total >= 60 && total % 60 > 0 ==> duration_phrase(total) == decimal(total / 60)
            + " minute"@ + (if total / 60 == 1 {
            ""@
        } else {
            "s"@
        }) + " and "@ + decimal(total % 60) + " second"@ + (if total % 60 == 1 {
            ""@
        } else {
            "s"@
        }),
{
    reveal_strlit("");
    reveal_strlit(" second");
    reveal_strlit("second");
    reveal_strlit(" minute");
    reveal_strlit("minute");
    reveal_strlit(" ");
    let m = total / 60;
    let sec = total % 60;
    assert(total / 3600 == 0);
    assert((total % 3600) / 60 == m);
    assert(" "@ + "minute"@ =~= " minute"@);
    assert(" "@ + "second"@ =~= " second"@);
    assert(""@ =~= Seq::<char>::empty());
    assert(count_of(m, "minute"@) =~= decimal(m) + " minute"@ + (if m == 1 { ""@ } else { "s"@ }));
    assert(count_of(sec, "second"@) =~= decimal(sec) + " second"@ + (if sec == 1 {
        ""@
    } else {
        "s"@
    }));
    if total < 60 {
        assert(sec == total);
    }
}

/// One more hour on a duration of at least an hour changes only the hour
/// count spoken: what follows it stays the same.
pub proof fn lemma_duration_one_more_hour(total: nat)
    requires
        total >= 3600,
    ensures
        duration_phrase(total + 3600) == count_of(total / 3600 + 1, "hour"@)
            + duration_phrase(total).skip(count_of(total / 3600, "hour"@).len() as int),
{
    let t2 = total + 3600;
    assert(t2 / 3600 == total / 3600 + 1 && t2 % 3600 == total % 3600) by (nonlinear_arith)
        requires
            t2 == total + 3600,
    ;
    let h = total / 3600;
    let rest = duration_phrase(total).skip(count_of(h, "hour"@).len() as int);
    if (total % 3600) / 60 == 0 {
        assert(rest =~= Seq::<char>::empty());
        assert(duration_phrase(t2) =~= count_of(h + 1, "hour"@) + rest);
    } else {
        assert(rest =~= " and "@ + count_of((total % 3600) / 60, "minute"@));
        assert(duration_phrase(t2) =~= count_of(h + 1, "hour"@) + rest);
    }
}

fn push_count(s: &mut String, n: u64, unit: &str)
    ensures
        final(s)@ == old(s)@ + count_of(n as nat, unit@),
{
    push_decimal(s, n);
    push_str(s, " ");
    push_str(s, unit);
    if n != 1 {
        push_str(s, "s");
    }
    assert(final(s)@ =~= old(s)@ + count_of(n as nat, unit@));
}

/// Convert a duration in seconds into a natural English phrase.
///
/// Only the two most significant non-zero units are spoken, and seconds
/// are dropped when hours are present: 30 → "30 seconds",
/// 90 → "1 minute and 30 seconds", 3660 → "1 hour and 1 minute", 7200 → "2 hours".
pub fn friendly_duration(total_secs: u64) -> (r: String)
    ensures
        r@ == duration_phrase(total_secs as nat),
{
    let hours = total_secs / 3600;
    let mins = (total_secs % 3600) / 60;
    let secs = total_secs % 60;
    let mut r = String::new();
    if hours == 0 && mins == 0 {
        push_count(&mut r, secs, "second");
    } else if hours == 0 && secs == 0 {
        push_count(&mut r, mins, "minute");
    } else if hours == 0 {
        push_count(&mut r, mins, "minute");
        push_str(&mut r, " and ");
        push_count(&mut r, secs, "second");
    } else if mins == 0 {
        push_count(&mut r, hours, "hour");
    } else {
        push_count(&mut r, hours, "hour");
        push_str(&mut r, " and ");
        push_count(&mut r, mins, "minute");
    }
    assert(r@ =~= duration_phrase(total_secs as nat));
    r
}

/// The timer length asked for, one minute when none is given.
pub open spec fn timer_seconds(param: Option<u64>) -> u64 {
    match param {
        Some(s) => s,
        None => 60,
    }
}

/// The reply when a timer of `secs` seconds is set.
pub open spec fn timer_set_reply(secs: nat) -> Seq<char> {
    "Timer set for "@ + duration_phrase(secs) + "."@
}

/// What is spoken when a timer labelled `label` runs out.
pub open spec fn timer_up_message(label: Seq<char>) -> Seq<char> {
    "Your "@ + label + " timer is up."@
}

/// The reply to a `set_timer` request whose `duration_seconds` parameter is
/// `param`, with the seconds to wait and the label of the timer.
pub fn set_timer(param: Option<u64>) -> (r: (SkillResult, u64, String))
    ensures
        r.0.spoken_reply@ == timer_set_reply(timer_seconds(param) as nat),
        r.0.music_command is None,
        r.1 == timer_seconds(param),
        r.2@ == duration_phrase(timer_seconds(param) as nat),
{
    let secs = match param {
        Some(s) => s,
        None => 60,
    };
    let label = friendly_duration(secs);
    let mut reply = String::new();
    push_str(&mut reply, "Timer set for ");
    push_str(&mut reply, label.as_str());
    push_str(&mut reply, ".");
    assert(reply@ =~= timer_set_reply(secs as nat));
    (SkillResult::speak(reply), secs, label)
}

/// The message enqueued for speech when a timer labelled `label` fires.
pub fn timer_up(label: &str) -> (r: String)
    ensures
        r@ == timer_up_message(label@),
{
    let mut r = String::new();
    push_str(&mut r, "Your ");
    push_str(&mut r, label);
    push_str(&mut r, " timer is up.");
    assert(r@ =~= timer_up_message(label@));
    r
}

// ── Weather ───────────────────────────────────────────────────────────────────

/// WMO weather interpretation code → human-readable English.
pub open spec fn wmo_text(code: u64) -> Seq<char> {
    if code == 0 {
        "clear sky"@
    } else if code == 1 {
        "mainly clear"@
    } else if code == 2 {
        "partly cloudy"@
    } else if code == 3 {
        "overcast"@
    } else if code == 45 || code == 48 {
        "foggy"@
    } else if code == 51 {
        "light drizzle"@
    } else if code == 53 {
        "moderate drizzle"@
    } else if code == 55 {
        "heavy drizzle"@
    } else if code == 61 {
        "light rain"@
    } else if code == 63 {
        "moderate rain"@
    } else if code == 65 {
        "heavy rain"@
    } else if code == 71 {
        "light snow"@
    } else if code == 73 {
        "moderate snow"@
    } else if code == 75 {
        "heavy snow"@
    } else if code == 77 {
        "snow grains"@
    } else if code == 80 {
        "light showers"@
    } else if code == 81 {
        "moderate showers"@
    } else if code == 82 {
        "heavy showers"@
    } else if code == 85 {
        "light snow showers"@
    } else if code == 86 {
        "heavy snow showers"@
    } else if code == 95 {
        "thunderstorm"@
    } else if code == 96 || code == 99 {
        "thunderstorm with hail"@
    } else {
        "unknown conditions"@
    }
}

/// WMO Weather Interpretation Code → human-readable English.
pub fn wmo_description(code: u64) -> (s: &'static str)
    ensures
        s@ == wmo_text(code),
{
    match code {
        0 => "clear sky",
        1 => "mainly clear",
        2 => "partly cloudy",
        3 => "overcast",
        45 | 48 => "foggy",
        51 => "light drizzle",
        53 => "moderate drizzle",
        55 => "heavy drizzle",
        61 => "light rain",
        63 => "moderate rain",
        65 => "heavy rain",
        71 => "light snow",
        73 => "moderate snow",
        75 => "heavy snow",
        77 => "snow grains",
        80 => "light showers",
        81 => "moderate showers",
        82 => "heavy showers",
        85 => "light snow showers",
        86 => "heavy snow showers",
        95 => "thunderstorm",
        96 | 99 => "thunderstorm with hail",
        _ => "unknown conditions",
    }
}

// ── Volume ────────────────────────────────────────────────────────────────────

/// Index of the first `c` in `s`, if any.
pub open spec fn first_index(s: Seq<char>, c: char) -> Option<int>
    decreases s.len(),
{
    if s.len() == 0 {
        None
    } else if s[0] == c {
        Some(0)
    } else {
        match first_index(s.drop_first(), c) {
            Some(i) => Some(i + 1),
            None => None,
        }
    }
}

proof fn lemma_first_index(s: Seq<char>, c: char, i: int)
    requires
        0 <= i <= s.len(),
        forall|k: int| 0 <= k < i ==> s[k] != c,
        i < s.len() ==> s[i] == c,
    ensures
        first_index(s, c) == (if i < s.len() {
            Some(i)
        } else {
            None::<int>
        }),
    decreases i,
{
    if i > 0 {
        assert forall|k: int| 0 <= k < i - 1 implies s.drop_first()[k] != c by {
            assert(s.drop_first()[k] == s[k + 1]);
        }
        lemma_first_index(s.drop_first(), c, i - 1);
    }
}

/// Index of the first `c` in `cs[from..]`, counted from `from`.
pub(crate) fn find_char(cs: &[char], from: usize, c: char) -> (r: Option<usize>)
    requires
        from <= cs@.len(),
    ensures
        r matches Some(i) ==> from <= i < cs@.len() && first_index(cs@.skip(from as int), c) == Some(
            i - from,
        ),
        r is None ==> first_index(cs@.skip(from as int), c) is None,
{
    let mut i = from;
    while i < cs.len()
        invariant
            from <= i <= cs@.len(),
            forall|k: int| from <= k < i ==> cs@[k] != c,
        decreases cs@.len() - i,
    {
        if cs[i] == c {
            proof {
                lemma_first_index(cs@.skip(from as int), c, i - from);
            }
            return Some(i);
        }
        i = i + 1;
    }
    proof {
        lemma_first_index(cs@.skip(from as int), c, cs@.len() - from);
    }
    None
}

/// The percentage a bracketed field holds when it has the form `N%`: the
/// text before the `%`, trimmed, read as a number from 0 to 255.
pub open spec fn field_percent(field: Seq<char>) -> Option<nat> {
    if field.len() > 0 && field.last() == '%' {
        parse_unsigned(trim(field.drop_last()), 255)
    } else {
        None
    }
}

/// The percentage in the first bracketed field of the form `[N%]` of mixer
/// output: each `[` opens a field that ends at the next `]`; fields of other
/// forms (such as `[on]`) are passed over.
pub open spec fn volume_percent(out: Seq<char>) -> Option<nat>
    decreases out.len(),
{
    match first_index(out, '[') {
        None => None,
        Some(b) => {
            proof {
                lemma_first_index_in(out, '[');
            }
            let rest = out.skip(b + 1);
            match first_index(rest, ']') {
                None => None,
                Some(e) => {
                    proof {
                        lemma_first_index_in(rest, ']');
                    }
                    match field_percent(rest.take(e)) {
                        Some(p) => Some(p),
                        None => volume_percent(rest.skip(e + 1)),
                    }
                },
            }
        },
    }
}

/// An index `first_index` finds lies inside the text.
pub proof fn lemma_first_index_in(s: Seq<char>, c: char)
    ensures
        first_index(s, c) matches Some(i) ==> 0 <= i < s.len(),
    decreases s.len(),
{
    if s.len() > 0 && s[0] != c {
        lemma_first_index_in(s.drop_first(), c);
    }
}

/// The percentage of the field `cs[from..to]`, if it has the form `N%`.
fn field_percent_exec(cs: &[char], from: usize, to: usize) -> (r: Option<u8>)
    requires
        from <= to <= cs@.len(),
    ensures
        r matches Some(v) ==> field_percent(cs@.subrange(from as int, to as int)) == Some(v as nat),
        r is None ==> field_percent(cs@.subrange(from as int, to as int)) is None,
{
    if to == from || cs[to - 1] != '%' {
        return None;
    }
    let sub = &cs[from..to - 1];
    assert(sub@ =~= cs@.subrange(from as int, to as int).drop_last());
    let (s, t) = trim_range(sub);
    match parse_unsigned_chars(sub, s, t, 255) {
        Some(v) => Some(v as u8),
        None => None,
    }
}

/// Extract the first `[N%]` from `amixer sset` / `amixer sget` output.
pub fn parse_volume_pct(output: &str) -> (r: Option<u8>)
    ensures
        r matches Some(v) ==> volume_percent(output@) == Some(v as nat),
        r is None ==> volume_percent(output@) is None,
{
    let cs = chars_of(output);
    let n = cs.len();
    let mut pos: usize = 0;
    assert(cs@.skip(0) =~= cs@);
    while pos < n
        invariant
            pos <= n == cs@.len(),
            cs@ == output@,
            volume_percent(output@) == volume_percent(cs@.skip(pos as int)),
        decreases n - pos,
    {
        let ghost s = cs@.skip(pos as int);
        let b = match find_char(cs.as_slice(), pos, '[') {
            Some(b) => b,
            None => {
                return None;
            },
        };
        proof {
            lemma_first_index_in(s, '[');
            assert(s.skip(b - pos + 1) =~= cs@.skip(b + 1));
        }
        let e = match find_char(cs.as_slice(), b + 1, ']') {
            Some(e) => e,
            None => {
                return None;
            },
        };
        proof {
            let rest = cs@.skip(b + 1);
            assert(rest.take(e - (b + 1)) =~= cs@.subrange(b + 1, e as int));
            assert(rest.skip(e - (b + 1) + 1) =~= cs@.skip(e + 1));
        }
        match field_percent_exec(cs.as_slice(), b + 1, e) {
            Some(v) => {
                return Some(v);
            },
            None => {},
        }
        pos = e + 1;
    }
    assert(cs@.skip(pos as int) =~= Seq::<char>::empty());
    None
}

/// The amixer argument that steps the volume by `step` percent.
pub open spec fn volume_delta(step: nat, up: bool) -> Seq<char> {
    decimal(step) + if up {
        "%+"@
    } else {
        "%-"@
    }
}

/// The arguments of `amixer sset <control> <step>%± unmute`.
pub fn volume_command_args(control: &str, step: u8, up: bool) -> (args: Vec<String>)
    ensures
        args@.len() == 4,
        args@[0]@ == "sset"@,
        args@[1]@ == control@,
        args@[2]@ == volume_delta(step as nat, up),
        args@[3]@ == "unmute"@,
{
    let mut delta = String::new();
    push_decimal(&mut delta, step as u64);
    if up {
        push_str(&mut delta, "%+");
    } else {
        push_str(&mut delta, "%-");
    }
    assert(delta@ =~= volume_delta(step as nat, up));
    let mut args: Vec<String> = Vec::new();
    args.push(String::from_str("sset"));
    args.push(String::from_str(control));
    args.push(delta);
    args.push(String::from_str("unmute"));
    args
}

/// "up" or "down".
pub open spec fn direction_word(up: bool) -> Seq<char> {
    if up {
        "up"@
    } else {
        "down"@
    }
}

/// The reply after a volume change whose mixer printed `out`.
pub open spec fn volume_reply(up: bool, out: Seq<char>) -> Seq<char> {
    match volume_percent(out) {
        Some(p) => "Volume "@ + direction_word(up) + ", now at "@ + decimal(p) + "%."@,
        None => "Volume "@ + direction_word(up) + "."@,
    }
}

/// The apology spoken when the mixer could not be run.
pub open spec fn volume_failure_reply() -> Seq<char> {
    "Sorry, I couldn't adjust the volume right now."@
}

/// The spoken result of a volume change: `mixer_output` is what the mixer
/// printed, or `None` when running it failed.
pub fn volume_result(up: bool, mixer_output: Option<&str>) -> (r: SkillResult)
    ensures
        r.music_command is None,
        r.spoken_reply@ == match mixer_output {
            Some(out) => volume_reply(up, out@),
            None => volume_failure_reply(),
        },
{
    let out = match mixer_output {
        Some(o) => o,
        None => {
            let mut s = String::new();
            push_str(&mut s, "Sorry, I couldn't adjust the volume right now.");
            assert(s@ =~= volume_failure_reply());
            return SkillResult::speak(s);
        },
    };
    let mut s = String::new();
    push_str(&mut s, "Volume ");
    if up {
        push_str(&mut s, "up");
    } else {
        push_str(&mut s, "down");
    }
    match parse_volume_pct(out) {
        Some(p) => {
            push_str(&mut s, ", now at ");
            push_decimal(&mut s, p as u64);
            push_str(&mut s, "%.");
        },
        None => {
            push_str(&mut s, ".");
        },
    }
    assert(s@ =~= volume_reply(up, out@));
    SkillResult::speak(s)
}

// ── Other replies ─────────────────────────────────────────────────────────────

/// The reply of the `respond` skill: the language model's text, or "Okay.".
pub fn respond_reply(response: Option<&str>) -> (r: SkillResult)
    ensures
        r.music_command is None,
        r.spoken_reply@ == match response {
            Some(t) => t@,
            None => "Okay."@,
        },
{
    let text = match response {
        Some(t) => t,
        None => "Okay.",
    };
    SkillResult::speak(String::from_str(text))
}

/// The reply for an action with no registered skill.
pub fn unknown_action_reply() -> (r: SkillResult)
    ensures
        r.music_command is None,
        r.spoken_reply@ == "Sorry, I don't know how to do that yet."@,
{
    SkillResult::speak(String::from_str("Sorry, I don't know how to do that yet."))
}

/// A room name as a light entity suffix: lower-cased, spaces as underscores.
pub open spec fn room_slug(room: Seq<char>) -> Seq<char> {
    lowercase(room).map_values(|c: char| if c == ' ' { '_' } else { c })
}

/// Normalise a room name to snake case, e.g. "Living Room" → "living_room".
pub fn normalize_room(room: &str) -> (r: String)
    ensures
        r@ == room_slug(room@),
{
    let lower = to_lowercase(room);
    let cs = chars_of(lower.as_str());
    let mut r = String::new();
    let mut i: usize = 0;
    while i < cs.len()
        invariant
            0 <= i <= cs@.len(),
            cs@ == lowercase(room@),
            r@ == cs@.take(i as int).map_values(|c: char| if c == ' ' { '_' } else { c }),
        decreases cs@.len() - i,
    {
        let c = cs[i];
        crate::text::push_char(&mut r, if c == ' ' { '_' } else { c });
        i = i + 1;
        assert(r@ =~= cs@.take(i as int).map_values(|c: char| if c == ' ' { '_' } else { c }));
    }
    assert(cs@.take(cs@.len() as int) =~= cs@);
    r
}

/// The entity id built from a room slug when the room map has none.
pub open spec fn default_light_entity(slug: Seq<char>) -> Seq<char> {
    "light."@ + slug
}

/// The default Home Assistant entity for a room slug: `light.<slug>`.
pub fn light_entity_for(slug: &str) -> (r: String)
    ensures
        r@ == default_light_entity(slug@),
{
    let mut r = String::from_str("light.");
    push_str(&mut r, slug);
    r
}

/// The reply after Home Assistant switched the lights.
pub open spec fn lights_reply(on: bool) -> Seq<char> {
    "Lights "@ + if on {
        "on"@
    } else {
        "off"@
    } + "."@
}

/// The spoken confirmation of a successful lights call.
pub fn lights_done(on: bool) -> (r: SkillResult)
    ensures
        r.spoken_reply@ == lights_reply(on),
        r.music_command is None,
{
    let mut s = String::from_str("Lights ");
    if on {
        push_str(&mut s, "on");
    } else {
        push_str(&mut s, "off");
    }
    push_str(&mut s, ".");
    assert(s@ =~= lights_reply(on));
    SkillResult::speak(s)
}

// ── Weather replies ──────────────────────────────────────────────────────────

/// Asked for the weather with the location's latitude and longitude
/// configured or not: a reply asking for the location unless both are.
pub fn weather_location_check(has_latitude: bool, has_longitude: bool) -> (r: Option<SkillResult>)
    ensures
        (has_latitude && has_longitude) <==> r is None,
        r matches Some(s) ==> s.spoken_reply@ == "Weather needs your location set in Skills Settings."@
            && s.music_command is None,
{
    if has_latitude && has_longitude {
        None
    } else {
        Some(SkillResult::speak(String::from_str("Weather needs your location set in Skills Settings.")))
    }
}

/// The reply when the forecast could not be fetched (`fetch_failed`) or
/// came back in a form that does not parse.
pub fn weather_failure(fetch_failed: bool) -> (r: SkillResult)
    ensures
        fetch_failed ==> r.spoken_reply@ == "Sorry, I couldn't fetch the weather right now."@,
        !fetch_failed ==> r.spoken_reply@
            == "Sorry, the weather data came back in an unexpected format."@,
        r.music_command is None,
{
    if fetch_failed {
        SkillResult::speak(String::from_str("Sorry, I couldn't fetch the weather right now."))
    } else {
        SkillResult::speak(String::from_str("Sorry, the weather data came back in an unexpected format."))
    }
}

/// The spoken weather report: "Currently in <location>: <condition>,
/// <temperature>°C, wind <speed> km/h.", the location defaulting to "your
/// location"; the two numbers come already rounded as text.
pub open spec fn weather_text(location: Option<Seq<char>>, code: u64, temp: Seq<char>, wind: Seq<char>) -> Seq<char> {
    "Currently in "@ + match location {
        Some(l) => l,
        None => "your location"@,
    } + ": "@ + wmo_text(code) + ", "@ + temp + "°C, wind "@ + wind + " km/h."@
}

/// Report the weather at `location` for WMO code `code`.
pub fn weather_reply(location: Option<&str>, code: u64, temp: &str, wind: &str) -> (r: SkillResult)
    ensures
        r.spoken_reply@ == weather_text(
            match location {
                Some(l) => Some(l@),
                None => None,
            },
            code,
            temp@,
            wind@,
        ),
        r.music_command is None,
{
    let mut s = String::from_str("Currently in ");
    match location {
        Some(l) => push_str(&mut s, l),
        None => push_str(&mut s, "your location"),
    }
    push_str(&mut s, ": ");
    push_str(&mut s, wmo_description(code));
    push_str(&mut s, ", ");
    push_str(&mut s, temp);
    push_str(&mut s, "°C, wind ");
    push_str(&mut s, wind);
    push_str(&mut s, " km/h.");
    SkillResult::speak(s)
}

// ── Lights ───────────────────────────────────────────────────────────────────

/// The entity a room map gives `slug`: the value of its first entry keyed
/// `slug` (a map has one entry per key).
pub open spec fn room_lookup(map: Seq<(Seq<char>, Seq<char>)>, slug: Seq<char>) -> Option<Seq<char>>
    decreases map.len(),
{
    if map.len() == 0 {
        None
    } else if map[0].0 == slug {
        Some(map[0].1)
    } else {
        room_lookup(map.skip(1), slug)
    }
}

/// The view of a room map held as entries.
pub open spec fn room_map_view(map: Seq<(String, String)>) -> Seq<(Seq<char>, Seq<char>)> {
    map.map_values(|e: (String, String)| (e.0@, e.1@))
}

/// Look `slug` up in the room map `map`.
pub fn lookup_room(map: &[(String, String)], slug: &str) -> (r: Option<String>)
    ensures
        match room_lookup(room_map_view(map@), slug@) {
            Some(v) => r matches Some(e) && e@ == v,
            None => r is None,
        },
{
    let mut i: usize = 0;
    assert(room_map_view(map@).skip(0) =~= room_map_view(map@));
    while i < map.len()
        invariant
            i <= map@.len(),
            room_lookup(room_map_view(map@), slug@) == room_lookup(
                room_map_view(map@).skip(i as int),
                slug@,
            ),
        decreases map.len() - i,
    {
        let ghost rest = room_map_view(map@).skip(i as int);
        assert(rest[0] == (map@[i as int].0@, map@[i as int].1@));
        if str_eq(map[i].0.as_str(), slug) {
            let mut v = String::new();
            push_str(&mut v, map[i].1.as_str());
            return Some(v);
        }
        assert(rest.skip(1) =~= room_map_view(map@).skip(i + 1));
        i = i + 1;
    }
    None
}

/// The entity a lights command targets, looking the room up in the room map
/// under its slug.
pub fn light_target_in(room: Option<&str>, room_map: &[(String, String)], default_entity: Option<
    &str,
>) -> (r: Option<String>)
    ensures
        match room {
            Some(rm) if rm@.len() > 0 => r matches Some(e) && e@ == match room_lookup(
                room_map_view(room_map@),
                room_slug(rm@),
            ) {
                Some(m) => m,
                None => default_light_entity(room_slug(rm@)),
            },
            _ => match default_entity {
                Some(d) => r matches Some(e) && e@ == d@,
                None => r is None,
            },
        },
{
    let mapped = match room {
        Some(rm) => {
            let slug = normalize_room(rm);
            lookup_room(room_map, slug.as_str())
        },
        None => None,
    };
    light_target(room, mapped, default_entity)
}

/// The entity a lights command targets. When the command names a room, the
/// room map's entry for its slug (`mapped`, looked up by the caller under
/// `room_slug(room)`) or else `light.<slug>`; otherwise the configured default
/// entity, if there is one.
pub fn light_target(room: Option<&str>, mapped: Option<String>, default_entity: Option<&str>) -> (r:
    Option<String>)
    ensures
        match room {
            Some(rm) if rm@.len() > 0 => r matches Some(e) && e@ == match mapped {
                Some(m) => m@,
                None => default_light_entity(room_slug(rm@)),
            },
            _ => match default_entity {
                Some(d) => r matches Some(e) && e@ == d@,
                None => r is None,
            },
        },
{
    if let Some(rm) = room {
        if rm.unicode_len() > 0 {
            return match mapped {
                Some(m) => Some(m),
                None => {
                    let slug = normalize_room(rm);
                    Some(light_entity_for(slug.as_str()))
                },
            };
        }
    }
    match default_entity {
        Some(d) => Some(String::from_str(d)),
        None => None,
    }
}

/// The Home Assistant service that switches lights on or off.
pub open spec fn light_service_url(ha_url: Seq<char>, on: bool) -> Seq<char> {
    ha_url + "/api/services/light/"@ + if on {
        "turn_on"@
    } else {
        "turn_off"@
    }
}

/// The endpoint of the light service to call.
pub fn light_service_endpoint(ha_url: &str, on: bool) -> (r: String)
    ensures
        r@ == light_service_url(ha_url@, on),
{
    let mut r = String::from_str(ha_url);
    push_str(&mut r, "/api/services/light/");
    if on {
        push_str(&mut r, "turn_on");
    } else {
        push_str(&mut r, "turn_off");
    }
    r
}

/// The reply to a lights command, given how the Home Assistant call went:
/// `None` when it could not be made, else whether it succeeded.
pub fn lights_outcome(on: bool, succeeded: Option<bool>) -> (r: SkillResult)
    ensures
        r.music_command is None,
        r.spoken_reply@ == match succeeded {
            Some(true) => lights_reply(on),
            Some(false) => "Home Assistant returned an error — check the entity ID in Settings."@,
            None => "Couldn't reach Home Assistant."@,
        },
{
    match succeeded {
        Some(true) => lights_done(on),
        Some(false) => SkillResult::speak(
            String::from_str("Home Assistant returned an error — check the entity ID in Settings."),
        ),
        None => SkillResult::speak(String::from_str("Couldn't reach Home Assistant.")),
    }
}

/// The reply when Home Assistant is not configured.
pub fn lights_not_configured() -> (r: SkillResult)
    ensures
        r.music_command is None,
        r.spoken_reply@ == "Home Assistant isn't configured yet — set it up in Skills Settings."@,
{
    SkillResult::speak(String::from_str("Home Assistant isn't configured yet — set it up in Skills Settings."))
}

/// The reply when no room is named and no default light is configured.
pub fn no_default_light() -> (r: SkillResult)
    ensures
        r.music_command is None,
        r.spoken_reply@ == "Please configure a default light entity in Skills Settings."@,
{
    SkillResult::speak(String::from_str("Please configure a default light entity in Skills Settings."))
}

// ── Music ─────────────────────────────────────────────────────────────────────

/// The text after the last `:` of `s`, or all of `s` when it has none.
pub open spec fn after_last_colon(s: Seq<char>) -> Seq<char>
    decreases s.len(),
{
    if s.len() == 0 {
        s
    } else if s.last() == ':' {
        Seq::<char>::empty()
    } else {
        after_last_colon(s.drop_last()).push(s.last())
    }
}

/// The Navidrome port to use for stream URLs: the number after the last `:`
/// of the configured URL, 4533 when there is none or it is not a port.
pub open spec fn navidrome_port_of(url: Option<Seq<char>>) -> nat {
    match url {
        Some(u) => match parse_unsigned(after_last_colon(u), 65535) {
            Some(p) => p,
            None => 4533,
        },
        None => 4533,
    }
}

/// The port of the configured Navidrome URL, 4533 by default.
pub fn navidrome_port(url: Option<&str>) -> (p: u16)
    ensures
        p as nat == navidrome_port_of(
            match url {
                Some(u) => Some(u@),
                None => None,
            },
        ),
{
    let u = match url {
        Some(u) => u,
        None => {
            return 4533;
        },
    };
    let cs = chars_of(u);
    let n = cs.len();
    let mut k = n;
    assert(cs@.take(n as int) =~= cs@);
    assert(cs@.subrange(n as int, n as int) =~= Seq::<char>::empty());
    assert(cs@ + Seq::<char>::empty() =~= cs@);
    while k > 0 && cs[k - 1] != ':'
        invariant
            k <= n == cs@.len(),
            after_last_colon(cs@) == after_last_colon(cs@.take(k as int)) + cs@.subrange(
                k as int,
                n as int,
            ),
        decreases k,
    {
        let ghost pre = cs@.take(k as int);
        assert(pre.drop_last() =~= cs@.take(k - 1));
        assert(cs@.subrange(k - 1, n as int) =~= seq![cs@[k - 1]] + cs@.subrange(
            k as int,
            n as int,
        ));
        assert(after_last_colon(pre) == after_last_colon(pre.drop_last()).push(pre.last()));
        assert(after_last_colon(cs@) =~= after_last_colon(cs@.take(k - 1)) + cs@.subrange(
            k - 1,
            n as int,
        ));
        k = k - 1;
    }
    proof {
        assert(after_last_colon(cs@.take(k as int)) =~= Seq::<char>::empty());
        assert(after_last_colon(cs@) =~= cs@.subrange(k as int, n as int));
    }
    match parse_unsigned_chars(cs.as_slice(), k, n, 65535) {
        Some(p) => p as u16,
        None => 4533,
    }
}

/// What is said when a song starts playing.
pub open spec fn playing_reply(title: Seq<char>, artist: Seq<char>) -> Seq<char> {
    "Playing "@ + title + " by "@ + artist + "."@
}

/// "Playing <title> by <artist>."
pub fn playing(title: &str, artist: &str) -> (r: String)
    ensures
        r@ == playing_reply(title@, artist@),
{
    let mut r = String::from_str("Playing ");
    push_str(&mut r, title);
    push_str(&mut r, " by ");
    push_str(&mut r, artist);
    push_str(&mut r, ".");
    assert(r@ =~= playing_reply(title@, artist@));
    r
}

} // verus!
