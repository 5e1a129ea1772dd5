//! The music skills: what to ask Navidrome for, and the replies and
//! playback commands sent to the edge node. The library queries themselves
//! are made by the caller with the client.
use vstd::prelude::*;
use crate::navidrome::{
    auth_token, is_salt, stream_url_text, NavidromeClient, Song,
};
use crate::skills::{navidrome_port, navidrome_port_of, playing, playing_reply};
use crate::text::{decimal, push_decimal, push_str};
use crate::types::{MusicCommandResult, SkillResult};

verus! {

/// What to ask the library for.
#[derive(Debug, Clone)]
pub enum MusicQuery {
    /// Songs matching the spoken query.
    Search(String),
    /// One random song.
    Random,
}

/// A non-empty `query` parameter is searched for; otherwise one random song
/// is played.
pub fn music_query(query: Option<&str>) -> (q: MusicQuery)
    ensures
        match query {
            Some(s) => if s@.len() > 0 {
                q matches MusicQuery::Search(t) && t@ == s@
            } else {
                q is Random
            },
            None => q is Random,
        },
{
    match query {
        Some(s) => {
            let mut t = String::new();
            push_str(&mut t, s);
            if t.as_str().unicode_len() > 0 {
                MusicQuery::Search(t)
            } else {
                MusicQuery::Random
            }
        },
        None => MusicQuery::Random,
    }
}

fn owned(t: &str) -> (s: String)
    ensures
        s@ == t@,
{
    let mut s = String::new();
    push_str(&mut s, t);
    s
}

/// The client for the configured Navidrome server, or none when its URL,
/// user or password is not configured.
pub fn music_client(
    url: Option<&str>,
    user: Option<&str>,
    password: Option<&str>,
    http: reqwest::Client,
) -> (c: Option<NavidromeClient>)
    ensures
        match (url, user, password) {
            (Some(u), Some(n), Some(p)) => c matches Some(client) && client.base_url_view() == u@
                && client.user_view() == n@ && client.password_view() == p@,
            _ => c is None,
        },
{
    match (url, user, password) {
        (Some(u), Some(n), Some(p)) => Some(NavidromeClient::new(u, n, p, http)),
        _ => None,
    }
}

/// The reply when music is not configured.
pub open spec fn not_configured_reply() -> Seq<char> {
    "Music isn't set up yet — configure Navidrome credentials in Skills Settings."@
}

/// The reply when music is not configured.
pub fn music_not_configured() -> (r: SkillResult)
    ensures
        r.spoken_reply@ == not_configured_reply(),
        r.music_command is None,
{
    SkillResult::speak(owned("Music isn't set up yet — configure Navidrome credentials in Skills Settings."))
}

/// The base URL the edge node streams from: the brain's address on the
/// local network and the configured Navidrome port.
pub open spec fn external_base(brain_ip: Seq<char>, navidrome_url: Option<Seq<char>>) -> Seq<char> {
    "http://"@ + brain_ip + ":"@ + decimal(navidrome_port_of(navidrome_url))
}

/// The view of an optional string.
pub open spec fn opt_text(o: Option<&str>) -> Option<Seq<char>> {
    match o {
        Some(s) => Some(s@),
        None => None,
    }
}

/// The reply and playback command for the songs a library query returned
/// (`Err` when the query failed): the first song is played from the
/// external base URL.
pub fn play_result(
    client: &NavidromeClient,
    songs: Result<Vec<Song>, String>,
    navidrome_url: Option<&str>,
    brain_ip: &str,
) -> (r: SkillResult)
    ensures
        match songs {
            Err(_) => r.spoken_reply@ == "Couldn't reach Navidrome — check it's running."@
                && r.music_command is None,
            Ok(v) => if v@.len() == 0 {
                r.spoken_reply@ == "No songs found in your library."@ && r.music_command is None
            } else {
                let song = v@[0];
                &&& r.spoken_reply@ == playing_reply(song.title@, song.artist@)
                &&& r.music_command matches Some(m) && m.action@ == "play"@ && m.title@
                    == song.title@ && m.artist@ == song.artist@ && exists|salt: Seq<char>|
                    is_salt(salt) && m.stream_url@ == #[trigger] stream_url_text(
                        external_base(brain_ip@, opt_text(navidrome_url)),
                        client.user_view(),
                        auth_token(client.password_view(), salt),
                        salt,
                        song.id@,
                    )
            },
        },
{
    let songs = match songs {
        Ok(s) => s,
        Err(_) => {
            return SkillResult::speak(owned("Couldn't reach Navidrome — check it's running."));
        },
    };
    if songs.len() == 0 {
        return SkillResult::speak(owned("No songs found in your library."));
    }
    let song = &songs[0];
    let port = navidrome_port(navidrome_url);
    let mut base = String::new();
    push_str(&mut base, "http://");
    push_str(&mut base, brain_ip);
    push_str(&mut base, ":");
    push_decimal(&mut base, port as u64);
    assert(base@ =~= external_base(brain_ip@, opt_text(navidrome_url)));
    let stream_url = client.stream_url(song.id.as_str(), base.as_str());
    let reply = playing(song.title.as_str(), song.artist.as_str());
    SkillResult {
        spoken_reply: reply,
        music_command: Some(
            MusicCommandResult {
                action: owned("play"),
                stream_url,
                title: owned(song.title.as_str()),
                artist: owned(song.artist.as_str()),
            },
        ),
    }
}

/// The result of a command that only pauses or stops playback.
fn control_result(action: &str, reply: &str) -> (r: SkillResult)
    ensures
        r.spoken_reply@ == reply@,
        r.music_command matches Some(m) && m.action@ == action@ && m.stream_url@.len() == 0
            && m.title@.len() == 0 && m.artist@.len() == 0,
{
    SkillResult {
        spoken_reply: owned(reply),
        music_command: Some(
            MusicCommandResult {
                action: owned(action),
                stream_url: String::new(),
                title: String::new(),
                artist: String::new(),
            },
        ),
    }
}

/// "Music paused." and the `pause` command.
pub fn pause_music() -> (r: SkillResult)
    ensures
        r.spoken_reply@ == "Music paused."@,
        r.music_command matches Some(m) && m.action@ == "pause"@ && m.stream_url@.len() == 0
            && m.title@.len() == 0 && m.artist@.len() == 0,
{
    control_result("pause", "Music paused.")
}

/// "Music stopped." and the `stop` command.
pub fn stop_music() -> (r: SkillResult)
    ensures
        r.spoken_reply@ == "Music stopped."@,
        r.music_command matches Some(m) && m.action@ == "stop"@ && m.stream_url@.len() == 0
            && m.title@.len() == 0 && m.artist@.len() == 0,
{
    control_result("stop", "Music stopped.")
}

} // verus!
