//! Whether the local Ollama install is behind its latest release.
use vstd::prelude::*;
use crate::text::{chars_of, push_str, str_eq, string_from_chars};

verus! {

/// The outcome of an update check.
#[derive(Debug, Clone, Default)]
pub struct OllamaUpdateInfo {
    pub current_version: Option<String>,
    pub latest_version: Option<String>,
    pub update_available: bool,
    /// When the check ran (RFC 3339).
    pub last_checked_at: Option<String>,
    pub error: Option<String>,
}

/// `s` without its leading `v`s (`trim_start_matches('v')`).
pub open spec fn strip_v(s: Seq<char>) -> Seq<char>
    decreases s.len(),
{
    if s.len() > 0 && s[0] == 'v' {
        strip_v(s.drop_first())
    } else {
        s
    }
}

/// Whether the release tag `latest` names another version than `current`.
pub fn update_available(current: &str, latest: &str) -> (b: bool)
    ensures
        b == (current@ != strip_v(latest@)),
{
    let cs = chars_of(latest);
    let mut i: usize = 0;
    assert(cs@.skip(0) =~= cs@);
    while i < cs.len() && cs[i] == 'v'
        invariant
            i <= cs@.len(),
            cs@ == latest@,
            strip_v(latest@) == strip_v(cs@.skip(i as int)),
        decreases cs.len() - i,
    {
        assert(cs@.skip(i as int).drop_first() =~= cs@.skip(i + 1));
        i = i + 1;
    }
    let tail = string_from_chars(cs.as_slice(), i, cs.len());
    assert(tail@ =~= cs@.skip(i as int));
    !str_eq(current, tail.as_str())
}

/// The error text of a failed check.
pub open spec fn check_error(
    current: Result<Seq<char>, Seq<char>>,
    latest: Result<Seq<char>, Seq<char>>,
) -> Option<Seq<char>> {
    match (current, latest) {
        (Ok(_), Ok(_)) => None,
        (Err(e), _) => Some("could not reach Ollama: "@ + e),
        (_, Err(e)) => Some("could not reach GitHub: "@ + e),
    }
}

/// The view of a result of strings.
pub open spec fn result_view(r: Result<String, String>) -> Result<Seq<char>, Seq<char>> {
    match r {
        Ok(s) => Ok(s@),
        Err(e) => Err(e@),
    }
}

/// Compare the installed version with the latest release, or report which
/// lookup failed (the Ollama one first). Never fails.
pub fn update_info(
    current: Result<String, String>,
    latest: Result<String, String>,
    checked_at: String,
) -> (info: OllamaUpdateInfo)
    ensures
        info.last_checked_at == Some(checked_at),
        match (current, latest) {
            (Ok(c), Ok(l)) => info.current_version == Some(c) && info.latest_version == Some(l)
                && info.update_available == (c@ != strip_v(l@)) && info.error is None,
            _ => info.current_version is None && info.latest_version is None
                && !info.update_available && (info.error matches Some(e) && Some(e@)
                == check_error(result_view(current), result_view(latest))),
        },
{
    match (current, latest) {
        (Ok(c), Ok(l)) => {
            let available = update_available(c.as_str(), l.as_str());
            OllamaUpdateInfo {
                current_version: Some(c),
                latest_version: Some(l),
                update_available: available,
                last_checked_at: Some(checked_at),
                error: None,
            }
        },
        (Err(e), _) => {
            let mut msg = String::new();
            push_str(&mut msg, "could not reach Ollama: ");
            push_str(&mut msg, e.as_str());
            OllamaUpdateInfo {
                current_version: None,
                latest_version: None,
                update_available: false,
                last_checked_at: Some(checked_at),
                error: Some(msg),
            }
        },
        (_, Err(e)) => {
            let mut msg = String::new();
            push_str(&mut msg, "could not reach GitHub: ");
            push_str(&mut msg, e.as_str());
            OllamaUpdateInfo {
                current_version: None,
                latest_version: None,
                update_available: false,
                last_checked_at: Some(checked_at),
                error: Some(msg),
            }
        },
    }
}

} // verus!
