use aether::trie::{ClassifyResult, CommandTrie, TrieAction};

fn trie() -> CommandTrie {
    CommandTrie::default()
}

#[test]
fn exact_command_matches() {
    assert_eq!(trie().classify("play music"), ClassifyResult::Match(TrieAction::PlayMusic));
}

#[test]
fn command_embedded_in_longer_phrase_matches() {
    assert_eq!(
        trie().classify("can you play music please"),
        ClassifyResult::Match(TrieAction::PlayMusic)
    );
}

#[test]
fn case_insensitive_match() {
    assert_eq!(trie().classify("Play Music"), ClassifyResult::Match(TrieAction::PlayMusic));
}

#[test]
fn single_word_prefix_is_partial() {
    assert_eq!(trie().classify("play"), ClassifyResult::Partial);
}

#[test]
fn multi_word_prefix_is_partial() {
    assert_eq!(trie().classify("turn lights"), ClassifyResult::Partial);
}

#[test]
fn turn_prefix_alone_is_partial() {
    assert_eq!(trie().classify("turn"), ClassifyResult::Partial);
}

#[test]
fn unrelated_phrase_is_no_match() {
    assert_eq!(trie().classify("hello world"), ClassifyResult::NoMatch);
}

#[test]
fn empty_input_is_no_match() {
    assert_eq!(trie().classify(""), ClassifyResult::NoMatch);
}

#[test]
fn lights_off_matches() {
    assert_eq!(trie().classify("lights off"), ClassifyResult::Match(TrieAction::LightsOff));
}

#[test]
fn turn_lights_on_matches() {
    assert_eq!(trie().classify("turn lights on"), ClassifyResult::Match(TrieAction::LightsOn));
}

#[test]
fn weather_matches_inside_question() {
    assert_eq!(
        trie().classify("what is the weather today"),
        ClassifyResult::Match(TrieAction::Weather)
    );
}

#[test]
fn volume_up_matches() {
    assert_eq!(trie().classify("volume up"), ClassifyResult::Match(TrieAction::VolumeUp));
}

#[test]
fn volume_down_matches() {
    assert_eq!(trie().classify("volume down"), ClassifyResult::Match(TrieAction::VolumeDown));
}

#[test]
fn set_timer_matches() {
    assert_eq!(
        trie().classify("set timer for five minutes"),
        ClassifyResult::Match(TrieAction::SetTimer)
    );
}

#[test]
fn action_as_str_is_snake_case() {
    assert_eq!(TrieAction::PlayMusic.as_str(), "play_music");
    assert_eq!(TrieAction::LightsOn.as_str(), "lights_on");
    assert_eq!(TrieAction::VolumeDown.as_str(), "volume_down");
}

#[test]
fn punctuation_stripped_before_matching() {
    assert_eq!(
        trie().classify("play music, please!"),
        ClassifyResult::Match(TrieAction::PlayMusic)
    );
}

// ── further cases ─────────────────────────────────────────────────────────────

#[test]
fn start_music_and_start_timer_share_a_prefix() {
    assert_eq!(trie().classify("start music"), ClassifyResult::Match(TrieAction::PlayMusic));
    assert_eq!(trie().classify("start timer"), ClassifyResult::Match(TrieAction::SetTimer));
    assert_eq!(trie().classify("start"), ClassifyResult::Partial);
}

#[test]
fn earliest_start_position_wins() {
    // "stop music" starts before "play music".
    assert_eq!(
        trie().classify("stop music and play music"),
        ClassifyResult::Match(TrieAction::StopMusic)
    );
}

#[test]
fn partial_at_end_after_unrelated_words() {
    assert_eq!(trie().classify("could you turn"), ClassifyResult::Partial);
}

#[test]
fn complete_prefix_in_middle_is_not_partial() {
    // "play" followed by an unrelated word neither matches nor ends mid-phrase.
    assert_eq!(trie().classify("play games"), ClassifyResult::NoMatch);
}

#[test]
fn digits_split_tokens() {
    assert_eq!(trie().classify("volume2up"), ClassifyResult::Match(TrieAction::VolumeUp));
}

#[test]
fn all_actions_have_snake_case_names() {
    let all = [
        (TrieAction::PlayMusic, "play_music"),
        (TrieAction::PauseMusic, "pause_music"),
        (TrieAction::StopMusic, "stop_music"),
        (TrieAction::SetTimer, "set_timer"),
        (TrieAction::LightsOn, "lights_on"),
        (TrieAction::LightsOff, "lights_off"),
        (TrieAction::Weather, "weather"),
        (TrieAction::VolumeUp, "volume_up"),
        (TrieAction::VolumeDown, "volume_down"),
    ];
    for (a, s) in all {
        assert_eq!(a.as_str(), s);
    }
}
