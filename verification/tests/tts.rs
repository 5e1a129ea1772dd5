use aether::tts::{phonemes_to_ids, token_sequence};
use std::collections::HashMap;

#[test]
fn phonemes_to_ids_maps_known_chars() {
    let vocab: HashMap<char, i64> = [('æ', 38), ('ɪ', 44), (' ', 4)].into_iter().collect();
    let ids = phonemes_to_ids("æ ɪ", &vocab);
    assert_eq!(ids, vec![38, 4, 44]);
}

#[test]
fn phonemes_to_ids_skips_unknown_chars() {
    let vocab: HashMap<char, i64> = [('a', 1)].into_iter().collect();
    let ids = phonemes_to_ids("aXa", &vocab);
    assert_eq!(ids, vec![1, 1]);
}

#[test]
fn token_sequence_is_padded_with_zero() {
    let vocab: HashMap<char, i64> = [('a', 1), ('b', 2)].into_iter().collect();
    assert_eq!(token_sequence("abz", &vocab), vec![0, 1, 2, 0]);
    assert_eq!(token_sequence("", &vocab), vec![0, 0]);
}
