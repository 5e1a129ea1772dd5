//! Text-to-speech front end: turning a phoneme string into the token ids the
//! synthesis model consumes.
use std::collections::HashMap;
use vstd::prelude::*;
use crate::text::chars_of;

verus! {

/// The ids of the characters of `cs` that the vocabulary knows, in order;
/// characters it does not know are skipped.
pub open spec fn known_ids(cs: Seq<char>, vocab: Map<char, i64>) -> Seq<i64>
    decreases cs.len(),
{
    if cs.len() == 0 {
        Seq::empty()
    } else {
        let c = cs.last();
        let rest = known_ids(cs.drop_last(), vocab);
        if vocab.contains_key(c) {
            rest.push(vocab[c])
        } else {
            rest
        }
    }
}

/// Looks a phoneme up in the vocabulary (`HashMap::get`, copied out).
///
/// Claims that the result is the entry the map holds for `c`, or `None` when
/// it holds none, as the standard library documents for `get`.
#[verifier::external_body]
fn vocab_lookup(vocab: &HashMap<char, i64>, c: char) -> (r: Option<i64>)
    ensures
        r == vocab@.get(c),
{
    vocab.get(&c).copied()
}

/// Map IPA phoneme string to Kokoro token IDs, skipping unknown characters.
pub fn phonemes_to_ids(phonemes: &str, vocab: &HashMap<char, i64>) -> (ids: Vec<i64>)
    ensures
        ids@ == known_ids(phonemes@, vocab@),
{
    let cs = chars_of(phonemes);
    let mut ids: Vec<i64> = Vec::new();
    let mut i: usize = 0;
    while i < cs.len()
        invariant
            i <= cs@.len(),
            cs@ == phonemes@,
            ids@ == known_ids(cs@.subrange(0, i as int), vocab@),
        decreases cs.len() - i,
    {
        let c = cs[i];
        let found = vocab_lookup(vocab, c);
        proof {
            let next = cs@.subrange(0, i + 1);
            assert(next.drop_last() =~= cs@.subrange(0, i as int));
            assert(next.last() == c);
        }
        match found {
            Some(id) => ids.push(id),
            None => {},
        }
        i = i + 1;
    }
    proof {
        assert(cs@.subrange(0, cs@.len() as int) =~= cs@);
    }
    ids
}

/// The model's input: the phoneme ids framed by the padding token 0 on each
/// side.
pub fn token_sequence(phonemes: &str, vocab: &HashMap<char, i64>) -> (tokens: Vec<i64>)
    ensures
        tokens@ == seq![0i64] + known_ids(phonemes@, vocab@) + seq![0i64],
{
    let ids = phonemes_to_ids(phonemes, vocab);
    let mut tokens: Vec<i64> = Vec::new();
    tokens.push(0);
    let mut i: usize = 0;
    while i < ids.len()
        invariant
            i <= ids@.len(),
            tokens@ == seq![0i64] + ids@.subrange(0, i as int),
        decreases ids.len() - i,
    {
        tokens.push(ids[i]);
        i = i + 1;
        proof {
            assert(tokens@ =~= seq![0i64] + ids@.subrange(0, i as int));
        }
    }
    tokens.push(0);
    proof {
        assert(ids@.subrange(0, ids@.len() as int) =~= ids@);
    }
    tokens
}

} // verus!
