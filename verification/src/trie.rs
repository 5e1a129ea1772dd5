//! Command trie: a prefix tree over tokenised command phrases that lets
//! common commands be dispatched without a language-model call.
use vstd::prelude::*;
use crate::text::{
    alphabetic, ascii_letter, ascii_lower, chars_of, is_alphabetic, lowercase, string_from_chars,
    to_lowercase,
};

verus! {

/// Actions that can be dispatched directly without an LLM call.
#[derive(Debug, Clone, Copy, PartialEq, Eq, Structural)]
pub enum TrieAction {
    PlayMusic,
    PauseMusic,
    StopMusic,
    SetTimer,
    LightsOn,
    LightsOff,
    Weather,
    VolumeUp,
    VolumeDown,
}

/// The snake-case name of `a`.
pub open spec fn action_name(a: TrieAction) -> Seq<char> {
    match a {
        TrieAction::PlayMusic => "play_music"@,
        TrieAction::PauseMusic => "pause_music"@,
        TrieAction::StopMusic => "stop_music"@,
        TrieAction::SetTimer => "set_timer"@,
        TrieAction::LightsOn => "lights_on"@,
        TrieAction::LightsOff => "lights_off"@,
        TrieAction::Weather => "weather"@,
        TrieAction::VolumeUp => "volume_up"@,
        TrieAction::VolumeDown => "volume_down"@,
    }
}

impl TrieAction {
    /// Snake-case string used as the `action` field in skill actions and LLM responses.
    pub fn as_str(&self) -> (s: &'static str)
        ensures
            s@ == action_name(*self),
    {
        match self {
            TrieAction::PlayMusic => "play_music",
            TrieAction::PauseMusic => "pause_music",
            TrieAction::StopMusic => "stop_music",
            TrieAction::SetTimer => "set_timer",
            TrieAction::LightsOn => "lights_on",
            TrieAction::LightsOff => "lights_off",
            TrieAction::Weather => "weather",
            TrieAction::VolumeUp => "volume_up",
            TrieAction::VolumeDown => "volume_down",
        }
    }
}

/// Result of classifying a transcript against the command trie.
#[derive(Debug, Clone, Copy, PartialEq, Eq, Structural)]
pub enum ClassifyResult {
    /// A registered command phrase was found in the transcript.
    Match(TrieAction),
    /// The transcript ends on a valid trie prefix — more tokens may complete a command.
    Partial,
    /// No registered phrase matches and no phrase is in progress.
    NoMatch,
}

// ── Tokenising ────────────────────────────────────────────────────────────────

/// The longest run of alphabetic characters at the end of `s`.
pub open spec fn trailing_word(s: Seq<char>) -> Seq<char>
    decreases s.len(),
{
    if s.len() == 0 || !alphabetic(s.last()) {
        seq![]
    } else {
        trailing_word(s.drop_last()).push(s.last())
    }
}

/// The maximal alphabetic runs of `s`, in order.
pub open spec fn words(s: Seq<char>) -> Seq<Seq<char>>
    decreases s.len(),
{
    if s.len() == 0 {
        seq![]
    } else if !alphabetic(s.last()) {
        words(s.drop_last())
    } else {
        let w = trailing_word(s);
        proof {
            lemma_trailing_word_nonempty(s);
        }
        words(s.take(s.len() - w.len())).push(w)
    }
}

/// A text ending in a letter ends in a non-empty word.
pub proof fn lemma_trailing_word_nonempty(s: Seq<char>)
    requires
        s.len() > 0,
        alphabetic(s.last()),
    ensures
        1 <= trailing_word(s).len() <= s.len(),
{
    lemma_trailing_word_len(s);
}

/// The tokens of a transcript: its lower-cased text split on every
/// non-alphabetic character, empty pieces dropped.
pub open spec fn tokens_of(text: Seq<char>) -> Seq<Seq<char>> {
    words(lowercase(text))
}

/// Text made of ASCII characters only.
pub open spec fn ascii_text(t: Seq<char>) -> bool {
    forall|i: int| 0 <= i < t.len() ==> (#[trigger] t[i] as u32) < 128
}

/// The longest run of ASCII letters at the end of `s`.
pub open spec fn ascii_trailing_word(s: Seq<char>) -> Seq<char>
    decreases s.len(),
{
    if s.len() == 0 || !ascii_letter(s.last()) {
        seq![]
    } else {
        ascii_trailing_word(s.drop_last()).push(s.last())
    }
}

/// The maximal runs of ASCII letters of `s`, in order.
pub open spec fn ascii_words(s: Seq<char>) -> Seq<Seq<char>>
    decreases s.len(),
{
    if s.len() == 0 {
        seq![]
    } else if !ascii_letter(s.last()) {
        ascii_words(s.drop_last())
    } else {
        let w = ascii_trailing_word(s);
        proof {
            lemma_ascii_trailing_word_len(s);
        }
        ascii_words(s.take(s.len() - w.len())).push(w)
    }
}

/// The tokens of an ASCII transcript: its letters lower-cased, split at
/// every character that is not an ASCII letter, empty pieces dropped.
pub open spec fn ascii_tokens(text: Seq<char>) -> Seq<Seq<char>> {
    ascii_words(text.map_values(|c: char| ascii_lower(c)))
}

/// The trailing ASCII word is no longer than the text, and not empty after a letter.
pub proof fn lemma_ascii_trailing_word_len(s: Seq<char>)
    ensures
        ascii_trailing_word(s).len() <= s.len(),
        s.len() > 0 && ascii_letter(s.last()) ==> ascii_trailing_word(s).len() >= 1,
    decreases s.len(),
{
    if s.len() > 0 && ascii_letter(s.last()) {
        lemma_ascii_trailing_word_len(s.drop_last());
    }
}

/// Where the letter test agrees with the ASCII one on every character, the
/// words are the ASCII words.
proof fn lemma_words_ascii(s: Seq<char>)
    requires
        forall|k: int| 0 <= k < s.len() ==> alphabetic(#[trigger] s[k]) == ascii_letter(s[k]),
    ensures
        trailing_word(s) == ascii_trailing_word(s),
        words(s) == ascii_words(s),
    decreases s.len(),
{
    if s.len() > 0 {
        let d = s.drop_last();
        assert forall|k: int| 0 <= k < d.len() implies alphabetic(#[trigger] d[k]) == ascii_letter(
            d[k],
        ) by {
            assert(d[k] == s[k]);
        }
        lemma_words_ascii(d);
        assert(alphabetic(s[s.len() - 1]) == ascii_letter(s[s.len() - 1]));
        if ascii_letter(s.last()) {
            let w = trailing_word(s);
            lemma_trailing_word_nonempty(s);
            let t = s.take(s.len() - w.len());
            assert forall|k: int| 0 <= k < t.len() implies alphabetic(#[trigger] t[k]) == ascii_letter(
                t[k],
            ) by {
                assert(t[k] == s[k]);
            }
            lemma_words_ascii(t);
        }
    }
}

/// The character sequences of a list of strings.
pub open spec fn views(v: Seq<String>) -> Seq<Seq<char>> {
    v.map_values(|t: String| t@)
}

/// The trailing word is a suffix of the text made of letters only.
pub proof fn lemma_trailing_word_len(s: Seq<char>)
    ensures
        trailing_word(s).len() <= s.len(),
        trailing_word(s) == s.skip(s.len() - trailing_word(s).len()),
        forall|k: int| 0 <= k < trailing_word(s).len() ==> alphabetic(#[trigger] trailing_word(s)[k]),
    decreases s.len(),
{
    if s.len() > 0 && alphabetic(s.last()) {
        lemma_trailing_word_len(s.drop_last());
        let t = trailing_word(s.drop_last());
        assert(trailing_word(s) =~= s.skip(s.len() - trailing_word(s).len()));
    } else {
        assert(s.skip(s.len() as int) =~= seq![]);
    }
}

/// Appending an alphabetic character extends the trailing word.
proof fn lemma_words_push_alpha(s: Seq<char>, c: char)
    requires
        alphabetic(c),
    ensures
        trailing_word(s.push(c)) == trailing_word(s).push(c),
        words(s.push(c)) == words(s.take(s.len() - trailing_word(s).len())).push(
            trailing_word(s).push(c),
        ),
{
    let t = s.push(c);
    assert(t.drop_last() =~= s);
    lemma_trailing_word_len(s);
    let w = trailing_word(s).push(c);
    assert(t.take(t.len() - w.len()) =~= s.take(s.len() - trailing_word(s).len()));
}

/// Appending a separator leaves the words unchanged.
proof fn lemma_words_push_sep(s: Seq<char>, c: char)
    requires
        !alphabetic(c),
    ensures
        words(s.push(c)) == words(s),
        trailing_word(s.push(c)) == Seq::<char>::empty(),
{
    assert(s.push(c).drop_last() =~= s);
}

/// When `s` ends in a word, its words are those before the word, then the word.
proof fn lemma_words_split(s: Seq<char>)
    ensures
        trailing_word(s).len() > 0 ==> words(s) == words(
            s.take(s.len() - trailing_word(s).len()),
        ).push(trailing_word(s)),
        trailing_word(s).len() == 0 ==> trailing_word(
            s.take(s.len() - trailing_word(s).len()),
        ).len() == 0,
{
    lemma_trailing_word_len(s);
    if trailing_word(s).len() == 0 {
        assert(s.take(s.len() as int) =~= s);
    }
}

/// Lowercase and split on non-alphabetic characters, dropping empty tokens.
fn tokenize(text: &str) -> (tokens: Vec<String>)
    ensures
        views(tokens@) == tokens_of(text@),
        ascii_text(text@) ==> views(tokens@) == ascii_tokens(text@),
{
    let lower = to_lowercase(text);
    let cs = chars_of(lower.as_str());
    let ghost s = cs@;
    let mut tokens: Vec<String> = Vec::new();
    let mut word_start: usize = 0;
    let mut i: usize = 0;
    let n = cs.len();
    while i < n
        invariant
            n == cs@.len(),
            s == cs@,
            word_start <= i <= n,
            cs@.subrange(word_start as int, i as int) == trailing_word(s.take(i as int)),
            views(tokens@) == words(s.take(word_start as int)),
            trailing_word(s.take(word_start as int)).len() == 0,
            ascii_text(text@) ==> s == text@.map_values(|c: char| ascii_lower(c)),
            ascii_text(text@) ==> forall|k: int|
                0 <= k < i ==> alphabetic(#[trigger] s[k]) == ascii_letter(s[k]),
        decreases n - i,
    {
        let c = cs[i];
        proof {
            if ascii_text(text@) {
                assert((text@[i as int] as u32) < 128);
                assert(c == ascii_lower(text@[i as int]));
            }
        }
        let ghost pre = s.take(i as int);
        assert(s.take(i + 1) =~= pre.push(c));
        if is_alphabetic(c) {
            proof {
                lemma_words_push_alpha(pre, c);
                assert(cs@.subrange(word_start as int, i + 1) =~= cs@.subrange(
                    word_start as int,
                    i as int,
                ).push(c));
            }
        } else {
            proof {
                lemma_words_push_sep(pre, c);
                lemma_trailing_word_len(pre);
                lemma_words_split(pre);
            }
            if word_start < i {
                let w = string_from_chars(cs.as_slice(), word_start, i);
                proof {
                    assert(pre.take(pre.len() - trailing_word(pre).len()) =~= s.take(
                        word_start as int,
                    ));
                }
                let ghost old_v = views(tokens@);
                tokens.push(w);
                assert(views(tokens@) =~= old_v.push(w@));
            } else {
                proof {
                    assert(pre.take(pre.len() - trailing_word(pre).len()) =~= pre);
                }
            }
            word_start = i + 1;
            proof {
                assert(s.take(word_start as int) =~= pre.push(c));
            }
        }
        i = i + 1;
        assert(cs@.subrange(i as int, i as int) =~= Seq::<char>::empty());
    }
    if word_start < n {
        let w = string_from_chars(cs.as_slice(), word_start, n);
        proof {
            assert(s.take(n as int) =~= s);
            lemma_words_split(s);
            lemma_trailing_word_len(s);
            assert(s.take(s.len() - trailing_word(s).len()) =~= s.take(word_start as int));
        }
        let ghost old_v = views(tokens@);
        tokens.push(w);
        assert(views(tokens@) =~= old_v.push(w@));
    } else {
        proof {
            assert(s.take(n as int) =~= s);
            lemma_words_split(s);
        }
    }
    proof {
        if ascii_text(text@) {
            lemma_words_ascii(s);
        }
    }
    tokens
}

// ── The trie ──────────────────────────────────────────────────────────────────

struct TrieNode {
    children: Vec<(String, TrieNode)>,
    action: Option<TrieAction>,
}

/// Prefix tree over tokenised command phrases.
///
/// `classify` searches for any registered phrase within the transcript tokens
/// starting at every position, so commands embedded in longer utterances
/// ("can you play music please") are found correctly.
pub struct CommandTrie {
    root: TrieNode,
}

/// Index of the first child labelled `k`, or -1.
spec fn find_child(ch: Seq<(String, TrieNode)>, k: Seq<char>) -> int
    decreases ch.len(),
{
    if ch.len() == 0 {
        -1
    } else if ch[0].0@ == k {
        0
    } else {
        let r = find_child(ch.drop_first(), k);
        if r < 0 {
            -1
        } else {
            r + 1
        }
    }
}

/// The node reached from `n` by following the labels of `p`.
spec fn subtree(n: TrieNode, p: Seq<Seq<char>>) -> Option<TrieNode>
    decreases p.len(),
{
    if p.len() == 0 {
        Some(n)
    } else {
        let j = find_child(n.children@, p[0]);
        if j < 0 {
            None
        } else {
            subtree(n.children@[j].1, p.drop_first())
        }
    }
}

/// The action registered at the end of the path `p` from `n`.
spec fn action_at(n: TrieNode, p: Seq<Seq<char>>) -> Option<TrieAction> {
    match subtree(n, p) {
        Some(m) => m.action,
        None => None,
    }
}

/// A node is useful when it completes a phrase or leads further.
spec fn useful(n: TrieNode) -> bool {
    n.action is Some || n.children@.len() > 0
}

/// Every node below `n` is useful.
spec fn all_useful(n: TrieNode) -> bool {
    forall|p: Seq<Seq<char>>| p.len() > 0 && (#[trigger] subtree(n, p)) is Some ==> useful(subtree(n, p)->0)
}

impl View for CommandTrie {
    type V = Map<Seq<Seq<char>>, TrieAction>;

    /// The registered phrases, each with its action.
    closed spec fn view(&self) -> Map<Seq<Seq<char>>, TrieAction> {
        Map::new(|p: Seq<Seq<char>>| action_at(self.root, p) is Some, |p: Seq<Seq<char>>| action_at(self.root, p)->0)
    }
}

impl CommandTrie {
    /// Internal well-formedness: every non-root node completes or extends a phrase.
    #[verifier::type_invariant]
    closed spec fn wf(&self) -> bool {
        all_useful(self.root)
    }
}

/// The action of the shortest phrase of `m` among the prefixes `toks[..k]`, `k >= from`.
pub open spec fn first_match_from(m: Map<Seq<Seq<char>>, TrieAction>, toks: Seq<Seq<char>>, k: int) -> Option<TrieAction>
    decreases toks.len() + 1 - k,
{
    if k > toks.len() || k < 1 {
        None
    } else if m.contains_key(toks.take(k)) {
        Some(m[toks.take(k)])
    } else {
        first_match_from(m, toks, k + 1)
    }
}

/// The action of the shortest registered phrase that `toks` starts with.
pub open spec fn first_match(m: Map<Seq<Seq<char>>, TrieAction>, toks: Seq<Seq<char>>) -> Option<TrieAction> {
    first_match_from(m, toks, 1)
}

/// Whether `toks` is a proper prefix of a registered phrase.
pub open spec fn partial(m: Map<Seq<Seq<char>>, TrieAction>, toks: Seq<Seq<char>>) -> bool {
    exists|p: Seq<Seq<char>>|
        #![trigger m.contains_key(p)]
        m.contains_key(p) && toks.len() < p.len() && p.take(toks.len() as int) == toks
}

/// The first match found at any start position from `s` on.
pub open spec fn scan_match(m: Map<Seq<Seq<char>>, TrieAction>, toks: Seq<Seq<char>>, s: int) -> Option<TrieAction>
    decreases toks.len() - s,
{
    if s < 0 || s >= toks.len() {
        None
    } else {
        match first_match(m, toks.skip(s)) {
            Some(a) => Some(a),
            None => scan_match(m, toks, s + 1),
        }
    }
}

/// Whether some start position from `s` on leaves a proper prefix of a phrase.
pub open spec fn scan_partial(m: Map<Seq<Seq<char>>, TrieAction>, toks: Seq<Seq<char>>, s: int) -> bool
    decreases toks.len() - s,
{
    if s < 0 || s >= toks.len() {
        false
    } else {
        partial(m, toks.skip(s)) || scan_partial(m, toks, s + 1)
    }
}

/// The classification of the token sequence `toks` against the phrases `m`.
pub open spec fn classify_tokens(m: Map<Seq<Seq<char>>, TrieAction>, toks: Seq<Seq<char>>) -> ClassifyResult {
    if toks.len() == 0 {
        ClassifyResult::NoMatch
    } else {
        match scan_match(m, toks, 0) {
            Some(a) => ClassifyResult::Match(a),
            None => if scan_partial(m, toks, 0) {
                ClassifyResult::Partial
            } else {
                ClassifyResult::NoMatch
            },
        }
    }
}

// ── Lemmas on paths ───────────────────────────────────────────────────────────

proof fn lemma_find_child(ch: Seq<(String, TrieNode)>, k: Seq<char>)
    ensures
        -1 <= find_child(ch, k) < ch.len(),
        find_child(ch, k) >= 0 ==> ch[find_child(ch, k)].0@ == k,
        find_child(ch, k) >= 0 ==> forall|i: int| 0 <= i < find_child(ch, k) ==> (#[trigger] ch[i]).0@ != k,
        find_child(ch, k) < 0 ==> forall|i: int| 0 <= i < ch.len() ==> (#[trigger] ch[i]).0@ != k,
    decreases ch.len(),
{
    if ch.len() > 0 && ch[0].0@ != k {
        lemma_find_child(ch.drop_first(), k);
        assert forall|i: int| 1 <= i < ch.len() implies (#[trigger] ch[i]) == ch.drop_first()[i - 1] by {}
    }
}

/// `find_child` is the first index with the label.
proof fn lemma_find_child_char(ch: Seq<(String, TrieNode)>, k: Seq<char>, j: int)
    requires
        -1 <= j < ch.len(),
        j >= 0 ==> ch[j].0@ == k,
        forall|i: int| 0 <= i < ch.len() && (j < 0 || i < j) ==> (#[trigger] ch[i]).0@ != k,
    ensures
        find_child(ch, k) == j,
    decreases ch.len(),
{
    if ch.len() > 0 && j != 0 {
        assert(ch[0].0@ != k);
        let r = if j < 0 {
            -1
        } else {
            j - 1
        };
        assert forall|i: int| 0 <= i < ch.drop_first().len() && (r < 0 || i < r) implies (
        #[trigger] ch.drop_first()[i]).0@ != k by {
            assert(ch.drop_first()[i] == ch[i + 1]);
        }
        lemma_find_child_char(ch.drop_first(), k, r);
    }
}

/// Following one more label from the end of a path.
proof fn lemma_subtree_push(n: TrieNode, p: Seq<Seq<char>>, t: Seq<char>)
    ensures
        subtree(n, p.push(t)) == (match subtree(n, p) {
            Some(m) => {
                let j = find_child(m.children@, t);
                if j < 0 {
                    None
                } else {
                    Some(m.children@[j].1)
                }
            },
            None => None,
        }),
    decreases p.len(),
{
    lemma_find_child(n.children@, t);
    if p.len() == 0 {
        let q = p.push(t);
        assert(q.drop_first() =~= Seq::<Seq<char>>::empty());
        let j = find_child(n.children@, t);
        if j >= 0 {
            assert(subtree(n.children@[j].1, q.drop_first()) == Some(n.children@[j].1));
        }
    } else {
        let j = find_child(n.children@, p[0]);
        lemma_find_child(n.children@, p[0]);
        assert(p.push(t).drop_first() =~= p.drop_first().push(t));
        if j >= 0 {
            lemma_subtree_push(n.children@[j].1, p.drop_first(), t);
        }
    }
}

/// Following a path in two parts.
proof fn lemma_subtree_concat(n: TrieNode, a: Seq<Seq<char>>, b: Seq<Seq<char>>)
    ensures
        subtree(n, a + b) == (match subtree(n, a) {
            Some(m) => subtree(m, b),
            None => None,
        }),
    decreases a.len(),
{
    if a.len() == 0 {
        assert(a + b =~= b);
    } else {
        assert((a + b).drop_first() =~= a.drop_first() + b);
        assert((a + b)[0] == a[0]);
        let j = find_child(n.children@, a[0]);
        if j >= 0 {
            lemma_subtree_concat(n.children@[j].1, a.drop_first(), b);
        }
    }
}

/// Paths that exist are closed under prefixes.
proof fn lemma_subtree_prefix(n: TrieNode, p: Seq<Seq<char>>, k: int)
    requires
        0 <= k <= p.len(),
        subtree(n, p) is Some,
    ensures
        subtree(n, p.take(k)) is Some,
{
    lemma_subtree_concat(n, p.take(k), p.skip(k));
    assert(p.take(k) + p.skip(k) =~= p);
}

/// Once no node is found, no extension finds a phrase.
proof fn lemma_no_node_no_match(n: TrieNode, toks: Seq<Seq<char>>, k: int)
    requires
        1 <= k <= toks.len() + 1,
        k <= toks.len() ==> subtree(n, toks.take(k)) is None,
    ensures
        first_match_from(
            Map::new(|p: Seq<Seq<char>>| action_at(n, p) is Some, |p: Seq<Seq<char>>| action_at(n, p)->0),
            toks,
            k,
        ) is None,
    decreases toks.len() + 1 - k,
{
    if k <= toks.len() {
        if k + 1 <= toks.len() {
            assert(toks.take(k + 1).take(k) =~= toks.take(k));
            if subtree(n, toks.take(k + 1)) is Some {
                lemma_subtree_prefix(n, toks.take(k + 1), k);
            }
        }
        lemma_no_node_no_match(n, toks, k + 1);
    }
}

/// Below a useful node whose descendants are all useful lies a phrase.
proof fn lemma_useful_has_phrase(m: TrieNode) -> (q: Seq<Seq<char>>)
    requires
        useful(m),
        all_useful(m),
    ensures
        action_at(m, q) is Some,
    decreases m,
{
    if m.action is Some {
        assert(subtree(m, seq![]) == Some(m));
        seq![]
    } else {
        let k0 = m.children@[0].0@;
        let c = m.children@[0].1;
        lemma_find_child_char(m.children@, k0, 0);
        let one: Seq<Seq<char>> = seq![k0];
        assert(one.drop_first() =~= Seq::<Seq<char>>::empty());
        assert(subtree(c, one.drop_first()) == Some(c));
        assert(subtree(m, one) == Some(c));
        assert forall|p: Seq<Seq<char>>| p.len() > 0 && (#[trigger] subtree(c, p)) is Some implies useful(
        subtree(c, p)->0) by {
            lemma_subtree_concat(m, one, p);
            assert(subtree(m, one + p) == subtree(c, p));
        }
        assert(useful(c));
        assert(decreases_to!(m => m.children));
        assert(decreases_to!(m.children => m.children@));
        assert(decreases_to!(m.children@ => m.children@[0]));
        let q = lemma_useful_has_phrase(c);
        lemma_subtree_concat(m, one, q);
        one + q
    }
}

/// A node reached by a path keeps all descendants useful.
proof fn lemma_all_useful_below(n: TrieNode, p: Seq<Seq<char>>)
    requires
        all_useful(n),
        subtree(n, p) is Some,
    ensures
        all_useful(subtree(n, p)->0),
{
    let m = subtree(n, p)->0;
    assert forall|q: Seq<Seq<char>>| q.len() > 0 && (#[trigger] subtree(m, q)) is Some implies useful(
    subtree(m, q)->0) by {
        lemma_subtree_concat(n, p, q);
        assert((p + q).len() > 0);
    }
}

// ── Child search ──────────────────────────────────────────────────────────────

/// Index of the first child of `n` labelled `key`.
fn find_index(ch: &Vec<(String, TrieNode)>, key: &String) -> (r: Option<usize>)
    ensures
        r matches Some(j) ==> find_child(ch@, key@) == j && j < ch@.len(),
        r is None ==> find_child(ch@, key@) < 0,
{
    let mut i: usize = 0;
    while i < ch.len()
        invariant
            0 <= i <= ch@.len(),
            forall|k: int| 0 <= k < i ==> (#[trigger] ch@[k]).0@ != key@,
        decreases ch@.len() - i,
    {
        if ch[i].0 == *key {
            proof {
                lemma_find_child_char(ch@, key@, i as int);
            }
            return Some(i);
        }
        i = i + 1;
    }
    proof {
        lemma_find_child_char(ch@, key@, -1);
    }
    None
}

impl CommandTrie {
    /// Try to match a phrase starting at `tokens[0]`, following adjacent trie edges.
    /// Returns the action of the first terminal node reached.
    fn try_match_at(&self, tokens: &[String]) -> (r: Option<TrieAction>)
        ensures
            r == first_match(self@, views(tokens@)),
    {
        let ghost tv = views(tokens@);
        let ghost m = self@;
        let mut node: &TrieNode = &self.root;
        let mut i: usize = 0;
        assert(tv.take(0) =~= Seq::<Seq<char>>::empty());
        while i < tokens.len()
            invariant
                0 <= i <= tokens@.len() == tv.len(),
                tv == views(tokens@),
                m == self@,
                subtree(self.root, tv.take(i as int)) == Some(*node),
                first_match(m, tv) == first_match_from(m, tv, i + 1),
            decreases tokens@.len() - i,
        {
            let ghost pre = tv.take(i as int);
            assert(tv.take(i + 1) =~= pre.push(tv[i as int]));
            proof {
                lemma_subtree_push(self.root, pre, tv[i as int]);
            }
            match find_index(&node.children, &tokens[i]) {
                Some(j) => {
                    node = &node.children[j].1;
                    if let Some(a) = node.action {
                        assert(m.contains_key(tv.take(i + 1)));
                        return Some(a);
                    }
                    assert(!m.contains_key(tv.take(i + 1)));
                },
                None => {
                    proof {
                        lemma_no_node_no_match(self.root, tv, i + 1);
                    }
                    return None;
                },
            }
            i = i + 1;
        }
        None
    }

    /// Returns `true` if every token in the slice follows a valid (non-terminal) trie path,
    /// meaning more tokens could complete a command.
    fn is_partial_prefix(&self, tokens: &[String]) -> (r: bool)
        ensures
            r == partial(self@, views(tokens@)),
    {
        proof {
            use_type_invariant(self);
        }
        let ghost tv = views(tokens@);
        let ghost m = self@;
        let mut node: &TrieNode = &self.root;
        let mut i: usize = 0;
        assert(tv.take(0) =~= Seq::<Seq<char>>::empty());
        while i < tokens.len()
            invariant
                0 <= i <= tokens@.len() == tv.len(),
                tv == views(tokens@),
                m == self@,
                subtree(self.root, tv.take(i as int)) == Some(*node),
            decreases tokens@.len() - i,
        {
            let ghost pre = tv.take(i as int);
            assert(tv.take(i + 1) =~= pre.push(tv[i as int]));
            proof {
                lemma_subtree_push(self.root, pre, tv[i as int]);
            }
            match find_index(&node.children, &tokens[i]) {
                Some(j) => {
                    node = &node.children[j].1;
                },
                None => {
                    proof {
                        assert forall|p: Seq<Seq<char>>| #[trigger]
                            m.contains_key(p) && tv.len() < p.len() && p.take(
                                tv.len() as int,
                            ) == tv implies false by {
                            assert(subtree(self.root, p) is Some);
                            lemma_subtree_prefix(self.root, p, i + 1);
                            assert(p.take(i + 1) =~= tv.take(i + 1));
                        }
                    }
                    return false;
                },
            }
            i = i + 1;
        }
        assert(tv.take(tv.len() as int) =~= tv);
        let r = !node.children.is_empty();
        proof {
            if r {
                let k0 = node.children@[0].0@;
                let c = node.children@[0].1;
                lemma_find_child_char(node.children@, k0, 0);
                lemma_subtree_push(self.root, tv, k0);
                let tk = tv.push(k0);
                assert(subtree(self.root, tk) == Some(c));
                lemma_all_useful_below(self.root, tk);
                assert(useful(c));
                let q = lemma_useful_has_phrase(c);
                lemma_subtree_concat(self.root, tk, q);
                let p = tk + q;
                assert(m.contains_key(p));
                assert(p.take(tv.len() as int) =~= tv);
            } else {
                assert forall|p: Seq<Seq<char>>| #[trigger]
                    m.contains_key(p) && tv.len() < p.len() && p.take(tv.len() as int)
                        == tv implies false by {
                    lemma_subtree_prefix(self.root, p, tv.len() as int + 1);
                    let pk = p.take(tv.len() as int + 1);
                    assert(pk =~= tv.push(p[tv.len() as int]));
                    lemma_subtree_push(self.root, tv, p[tv.len() as int]);
                }
            }
        }
        r
    }
}

// ── Building the trie ─────────────────────────────────────────────────────────

/// The character sequences of a phrase given as words.
pub open spec fn phrase_of(words: Seq<&str>) -> Seq<Seq<char>> {
    words.map_values(|w: &str| w@)
}

impl TrieNode {
    fn empty() -> (n: TrieNode)
        ensures
            n.children@.len() == 0,
            n.action is None,
            all_useful(n),
            forall|p: Seq<Seq<char>>| #[trigger] action_at(n, p) is None,
    {
        let n = TrieNode { children: Vec::new(), action: None };
        assert forall|p: Seq<Seq<char>>| #[trigger] action_at(n, p) is None by {
            if p.len() > 0 {
                lemma_find_child(n.children@, p[0]);
            }
        }
        assert forall|p: Seq<Seq<char>>| p.len() > 0 && (#[trigger] subtree(n, p)) is Some implies useful(
        subtree(n, p)->0) by {
            lemma_find_child(n.children@, p[0]);
        }
        n
    }
}

/// Replacing a child by one with the same label keeps every label search.
proof fn lemma_find_child_update(ch: Seq<(String, TrieNode)>, j: int, e: (String, TrieNode), k: Seq<char>)
    requires
        0 <= j < ch.len(),
        ch[j].0@ == e.0@,
    ensures
        find_child(ch.update(j, e), k) == find_child(ch, k),
{
    let ch2 = ch.update(j, e);
    lemma_find_child(ch, k);
    let f = find_child(ch, k);
    assert forall|i: int| 0 <= i < ch2.len() && (f < 0 || i < f) implies (#[trigger] ch2[i]).0@ != k by {
        assert(ch2[i].0@ == ch[i].0@);
    }
    lemma_find_child_char(ch2, k, f);
}

/// Appending a child with a new label.
proof fn lemma_find_child_push(ch: Seq<(String, TrieNode)>, e: (String, TrieNode), k: Seq<char>)
    requires
        find_child(ch, e.0@) < 0,
    ensures
        find_child(ch.push(e), k) == (if find_child(ch, k) >= 0 {
            find_child(ch, k)
        } else if e.0@ == k {
            ch.len() as int
        } else {
            -1
        }),
{
    let ch2 = ch.push(e);
    lemma_find_child(ch, k);
    let f = find_child(ch, k);
    let g = if f >= 0 {
        f
    } else if e.0@ == k {
        ch.len() as int
    } else {
        -1
    };
    assert forall|i: int| 0 <= i < ch2.len() && (g < 0 || i < g) implies (#[trigger] ch2[i]).0@ != k by {
        if i < ch.len() {
            assert(ch2[i] == ch[i]);
        }
    }
    lemma_find_child_char(ch2, k, g);
}

/// Insert the phrase `words[i..]` below `node`, registering `action` at its end.
fn insert_node(node: TrieNode, words: &[&str], i: usize, action: TrieAction) -> (r: TrieNode)
    requires
        i <= words@.len(),
        all_useful(node),
    ensures
        forall|p: Seq<Seq<char>>| #[trigger]
            action_at(r, p) == if p == phrase_of(words@).skip(i as int) {
                Some(action)
            } else {
                action_at(node, p)
            },
        all_useful(r),
        useful(r),
    decreases words@.len() - i,
{
    let ghost w = phrase_of(words@);
    let ghost old_node = node;
    if i == words.len() {
        let TrieNode { children, action: _ } = node;
        let r = TrieNode { children, action: Some(action) };
        assert(w.skip(i as int) =~= Seq::<Seq<char>>::empty());
        assert forall|p: Seq<Seq<char>>| p.len() > 0 implies #[trigger] subtree(r, p) == subtree(old_node, p) by {}
        assert forall|p: Seq<Seq<char>>| #[trigger]
            action_at(r, p) == if p == w.skip(i as int) {
                Some(action)
            } else {
                action_at(old_node, p)
            } by {
            if p.len() > 0 {
                assert(subtree(r, p) == subtree(old_node, p));
                assert(p != w.skip(i as int));
            } else {
                assert(p =~= w.skip(i as int));
            }
        }
        assert forall|p: Seq<Seq<char>>| p.len() > 0 && (#[trigger] subtree(r, p)) is Some implies useful(
        subtree(r, p)->0) by {
            assert(subtree(r, p) == subtree(old_node, p));
        }
        return r;
    }
    let key = String::from_str(words[i]);
    assert(key@ == w[i as int]);
    let TrieNode { mut children, action: act } = node;
    let ghost old_ch = children@;
    assert(w.skip(i as int)[0] == w[i as int]);
    assert(w.skip(i as int).drop_first() =~= w.skip(i + 1));
    proof {
        lemma_find_child(old_ch, key@);
    }
    match find_index(&children, &key) {
        Some(j) => {
            let (k, c) = children.remove(j);
            assert(k@ == key@);
            proof {
                let one: Seq<Seq<char>> = seq![key@];
                assert(one.drop_first() =~= Seq::<Seq<char>>::empty());
                assert(subtree(c, one.drop_first()) == Some(c));
                assert(subtree(old_node, one) == Some(c));
                lemma_all_useful_below(old_node, one);
            }
            let c2 = insert_node(c, words, i + 1, action);
            let ghost e = (k, c2);
            children.insert(j, (k, c2));
            assert(children@ =~= old_ch.update(j as int, e));
            let r = TrieNode { children, action: act };
            proof {
                assert forall|lbl: Seq<char>| #[trigger]
                    find_child(r.children@, lbl) == find_child(old_ch, lbl) by {
                    lemma_find_child_update(old_ch, j as int, e, lbl);
                }
                assert forall|p: Seq<Seq<char>>| #[trigger]
                    action_at(r, p) == if p == w.skip(i as int) {
                        Some(action)
                    } else {
                        action_at(old_node, p)
                    } by {
                    if p.len() > 0 {
                        let f = find_child(old_ch, p[0]);
                        lemma_find_child(old_ch, p[0]);
                        assert(find_child(r.children@, p[0]) == f);
                        if f == j {
                            assert(subtree(r, p) == subtree(c2, p.drop_first()));
                            assert(subtree(old_node, p) == subtree(c, p.drop_first()));
                            assert(action_at(r, p) == action_at(c2, p.drop_first()));
                            assert(action_at(old_node, p) == action_at(c, p.drop_first()));
                            assert(p[0] == key@);
                            if p.drop_first() == w.skip(i + 1) {
                                assert(p =~= seq![p[0]] + p.drop_first());
                                assert(w.skip(i as int) =~= seq![w[i as int]] + w.skip(i + 1));
                                assert(p =~= w.skip(i as int));
                            } else {
                                assert(p != w.skip(i as int));
                            }
                        } else {
                            assert(p[0] != key@);
                            assert(p != w.skip(i as int));
                            if f >= 0 {
                                assert(r.children@[f] == old_ch[f]);
                            }
                            assert(subtree(r, p) == subtree(old_node, p));
                        }
                    } else {
                        assert(p != w.skip(i as int));
                        assert(subtree(r, p) == Some(r));
                        assert(subtree(old_node, p) == Some(old_node));
                    }
                }
                assert forall|p: Seq<Seq<char>>| p.len() > 0 && (#[trigger] subtree(r, p)) is Some implies useful(
                subtree(r, p)->0) by {
                    let f = find_child(old_ch, p[0]);
                    lemma_find_child(old_ch, p[0]);
                    if f == j {
                        if p.drop_first().len() > 0 {
                        } else {
                            assert(subtree(c2, p.drop_first()) == Some(c2));
                        }
                    } else {
                        assert(r.children@[f] == old_ch[f]);
                        assert(subtree(r, p) == subtree(old_node, p));
                    }
                }
            }
            r
        },
        None => {
            let c2 = insert_node(TrieNode::empty(), words, i + 1, action);
            let ghost e = (key, c2);
            children.push((key, c2));
            assert(children@ =~= old_ch.push(e));
            let r = TrieNode { children, action: act };
            proof {
                assert forall|lbl: Seq<char>| #[trigger]
                    find_child(r.children@, lbl) == (if find_child(old_ch, lbl) >= 0 {
                        find_child(old_ch, lbl)
                    } else if e.0@ == lbl {
                        old_ch.len() as int
                    } else {
                        -1
                    }) by {
                    lemma_find_child_push(old_ch, e, lbl);
                }
                assert forall|p: Seq<Seq<char>>| #[trigger]
                    action_at(r, p) == if p == w.skip(i as int) {
                        Some(action)
                    } else {
                        action_at(old_node, p)
                    } by {
                    if p.len() > 0 {
                        let f = find_child(old_ch, p[0]);
                        lemma_find_child(old_ch, p[0]);
                        if f >= 0 {
                            assert(find_child(r.children@, p[0]) == f);
                            assert(r.children@[f] == old_ch[f]);
                            assert(p[0] != key@);
                            assert(p != w.skip(i as int));
                            assert(subtree(r, p) == subtree(old_node, p));
                        } else if p[0] == key@ {
                            assert(find_child(r.children@, p[0]) == old_ch.len());
                            assert(subtree(r, p) == subtree(c2, p.drop_first()));
                            assert(action_at(r, p) == action_at(c2, p.drop_first()));
                            assert(subtree(old_node, p) is None);
                            if p.drop_first() == w.skip(i + 1) {
                                assert(p =~= seq![p[0]] + p.drop_first());
                                assert(w.skip(i as int) =~= seq![w[i as int]] + w.skip(i + 1));
                                assert(p =~= w.skip(i as int));
                            } else {
                                assert(p != w.skip(i as int));
                            }
                        } else {
                            assert(find_child(r.children@, p[0]) == -1);
                            assert(p != w.skip(i as int));
                        }
                    } else {
                        assert(p != w.skip(i as int));
                        assert(subtree(r, p) == Some(r));
                        assert(subtree(old_node, p) == Some(old_node));
                    }
                }
                assert forall|p: Seq<Seq<char>>| p.len() > 0 && (#[trigger] subtree(r, p)) is Some implies useful(
                subtree(r, p)->0) by {
                    let f = find_child(old_ch, p[0]);
                    lemma_find_child(old_ch, p[0]);
                    if f >= 0 {
                        assert(r.children@[f] == old_ch[f]);
                        assert(subtree(r, p) == subtree(old_node, p));
                    } else {
                        if p.drop_first().len() == 0 {
                            assert(subtree(c2, p.drop_first()) == Some(c2));
                        }
                    }
                }
            }
            r
        },
    }
}

impl CommandTrie {
    fn insert(&mut self, phrase: &[&str], action: TrieAction)
        ensures
            final(self)@ == old(self)@.insert(phrase_of(phrase@), action),
    {
        proof {
            use_type_invariant(&*self);
        }
        let ghost before = self@;
        let mut root = TrieNode::empty();
        std::mem::swap(&mut root, &mut self.root);
        let ghost old_root = root;
        self.root = insert_node(root, phrase, 0, action);
        assert(phrase_of(phrase@).skip(0) =~= phrase_of(phrase@));
        assert(self@ =~= before.insert(phrase_of(phrase@), action));
    }

    /// Classify `transcript` against the registered command set.
    ///
    /// Returns `Match` on the first complete phrase found, `Partial` if the
    /// transcript ends mid-phrase (useful for streaming evaluation), or
    /// `NoMatch` if no command is present or in progress.
    pub fn classify(&self, transcript: &str) -> (r: ClassifyResult)
        ensures
            r == classify_tokens(self@, tokens_of(transcript@)),
            ascii_text(transcript@) ==> r == classify_tokens(self@, ascii_tokens(transcript@)),
    {
        let tokens = tokenize(transcript);
        let ghost tv = views(tokens@);
        let ghost m = self@;
        if tokens.is_empty() {
            return ClassifyResult::NoMatch;
        }
        let n = tokens.len();
        let ts = tokens.as_slice();
        let mut start: usize = 0;
        while start < n
            invariant
                0 <= start <= n == tv.len() == ts@.len(),
                ts@ == tokens@,
                tv == views(tokens@),
                m == self@,
                tv == tokens_of(transcript@),
                ascii_text(transcript@) ==> tv == ascii_tokens(transcript@),
                scan_match(m, tv, 0) == scan_match(m, tv, start as int),
            decreases n - start,
        {
            let sub = &ts[start..n];
            assert(views(sub@) =~= tv.skip(start as int));
            if let Some(a) = self.try_match_at(sub) {
                assert(first_match(m, tv.skip(start as int)) == Some(a));
                assert(scan_match(m, tv, start as int) == Some(a));
                return ClassifyResult::Match(a);
            }
            assert(scan_match(m, tv, start as int) == scan_match(m, tv, start + 1));
            start = start + 1;
        }
        let mut start: usize = 0;
        while start < n
            invariant
                0 <= start <= n == tv.len() == ts@.len(),
                ts@ == tokens@,
                tv == views(tokens@),
                m == self@,
                tv == tokens_of(transcript@),
                ascii_text(transcript@) ==> tv == ascii_tokens(transcript@),
                scan_match(m, tv, 0) is None,
                scan_partial(m, tv, 0) == scan_partial(m, tv, start as int),
            decreases n - start,
        {
            let sub = &ts[start..n];
            assert(views(sub@) =~= tv.skip(start as int));
            if self.is_partial_prefix(sub) {
                assert(scan_partial(m, tv, start as int));
                return ClassifyResult::Partial;
            }
            assert(scan_partial(m, tv, start as int) == scan_partial(m, tv, start + 1));
            start = start + 1;
        }
        ClassifyResult::NoMatch
    }
}

/// The phrases of the built-in command set.
pub open spec fn default_phrases() -> Map<Seq<Seq<char>>, TrieAction> {
    Map::empty().insert(seq!["play"@, "music"@], TrieAction::PlayMusic).insert(
        seq!["start"@, "music"@],
        TrieAction::PlayMusic,
    ).insert(seq!["pause"@, "music"@], TrieAction::PauseMusic).insert(
        seq!["stop"@, "music"@],
        TrieAction::StopMusic,
    ).insert(seq!["set"@, "timer"@], TrieAction::SetTimer).insert(
        seq!["start"@, "timer"@],
        TrieAction::SetTimer,
    ).insert(seq!["lights"@, "on"@], TrieAction::LightsOn).insert(
        seq!["lights"@, "off"@],
        TrieAction::LightsOff,
    ).insert(seq!["turn"@, "lights"@, "on"@], TrieAction::LightsOn).insert(
        seq!["turn"@, "lights"@, "off"@],
        TrieAction::LightsOff,
    ).insert(seq!["weather"@], TrieAction::Weather).insert(
        seq!["volume"@, "up"@],
        TrieAction::VolumeUp,
    ).insert(seq!["volume"@, "down"@], TrieAction::VolumeDown)
}

// ── Laws of classification ────────────────────────────────────────────────────

proof fn lemma_first_match_none(m: Map<Seq<Seq<char>>, TrieAction>, t: Seq<Seq<char>>, k: int, j: int)
    requires
        first_match_from(m, t, k) is None,
        1 <= k <= j <= t.len(),
    ensures
        !m.contains_key(t.take(j)),
    decreases j - k,
{
    if k < j {
        lemma_first_match_none(m, t, k + 1, j);
    }
}

proof fn lemma_first_match_some(m: Map<Seq<Seq<char>>, TrieAction>, t: Seq<Seq<char>>, k: int) -> (j: int)
    requires
        first_match_from(m, t, k) is Some,
    ensures
        1 <= k <= j <= t.len(),
        m.contains_key(t.take(j)),
        m[t.take(j)] == first_match_from(m, t, k)->0,
    decreases t.len() + 1 - k,
{
    if m.contains_key(t.take(k)) {
        k
    } else {
        lemma_first_match_some(m, t, k + 1)
    }
}

proof fn lemma_scan_match_none(m: Map<Seq<Seq<char>>, TrieAction>, toks: Seq<Seq<char>>, s: int, t: int)
    requires
        scan_match(m, toks, s) is None,
        0 <= s <= t < toks.len(),
    ensures
        first_match(m, toks.skip(t)) is None,
    decreases t - s,
{
    if s < t {
        lemma_scan_match_none(m, toks, s + 1, t);
    }
}

proof fn lemma_scan_match_some(m: Map<Seq<Seq<char>>, TrieAction>, toks: Seq<Seq<char>>, s: int) -> (t: int)
    requires
        scan_match(m, toks, s) is Some,
    ensures
        0 <= s <= t < toks.len(),
        first_match(m, toks.skip(t)) == scan_match(m, toks, s),
    decreases toks.len() - s,
{
    if first_match(m, toks.skip(s)) is Some {
        s
    } else {
        lemma_scan_match_some(m, toks, s + 1)
    }
}

proof fn lemma_scan_partial_some(m: Map<Seq<Seq<char>>, TrieAction>, toks: Seq<Seq<char>>, s: int) -> (t: int)
    requires
        scan_partial(m, toks, s),
    ensures
        0 <= s <= t < toks.len(),
        partial(m, toks.skip(t)),
    decreases toks.len() - s,
{
    if partial(m, toks.skip(s)) {
        s
    } else {
        lemma_scan_partial_some(m, toks, s + 1)
    }
}

proof fn lemma_scan_partial_none(m: Map<Seq<Seq<char>>, TrieAction>, toks: Seq<Seq<char>>, s: int, t: int)
    requires
        !scan_partial(m, toks, s),
        0 <= s <= t < toks.len(),
    ensures
        !partial(m, toks.skip(t)),
    decreases t - s,
{
    if s < t {
        lemma_scan_partial_none(m, toks, s + 1, t);
    }
}

/// A registered phrase anywhere in the tokens, even inside a longer
/// utterance, makes the classification a match.
pub proof fn lemma_embedded_phrase_matches(
    m: Map<Seq<Seq<char>>, TrieAction>,
    toks: Seq<Seq<char>>,
    s: int,
    p: Seq<Seq<char>>,
)
    requires
        m.contains_key(p),
        p.len() > 0,
        0 <= s,
        s + p.len() <= toks.len(),
        toks.subrange(s, s + p.len()) == p,
    ensures
        classify_tokens(m, toks) is Match,
{
    if scan_match(m, toks, 0) is None {
        lemma_scan_match_none(m, toks, 0, s);
        let t = toks.skip(s);
        assert(t.take(p.len() as int) =~= p);
        lemma_first_match_none(m, t, 1, p.len() as int);
    }
}

/// A match names the action of a registered phrase that occurs, word for
/// word, somewhere in the tokens.
pub proof fn lemma_match_is_sound(m: Map<Seq<Seq<char>>, TrieAction>, toks: Seq<Seq<char>>, a: TrieAction)
    requires
        classify_tokens(m, toks) == ClassifyResult::Match(a),
    ensures
        exists|s: int, e: int|
            0 <= s < e <= toks.len() && m.contains_key(#[trigger] toks.subrange(s, e)) && m[toks.subrange(s, e)] == a,
{
    let s = lemma_scan_match_some(m, toks, 0);
    let t = toks.skip(s);
    let j = lemma_first_match_some(m, t, 1);
    assert(t.take(j) =~= toks.subrange(s, s + j));
}

/// `Partial` means no registered phrase occurs in the tokens, but some
/// suffix of them is a proper beginning of a registered phrase.
pub proof fn lemma_partial_is_sound(m: Map<Seq<Seq<char>>, TrieAction>, toks: Seq<Seq<char>>)
    requires
        classify_tokens(m, toks) == ClassifyResult::Partial,
    ensures
        forall|s: int, e: int|
            0 <= s < e <= toks.len() ==> !m.contains_key(#[trigger] toks.subrange(s, e)),
        exists|s: int| 0 <= s < toks.len() && partial(m, #[trigger] toks.skip(s)),
{
    assert forall|s: int, e: int| 0 <= s < e <= toks.len() implies !m.contains_key(
    #[trigger] toks.subrange(s, e)) by {
        lemma_scan_match_none(m, toks, 0, s);
        let t = toks.skip(s);
        assert(t.take(e - s) =~= toks.subrange(s, e));
        lemma_first_match_none(m, t, 1, e - s);
    }
    let s = lemma_scan_partial_some(m, toks, 0);
}

/// `NoMatch` means no registered phrase occurs in the tokens and no suffix
/// of them begins a registered phrase.
pub proof fn lemma_no_match_is_sound(m: Map<Seq<Seq<char>>, TrieAction>, toks: Seq<Seq<char>>)
    requires
        classify_tokens(m, toks) == ClassifyResult::NoMatch,
    ensures
        forall|s: int, e: int|
            0 <= s < e <= toks.len() ==> !m.contains_key(#[trigger] toks.subrange(s, e)),
        forall|s: int| 0 <= s < toks.len() ==> !partial(m, #[trigger] toks.skip(s)),
{
    if toks.len() > 0 {
        assert forall|s: int, e: int| 0 <= s < e <= toks.len() implies !m.contains_key(
        #[trigger] toks.subrange(s, e)) by {
            lemma_scan_match_none(m, toks, 0, s);
            let t = toks.skip(s);
            assert(t.take(e - s) =~= toks.subrange(s, e));
            lemma_first_match_none(m, t, 1, e - s);
        }
        assert forall|s: int| 0 <= s < toks.len() implies !partial(m, #[trigger] toks.skip(s)) by {
            lemma_scan_partial_none(m, toks, 0, s);
        }
    }
}

/// Classification ignores letter case: transcripts that lower-case to the
/// same text classify alike.
pub proof fn lemma_classify_ignores_case(m: Map<Seq<Seq<char>>, TrieAction>, a: Seq<char>, b: Seq<char>)
    requires
        lowercase(a) == lowercase(b),
    ensures
        classify_tokens(m, tokens_of(a)) == classify_tokens(m, tokens_of(b)),
{
}

impl Default for CommandTrie {
    fn default() -> (t: Self)
        ensures
            t@ == default_phrases(),
    {
        let mut t = Self { root: TrieNode::empty() };
        assert(t@ =~= Map::<Seq<Seq<char>>, TrieAction>::empty());
        let p0: &[&str] = &["play", "music"];
        assert(phrase_of(p0@) =~= seq!["play"@, "music"@]);
        t.insert(p0, TrieAction::PlayMusic);
        let p1: &[&str] = &["start", "music"];
        assert(phrase_of(p1@) =~= seq!["start"@, "music"@]);
        t.insert(p1, TrieAction::PlayMusic);
        let p2: &[&str] = &["pause", "music"];
        assert(phrase_of(p2@) =~= seq!["pause"@, "music"@]);
        t.insert(p2, TrieAction::PauseMusic);
        let p3: &[&str] = &["stop", "music"];
        assert(phrase_of(p3@) =~= seq!["stop"@, "music"@]);
        t.insert(p3, TrieAction::StopMusic);
        let p4: &[&str] = &["set", "timer"];
        assert(phrase_of(p4@) =~= seq!["set"@, "timer"@]);
        t.insert(p4, TrieAction::SetTimer);
        let p5: &[&str] = &["start", "timer"];
        assert(phrase_of(p5@) =~= seq!["start"@, "timer"@]);
        t.insert(p5, TrieAction::SetTimer);
        let p6: &[&str] = &["lights", "on"];
        assert(phrase_of(p6@) =~= seq!["lights"@, "on"@]);
        t.insert(p6, TrieAction::LightsOn);
        let p7: &[&str] = &["lights", "off"];
        assert(phrase_of(p7@) =~= seq!["lights"@, "off"@]);
        t.insert(p7, TrieAction::LightsOff);
        let p8: &[&str] = &["turn", "lights", "on"];
        assert(phrase_of(p8@) =~= seq!["turn"@, "lights"@, "on"@]);
        t.insert(p8, TrieAction::LightsOn);
        let p9: &[&str] = &["turn", "lights", "off"];
        assert(phrase_of(p9@) =~= seq!["turn"@, "lights"@, "off"@]);
        t.insert(p9, TrieAction::LightsOff);
        let p10: &[&str] = &["weather"];
        assert(phrase_of(p10@) =~= seq!["weather"@]);
        t.insert(p10, TrieAction::Weather);
        let p11: &[&str] = &["volume", "up"];
        assert(phrase_of(p11@) =~= seq!["volume"@, "up"@]);
        t.insert(p11, TrieAction::VolumeUp);
        let p12: &[&str] = &["volume", "down"];
        assert(phrase_of(p12@) =~= seq!["volume"@, "down"@]);
        t.insert(p12, TrieAction::VolumeDown);
        t
    }
}

} // verus!
