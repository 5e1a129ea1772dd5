//! Per-session conversation history: the records stored per turn, their
//! point ids, ordering of retrieved turns, and the prompt preamble.
use vstd::prelude::*;
use crate::text::{decimal, digit_char, push_decimal_padded, push_str, zero_pad};

verus! {

/// Who spoke a turn.
#[derive(Debug, Clone, Copy, PartialEq, Eq, Structural)]
pub enum Role {
    User,
    Assistant,
}

/// One turn of a conversation with a node.
#[derive(Debug, Clone)]
pub struct HistoryEntry {
    pub node_id: String,
    pub role: Role,
    pub content: String,
    pub timestamp_us: i64,
}

/// `{:020}` of a signed number: the sign, then the digits zero-padded so
/// that sign and digits take twenty characters together.
pub open spec fn padded_timestamp(t: int) -> Seq<char> {
    if t >= 0 {
        zero_pad(decimal(t as nat), 20)
    } else {
        "-"@ + zero_pad(decimal((-t) as nat), 19)
    }
}

/// The point id of a turn: the node id, `_`, and the zero-padded timestamp.
pub open spec fn point_id_of(node_id: Seq<char>, t: int) -> Seq<char> {
    node_id + "_"@ + padded_timestamp(t)
}

impl HistoryEntry {
    /// The id of the stored point for a turn of `node_id` at `timestamp_us`.
    /// The timestamp is zero-padded so that lexicographic order is
    /// chronological order.
    pub fn point_id(node_id: &str, timestamp_us: i64) -> (id: String)
        ensures
            id@ == point_id_of(node_id@, timestamp_us as int),
    {
        let mut id = String::from_str(node_id);
        push_str(&mut id, "_");
        if timestamp_us >= 0 {
            push_decimal_padded(&mut id, timestamp_us as u64, 20);
        } else {
            push_str(&mut id, "-");
            let magnitude: u64 = if timestamp_us == i64::MIN {
                9223372036854775808u64
            } else {
                (-timestamp_us) as u64
            };
            push_decimal_padded(&mut id, magnitude, 19);
        }
        assert(id@ =~= point_id_of(node_id@, timestamp_us as int));
        id
    }
}

// ── Chronological order of point ids ──────────────────────────────────────────

/// Lexicographic order on characters: `a` comes strictly before `b`.
pub open spec fn lex_less(a: Seq<char>, b: Seq<char>) -> bool {
    exists|i: int|
        0 <= i <= a.len() && i <= b.len() && a.take(i) == b.take(i) && ((i == a.len() && i < b.len())
            || (i < a.len() && i < b.len() && (a[i] as u32) < (b[i] as u32)))
}

/// Ten to the power `w`.
pub open spec fn pow10(w: nat) -> nat
    decreases w,
{
    if w == 0 {
        1
    } else {
        10 * pow10((w - 1) as nat)
    }
}

/// The last `w` decimal digits of `n`, most significant first.
spec fn digits(n: nat, w: nat) -> Seq<char>
    decreases w,
{
    if w == 0 {
        seq![]
    } else {
        digits(n / 10, (w - 1) as nat).push(digit_char(n % 10))
    }
}

proof fn lemma_pow10_pos(w: nat)
    ensures
        pow10(w) >= 1,
    decreases w,
{
    if w > 0 {
        lemma_pow10_pos((w - 1) as nat);
    }
}

proof fn lemma_digits_of_small(n: nat, w: nat)
    requires
        w >= 1,
        n < pow10(w),
    ensures
        zero_pad(decimal(n), w) == digits(n, w),
        decimal(n).len() <= w,
    decreases w,
{
    if w == 0 {
    } else {
        let w1 = (w - 1) as nat;
        lemma_pow10_pos(w1);
        if n < 10 {
            // one digit, then zeros
            lemma_zero_digits(w1);
            assert(digits(n / 10, w1) == digits(0, w1));
            assert(zero_pad(decimal(n), w) =~= digits(n, w));
        } else {
            assert(n / 10 < pow10(w1)) by (nonlinear_arith)
                requires
                    n < 10 * pow10(w1),
            ;
            assert(n / 10 >= 1);
            if w1 == 0 {
                assert(pow10(0) == 1);
            }
            lemma_digits_of_small(n / 10, w1);
            let d = decimal(n / 10);
            assert(decimal(n) == d.push(digit_char(n % 10)));
            if d.len() < w1 {
                assert(zero_pad(d.push(digit_char(n % 10)), w) =~= zero_pad(d, w1).push(
                    digit_char(n % 10),
                ));
            } else {
                assert(zero_pad(d.push(digit_char(n % 10)), w) =~= zero_pad(d, w1).push(
                    digit_char(n % 10),
                ));
            }
        }
    }
}

proof fn lemma_zero_digits(w: nat)
    ensures
        digits(0, w) == Seq::new(w, |i: int| '0'),
    decreases w,
{
    if w > 0 {
        lemma_zero_digits((w - 1) as nat);
        assert(digits(0, w) =~= Seq::new(w, |i: int| '0'));
    }
}

proof fn lemma_digits_len(n: nat, w: nat)
    ensures
        digits(n, w).len() == w,
    decreases w,
{
    if w > 0 {
        lemma_digits_len(n / 10, (w - 1) as nat);
    }
}

/// Fixed-width digit strings compare like the numbers they write.
proof fn lemma_digits_order(a: nat, b: nat, w: nat)
    requires
        a < b < pow10(w),
    ensures
        lex_less(digits(a, w), digits(b, w)),
    decreases w,
{
    let w1 = (w - 1) as nat;
    lemma_digits_len(a, w);
    lemma_digits_len(b, w);
    lemma_digits_len(a / 10, w1);
    lemma_digits_len(b / 10, w1);
    let da = digits(a, w);
    let db = digits(b, w);
    assert(a / 10 <= b / 10) by (nonlinear_arith)
        requires
            a < b,
    ;
    assert(b / 10 < pow10(w1)) by (nonlinear_arith)
        requires
            b < 10 * pow10(w1),
    ;
    if a / 10 == b / 10 {
        assert(a % 10 < b % 10) by (nonlinear_arith)
            requires
                a < b,
                a / 10 == b / 10,
        ;
        let i = w1 as int;
        assert(da.take(i) =~= digits(a / 10, w1));
        assert(db.take(i) =~= digits(b / 10, w1));
        assert(da[i] == digit_char(a % 10));
        assert(db[i] == digit_char(b % 10));
        assert(0 <= i <= da.len() && i <= db.len() && da.take(i) == db.take(i) && i < da.len() && i
            < db.len() && (da[i] as u32) < (db[i] as u32));
    } else {
        lemma_digits_order(a / 10, b / 10, w1);
        let pa = digits(a / 10, w1);
        let pb = digits(b / 10, w1);
        let i = choose|i: int|
            0 <= i <= pa.len() && i <= pb.len() && pa.take(i) == pb.take(i) && ((i == pa.len() && i
                < pb.len()) || (i < pa.len() && i < pb.len() && (pa[i] as u32) < (pb[i] as u32)));
        assert(da.take(i) =~= pa.take(i));
        assert(db.take(i) =~= pb.take(i));
        assert(da[i] == pa[i]);
        assert(db[i] == pb[i]);
        assert(0 <= i <= da.len() && i <= db.len() && da.take(i) == db.take(i) && i < da.len() && i
            < db.len() && (da[i] as u32) < (db[i] as u32));
    }
}

proof fn lemma_lex_less_prefix(p: Seq<char>, a: Seq<char>, b: Seq<char>)
    requires
        lex_less(a, b),
    ensures
        lex_less(p + a, p + b),
{
    let i = choose|i: int|
        0 <= i <= a.len() && i <= b.len() && a.take(i) == b.take(i) && ((i == a.len() && i < b.len())
            || (i < a.len() && i < b.len() && (a[i] as u32) < (b[i] as u32)));
    let j = p.len() + i;
    assert((p + a).take(j) =~= p + a.take(i));
    assert((p + b).take(j) =~= p + b.take(i));
    if i < a.len() {
        assert((p + a)[j] == a[i]);
        assert((p + b)[j] == b[i]);
    }
}

/// For a node, a turn with an earlier non-negative timestamp has a point id
/// that sorts before the later turn's.
pub proof fn lemma_point_ids_sort_chronologically(node_id: Seq<char>, t1: i64, t2: i64)
    requires
        0 <= t1 < t2,
    ensures
        lex_less(point_id_of(node_id, t1 as int), point_id_of(node_id, t2 as int)),
{
    reveal_with_fuel(pow10, 21);
    assert(pow10(20) == 100000000000000000000);
    lemma_digits_of_small(t1 as nat, 20);
    lemma_digits_of_small(t2 as nat, 20);
    lemma_digits_order(t1 as nat, t2 as nat, 20);
    lemma_lex_less_prefix(node_id + "_"@, digits(t1 as nat, 20), digits(t2 as nat, 20));
}

// ── Retrieved turns ───────────────────────────────────────────────────────────

/// Where `x` goes in `r`: before the first entry not earlier than it.
pub open spec fn insert_at(r: Seq<HistoryEntry>, t: i64) -> int
    decreases r.len(),
{
    if r.len() == 0 || r[0].timestamp_us >= t {
        0
    } else {
        1 + insert_at(r.drop_first(), t)
    }
}

/// The entries of `s` in chronological order, entries with equal
/// timestamps keeping their order (a stable sort by timestamp).
pub open spec fn by_time(s: Seq<HistoryEntry>) -> Seq<HistoryEntry>
    decreases s.len(),
{
    if s.len() == 0 {
        seq![]
    } else {
        let r = by_time(s.drop_first());
        let p = insert_at(r, s[0].timestamp_us);
        r.take(p) + seq![s[0]] + r.skip(p)
    }
}

/// Whether the entries of `s` are in chronological order.
pub open spec fn chronological(s: Seq<HistoryEntry>) -> bool {
    forall|i: int, j: int| 0 <= i < j < s.len() ==> s[i].timestamp_us <= s[j].timestamp_us
}

proof fn lemma_insert_at(r: Seq<HistoryEntry>, t: i64)
    ensures
        0 <= insert_at(r, t) <= r.len(),
        forall|k: int| 0 <= k < insert_at(r, t) ==> (#[trigger] r[k]).timestamp_us < t,
        insert_at(r, t) < r.len() ==> r[insert_at(r, t)].timestamp_us >= t,
    decreases r.len(),
{
    if r.len() > 0 && r[0].timestamp_us < t {
        lemma_insert_at(r.drop_first(), t);
        assert forall|k: int| 0 <= k < insert_at(r, t) implies (#[trigger] r[k]).timestamp_us < t by {
            if k > 0 {
                assert(r[k] == r.drop_first()[k - 1]);
            }
        }
    }
}

/// The stable sort by time is in chronological order and holds the same entries.
pub proof fn lemma_by_time_sorted(s: Seq<HistoryEntry>)
    ensures
        chronological(by_time(s)),
        by_time(s).to_multiset() == s.to_multiset(),
        by_time(s).len() == s.len(),
    decreases s.len(),
{
    if s.len() > 0 {
        lemma_by_time_sorted(s.drop_first());
        let r = by_time(s.drop_first());
        let t = s[0].timestamp_us;
        lemma_insert_at(r, t);
        let p = insert_at(r, t);
        let out = r.take(p) + seq![s[0]] + r.skip(p);
        assert forall|i: int, j: int| 0 <= i < j < out.len() implies out[i].timestamp_us
            <= out[j].timestamp_us by {
            if i < p && j < p {
                assert(out[i] == r[i] && out[j] == r[j]);
            } else if i < p && j == p {
                assert(out[i] == r[i]);
            } else if i < p {
                assert(out[i] == r[i] && out[j] == r[j - 1]);
            } else if i == p {
                assert(out[j] == r[j - 1]);
                if p < r.len() {
                    assert(r[p].timestamp_us >= t);
                    assert(r[p].timestamp_us <= r[j - 1].timestamp_us);
                }
            } else {
                assert(out[i] == r[i - 1] && out[j] == r[j - 1]);
            }
        }
        let a = r.take(p);
        let b = r.skip(p);
        let x = seq![s[0]];
        assert(a + b =~= r);
        assert(out =~= (a + x) + b);
        vstd::seq_lib::lemma_multiset_commutative(a + x, b);
        vstd::seq_lib::lemma_multiset_commutative(a, x);
        vstd::seq_lib::lemma_multiset_commutative(a, b);
        vstd::seq_lib::lemma_multiset_commutative(x, s.drop_first());
        assert(s =~= x + s.drop_first());
        assert(out.to_multiset() == a.to_multiset().add(x.to_multiset()).add(b.to_multiset()));
        assert(r.to_multiset() == a.to_multiset().add(b.to_multiset()));
        assert(s.to_multiset() == x.to_multiset().add(r.to_multiset()));
        assert(out.to_multiset() =~= s.to_multiset());
    } else {
        assert(s =~= Seq::<HistoryEntry>::empty());
        assert(by_time(s) =~= Seq::<HistoryEntry>::empty());
    }
}

/// The last `n` of `s` (all of it when shorter).
pub open spec fn last_n<T>(s: Seq<T>, n: nat) -> Seq<T> {
    if n < s.len() {
        s.skip(s.len() - n)
    } else {
        s
    }
}

/// The last `n` turns, in chronological order: the retrieved turns ordered
/// by time (stable on equal timestamps), of which the latest `n` are kept.
pub fn recent_turns(entries: Vec<HistoryEntry>, n: usize) -> (r: Vec<HistoryEntry>)
    ensures
        r@ == last_n(by_time(entries@), n as nat),
{
    let ghost s = entries@;
    let mut rest = entries;
    let mut out: Vec<HistoryEntry> = Vec::new();
    assert(s.skip(s.len() as int) =~= Seq::<HistoryEntry>::empty());
    while rest.len() > 0
        invariant
            rest@ == s.take(rest@.len() as int),
            rest@.len() <= s.len(),
            out@ == by_time(s.skip(rest@.len() as int)),
        decreases rest@.len(),
    {
        let x = rest.pop().unwrap();
        let k = rest.len();
        assert(s.skip(k as int).drop_first() =~= s.skip(k + 1));
        assert(s.skip(k as int)[0] == x);
        let mut p: usize = 0;
        assert(out@.skip(0) =~= out@);
        while p < out.len() && out[p].timestamp_us < x.timestamp_us
            invariant
                0 <= p <= out@.len(),
                insert_at(out@, x.timestamp_us) == p + insert_at(out@.skip(p as int), x.timestamp_us),
            decreases out@.len() - p,
        {
            assert(out@.skip(p as int).drop_first() =~= out@.skip(p + 1));
            p = p + 1;
        }
        assert(insert_at(out@.skip(p as int), x.timestamp_us) == 0);
        let ghost before = out@;
        out.insert(p, x);
        assert(out@ =~= before.take(p as int) + seq![x] + before.skip(p as int));
        assert(rest@ =~= s.take(k as int));
    }
    assert(s.skip(0) =~= s);
    let ghost sorted = out@;
    let total = out.len();
    let mut dropped: usize = 0;
    assert(sorted.skip(0) =~= sorted);
    while out.len() > n
        invariant
            out@ == sorted.skip(dropped as int),
            dropped <= sorted.len(),
            sorted.len() == total,
            dropped == 0 || sorted.len() - dropped >= n,
        decreases out@.len(),
    {
        assert(dropped < sorted.len());
        out.remove(0);
        dropped = dropped + 1;
        assert(out@ =~= sorted.skip(dropped as int));
    }
    proof {
        if n < sorted.len() {
            assert(dropped == sorted.len() - n);
        } else {
            assert(dropped == 0);
        }
    }
    out
}

// ── Prompt preamble ───────────────────────────────────────────────────────────

/// The speaker label of a role.
pub open spec fn role_label(r: Role) -> Seq<char> {
    match r {
        Role::User => "User"@,
        Role::Assistant => "Assistant"@,
    }
}

/// The line of a turn in the prompt: `User: …` or `Assistant: …`.
pub open spec fn history_line(e: HistoryEntry) -> Seq<char> {
    role_label(e.role) + ": "@ + e.content@
}

/// The lines of `es`, separated by newlines.
pub open spec fn history_text(es: Seq<HistoryEntry>) -> Seq<char>
    decreases es.len(),
{
    if es.len() == 0 {
        seq![]
    } else if es.len() == 1 {
        history_line(es[0])
    } else {
        history_text(es.drop_last()) + "\n"@ + history_line(es.last())
    }
}

/// A single turn is written as its speaker's label — "User" for the user,
/// "Assistant" for the assistant — then ": " and what was said.
pub proof fn lemma_single_turn_line(e: HistoryEntry)
    ensures
        e.role == Role::User ==> history_text(seq![e]) == "User: "@ + e.content@,
        e.role == Role::Assistant ==> history_text(seq![e]) == "Assistant: "@ + e.content@,
{
    reveal_strlit("User: ");
    reveal_strlit("User");
    reveal_strlit("Assistant: ");
    reveal_strlit("Assistant");
    reveal_strlit(": ");
    assert("User"@ + ": "@ =~= "User: "@);
    assert("Assistant"@ + ": "@ =~= "Assistant: "@);
    assert(history_text(seq![e]) == history_line(e));
    assert(("User"@ + ": "@) + e.content@ =~= "User"@ + ": "@ + e.content@);
    assert(("Assistant"@ + ": "@) + e.content@ =~= "Assistant"@ + ": "@ + e.content@);
}

/// One more turn adds one line after a newline, labelled by that turn's own
/// speaker whatever its position: "User: …" for the user, "Assistant: …" for
/// the assistant; the earlier lines stay as they were.
pub proof fn lemma_next_turn_line(es: Seq<HistoryEntry>, e: HistoryEntry)
    requires
        es.len() > 0,
    ensures
        e.role == Role::User ==> history_text(es.push(e)) == history_text(es) + "\nUser: "@
            + e.content@,
        e.role == Role::Assistant ==> history_text(es.push(e)) == history_text(es)
            + "\nAssistant: "@ + e.content@,
{
    reveal_strlit("\nUser: ");
    reveal_strlit("\nAssistant: ");
    reveal_strlit("User");
    reveal_strlit("Assistant");
    reveal_strlit(": ");
    reveal_strlit("\n");
    let t = es.push(e);
    assert(t.drop_last() =~= es);
    assert(t.last() == e);
    assert(history_text(t) == history_text(es) + "\n"@ + history_line(e));
    if e.role == Role::User {
        assert(history_text(es) + "\n"@ + history_line(e) =~= history_text(es) + "\nUser: "@
            + e.content@);
    } else {
        assert(history_text(es) + "\n"@ + history_line(e) =~= history_text(es)
            + "\nAssistant: "@ + e.content@);
    }
}

/// Format history entries as a prompt preamble, one `User: …` or
/// `Assistant: …` line per turn, joined with newlines.
pub fn format_history(entries: &[HistoryEntry]) -> (text: String)
    ensures
        text@ == history_text(entries@),
{
    let mut text = String::new();
    let mut i: usize = 0;
    while i < entries.len()
        invariant
            0 <= i <= entries@.len(),
            text@ == history_text(entries@.take(i as int)),
        decreases entries@.len() - i,
    {
        let e = &entries[i];
        let ghost pre = entries@.take(i as int);
        assert(entries@.take(i + 1).drop_last() =~= pre);
        if i > 0 {
            push_str(&mut text, "\n");
        }
        match e.role {
            Role::User => push_str(&mut text, "User"),
            Role::Assistant => push_str(&mut text, "Assistant"),
        }
        push_str(&mut text, ": ");
        push_str(&mut text, e.content.as_str());
        i = i + 1;
        assert(text@ =~= history_text(entries@.take(i as int)));
    }
    assert(entries@.take(entries@.len() as int) =~= entries@);
    text
}

} // verus!
