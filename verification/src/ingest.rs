//! Document ingestion: splitting texts into overlapping character windows
//! and naming the chunks that are stored for retrieval.
use vstd::prelude::*;
use crate::text::{chars_of, decimal, push_decimal_padded, push_str, string_from_chars, zero_pad};
use crate::trie::views;

verus! {

/// Characters per chunk (about 512 tokens at ~4 characters per token).
pub const CHUNK_CHARS: usize = 2048;

/// Characters shared by consecutive chunks.
pub const OVERLAP_CHARS: usize = 256;

/// The windows of `text` from position `start` on: each `size` characters
/// long, starting `step` characters after the previous one, the last one
/// ending at the end of the text.
pub open spec fn windows_from(text: Seq<char>, size: nat, step: nat, start: nat) -> Seq<Seq<char>>
    decreases (if start < text.len() {
        text.len() - start
    } else {
        0
    }),
{
    if start >= text.len() || step == 0 {
        seq![]
    } else if start + size >= text.len() {
        seq![text.subrange(start as int, text.len() as int)]
    } else {
        seq![text.subrange(start as int, (start + size) as int)] + windows_from(
            text,
            size,
            step,
            start + step,
        )
    }
}

/// The overlapping chunks of `text`: windows of `size` characters whose
/// consecutive starts lie `size - overlap` apart.
pub open spec fn chunks_of(text: Seq<char>, size: nat, overlap: nat) -> Seq<Seq<char>> {
    windows_from(text, size, (size - overlap) as nat, 0)
}

/// Split `text` into overlapping character-window chunks.
pub fn chunk_text(text: &str, chunk_size: usize, overlap: usize) -> (chunks: Vec<String>)
    requires
        overlap < chunk_size,
    ensures
        views(chunks@) == chunks_of(text@, chunk_size as nat, overlap as nat),
{
    let chars = chars_of(text);
    let total = chars.len();
    let step = chunk_size - overlap;
    let mut chunks: Vec<String> = Vec::new();
    if total == 0 {
        assert(views(chunks@) =~= Seq::<Seq<char>>::empty());
        return chunks;
    }
    let mut start: usize = 0;
    let ghost t = chars@;
    loop
        invariant_except_break
            start < total,
            chunks_of(t, chunk_size as nat, overlap as nat) == views(chunks@) + windows_from(
                t,
                chunk_size as nat,
                step as nat,
                start as nat,
            ),
        invariant
            total == t.len() == chars@.len(),
            t == text@,
            t == chars@,
            step == chunk_size - overlap,
            step > 0,
        ensures
            chunks_of(t, chunk_size as nat, overlap as nat) == views(chunks@),
        decreases total - start,
    {
        let end = if chunk_size < total - start {
            start + chunk_size
        } else {
            total
        };
        let piece = string_from_chars(chars.as_slice(), start, end);
        let ghost before = views(chunks@);
        chunks.push(piece);
        assert(views(chunks@) =~= before.push(piece@));
        assert(piece@ == t.subrange(start as int, end as int));
        assert(start < t.len());
        if end == total {
            assert(start + chunk_size >= t.len());
            assert(windows_from(t, chunk_size as nat, step as nat, start as nat) == seq![t.subrange(start as int, t.len() as int)]);
            assert(windows_from(t, chunk_size as nat, step as nat, start as nat) =~= seq![
                piece@,
            ]);
            assert(views(chunks@) =~= before + seq![piece@]);
            break ;
        }
        assert(before + windows_from(t, chunk_size as nat, step as nat, start as nat) =~= views(
            chunks@,
        ) + windows_from(t, chunk_size as nat, step as nat, (start + step) as nat));
        start = start + step;
    }
    chunks
}

// ── Laws ─────────────────────────────────────────────────────────────────────

/// Joins windows back together, dropping the first `overlap` characters of
/// every window after the first.
pub open spec fn stitch(ws: Seq<Seq<char>>, overlap: nat) -> Seq<char>
    decreases ws.len(),
{
    if ws.len() == 0 {
        seq![]
    } else if ws.len() == 1 {
        ws[0]
    } else {
        stitch(ws.drop_last(), overlap) + ws.last().skip(overlap as int)
    }
}

proof fn lemma_windows_shape(text: Seq<char>, size: nat, step: nat, start: nat)
    requires
        0 < step <= size,
        start < text.len(),
    ensures
        ({
            let ws = windows_from(text, size, step, start);
            &&& ws.len() >= 1
            &&& ws[0] == text.subrange(start as int, if start + size >= text.len() {
                text.len() as int
            } else {
                (start + size) as int
            })
            &&& ws.last() == text.subrange(
                start + (ws.len() - 1) * step,
                text.len() as int,
            )
            &&& forall|k: int|
                0 <= k < ws.len() - 1 ==> #[trigger] ws[k] == text.subrange(
                    start + k * step,
                    start + k * step + size,
                ) && start + k * step + size < text.len()
            &&& start + (ws.len() - 1) * step + size >= text.len()
            &&& start + (ws.len() - 1) * step < text.len()
        }),
    decreases text.len() - start,
{
    let ws = windows_from(text, size, step, start);
    if start + size >= text.len() {
    } else {
        lemma_windows_shape(text, size, step, start + step);
        let rest = windows_from(text, size, step, start + step);
        assert(ws =~= seq![text.subrange(start as int, (start + size) as int)] + rest);
        assert forall|k: int| 0 <= k < ws.len() - 1 implies #[trigger] ws[k] == text.subrange(
            start + k * step,
            start + k * step + size,
        ) && start + k * step + size < text.len() by {
            if k > 0 {
                assert(ws[k] == rest[k - 1]);
                assert(start + k * step == (start + step) + (k - 1) * step) by (nonlinear_arith);
            }
        }
        assert(start + (ws.len() - 1) * step == (start + step) + (rest.len() - 1) * step)
            by (nonlinear_arith)
            requires
                ws.len() == rest.len() + 1,
        ;
    }
}

/// Every chunk holds at most `size` characters, and every chunk but the
/// last holds exactly `size`.
pub proof fn lemma_chunk_lengths(text: Seq<char>, size: nat, overlap: nat)
    requires
        overlap < size,
    ensures
        forall|k: int|
            0 <= k < chunks_of(text, size, overlap).len() ==> #[trigger] chunks_of(
                text,
                size,
                overlap,
            )[k].len() <= size,
        forall|k: int|
            0 <= k < chunks_of(text, size, overlap).len() - 1 ==> #[trigger] chunks_of(
                text,
                size,
                overlap,
            )[k].len() == size,
{
    let step = (size - overlap) as nat;
    if text.len() > 0 {
        lemma_windows_shape(text, size, step, 0);
        let ws = chunks_of(text, size, overlap);
        assert forall|k: int| 0 <= k < ws.len() implies #[trigger] ws[k].len() <= size by {
            if k < ws.len() - 1 {
            } else {
                assert(ws[k] == ws.last());
            }
        }
    }
}

/// Consecutive chunks overlap: the last `overlap` characters of a chunk are
/// the first `overlap` characters of the next.
pub proof fn lemma_chunks_overlap(text: Seq<char>, size: nat, overlap: nat, k: int)
    requires
        overlap < size,
        0 <= k,
        k + 1 < chunks_of(text, size, overlap).len(),
    ensures
        ({
            let ws = chunks_of(text, size, overlap);
            ws[k].skip(size - overlap) == ws[k + 1].take(
                overlap as int,
            )
        }),
{
    let step = (size - overlap) as nat;
    let ws = chunks_of(text, size, overlap);
    lemma_windows_shape(text, size, step, 0);
    let a = k * step;
    assert((k + 1) * step == k * step + step) by (nonlinear_arith);
    let b = if k + 1 < ws.len() - 1 {
        a + step + size
    } else {
        text.len() as int
    };
    if k + 1 == ws.len() - 1 {
        assert(ws[k + 1] == ws.last());
    }
    assert(ws[k].skip(size - overlap) =~= ws[k + 1].take(overlap as int));
}

proof fn lemma_stitch_prefix(text: Seq<char>, size: nat, overlap: nat, n: int)
    requires
        overlap < size,
        text.len() > 0,
        1 <= n <= chunks_of(text, size, overlap).len(),
    ensures
        stitch(chunks_of(text, size, overlap).take(n), overlap) == text.take(
            if n < chunks_of(text, size, overlap).len() {
                (n - 1) * (size - overlap) + size
            } else {
                text.len() as int
            },
        ),
    decreases n,
{
    let step = (size - overlap) as nat;
    let ws = chunks_of(text, size, overlap);
    lemma_windows_shape(text, size, step, 0);
    if n == 1 {
        assert(ws.take(1) =~= seq![ws[0]]);
        if ws.len() == 1 {
            assert(ws[0] == ws.last());
        }
        assert(stitch(ws.take(1), overlap) == ws[0]);
        assert(ws[0] =~= text.take(
            if 1 < ws.len() {
                size as int
            } else {
                text.len() as int
            },
        ));
    } else {
        lemma_stitch_prefix(text, size, overlap, n - 1);
        assert(ws.take(n).drop_last() =~= ws.take(n - 1));
        assert(ws.take(n).last() == ws[n - 1]);
        let a = (n - 1) * step;
        assert((n - 2) * step + size == a + overlap) by (nonlinear_arith)
            requires
                step == size - overlap,
                a == (n - 1) * step,
        ;
        if n - 1 == ws.len() - 1 {
            assert(ws[n - 1] == ws.last());
        }
        let end = if n < ws.len() {
            a + size
        } else {
            text.len() as int
        };
        assert(ws[n - 1] == text.subrange(a, end));
        assert(text.take(a + overlap) + text.subrange(a, end).skip(overlap as int) =~= text.take(
            end,
        ));
    }
}

/// No text is lost: joining the chunks while dropping each later chunk's
/// first `overlap` characters gives back the text.
pub proof fn lemma_chunks_rebuild_text(text: Seq<char>, size: nat, overlap: nat)
    requires
        overlap < size,
    ensures
        stitch(chunks_of(text, size, overlap), overlap) == text,
{
    let ws = chunks_of(text, size, overlap);
    if text.len() == 0 {
        assert(text =~= Seq::<char>::empty());
    } else {
        lemma_windows_shape(text, size, (size - overlap) as nat, 0);
        lemma_stitch_prefix(text, size, overlap, ws.len() as int);
        assert(ws.take(ws.len() as int) =~= ws);
        assert(text.take(text.len() as int) =~= text);
    }
}

/// A text that fits in one window is one chunk, the text itself; an empty
/// text has no chunks.
pub proof fn lemma_short_text_one_chunk(text: Seq<char>, size: nat, overlap: nat)
    requires
        overlap < size,
        text.len() <= size,
    ensures
        text.len() == 0 ==> chunks_of(text, size, overlap).len() == 0,
        text.len() > 0 ==> chunks_of(text, size, overlap) == seq![text],
{
    if text.len() > 0 {
        assert(text.subrange(0, text.len() as int) =~= text);
    }
}

// ── Naming ───────────────────────────────────────────────────────────────────

/// The id of chunk `i` of the file named `file`: the name, `_`, and `i`
/// zero-padded to six digits.
pub open spec fn chunk_id(file: Seq<char>, i: nat) -> Seq<char> {
    file + "_"@ + zero_pad(decimal(i), 6)
}

/// The id under which chunk `i` of `file_name` is stored.
pub fn chunk_point_id(file_name: &str, i: u64) -> (id: String)
    ensures
        id@ == chunk_id(file_name@, i as nat),
{
    let mut id = String::from_str(file_name);
    push_str(&mut id, "_");
    push_decimal_padded(&mut id, i, 6);
    assert(id@ =~= chunk_id(file_name@, i as nat));
    id
}

/// Whether a file with extension `ext` is ingested: plain text or Markdown.
pub fn is_ingestible_extension(ext: &str) -> (b: bool)
    ensures
        b == (ext@ == "txt"@ || ext@ == "md"@),
{
    let s = String::from_str(ext);
    let txt = String::from_str("txt");
    let md = String::from_str("md");
    s == txt || s == md
}

/// The points stored for a document named `file_name` holding `text`: each
/// chunk with its id, in order.
pub fn document_chunks(file_name: &str, text: &str) -> (v: Vec<(String, String)>)
    ensures
        v@.len() == chunks_of(text@, CHUNK_CHARS as nat, OVERLAP_CHARS as nat).len(),
        forall|i: int|
            0 <= i < v@.len() ==> (#[trigger] v@[i]).0@ == chunk_id(file_name@, i as nat) && v@[i].1@
                == chunks_of(text@, CHUNK_CHARS as nat, OVERLAP_CHARS as nat)[i],
{
    let chunks = chunk_text(text, CHUNK_CHARS, OVERLAP_CHARS);
    let ghost cs = chunks_of(text@, CHUNK_CHARS as nat, OVERLAP_CHARS as nat);
    let mut v: Vec<(String, String)> = Vec::new();
    let mut i: usize = 0;
    while i < chunks.len()
        invariant
            i <= chunks@.len(),
            views(chunks@) == cs,
            v@.len() == i,
            forall|k: int|
                0 <= k < i ==> (#[trigger] v@[k]).0@ == chunk_id(file_name@, k as nat) && v@[k].1@
                    == cs[k],
        decreases chunks.len() - i,
    {
        let id = chunk_point_id(file_name, i as u64);
        let mut c = String::new();
        push_str(&mut c, chunks[i].as_str());
        assert(views(chunks@)[i as int] == chunks@[i as int]@);
        v.push((id, c));
        i = i + 1;
    }
    v
}

/// The chunks stored from a directory: the sum over its files of the chunks
/// each stored (files that failed, `None`, add nothing).
pub open spec fn ingested_sum(outcomes: Seq<Option<usize>>) -> nat
    decreases outcomes.len(),
{
    if outcomes.len() == 0 {
        0
    } else {
        ingested_sum(outcomes.drop_last()) + match outcomes.last() {
            Some(n) => n as nat,
            None => 0,
        }
    }
}

/// Add up the chunks stored from each file of a directory.
pub fn ingested_total(outcomes: &[Option<usize>]) -> (t: usize)
    requires
        ingested_sum(outcomes@) <= usize::MAX,
    ensures
        t == ingested_sum(outcomes@),
{
    let mut t: usize = 0;
    let mut i: usize = 0;
    while i < outcomes.len()
        invariant
            i <= outcomes@.len(),
            t == ingested_sum(outcomes@.take(i as int)),
            ingested_sum(outcomes@) <= usize::MAX,
        decreases outcomes.len() - i,
    {
        assert(outcomes@.take(i + 1).drop_last() =~= outcomes@.take(i as int));
        proof {
            lemma_ingested_sum_prefix(outcomes@, i as int + 1);
        }
        if let Some(n) = outcomes[i] {
            t = t + n;
        }
        i = i + 1;
    }
    assert(outcomes@.take(outcomes@.len() as int) =~= outcomes@);
    t
}

/// A prefix adds up to no more than the whole.
proof fn lemma_ingested_sum_prefix(s: Seq<Option<usize>>, k: int)
    requires
        0 <= k <= s.len(),
    ensures
        ingested_sum(s.take(k)) <= ingested_sum(s),
    decreases s.len(),
{
    if k < s.len() {
        assert(s.drop_last().take(k) =~= s.take(k));
        lemma_ingested_sum_prefix(s.drop_last(), k);
    } else {
        assert(s.take(k) =~= s);
    }
}

} // verus!
