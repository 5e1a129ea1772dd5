//! Server-sent events as an auxiliary node reads them from its primary:
//! complete events (ended by a blank line) are taken from the front of the
//! receive buffer and the payloads of their `data: ` lines handed on; an
//! incomplete event stays in the buffer until more text arrives.
use vstd::prelude::*;
use crate::device_discovery::{find_sub, find_sub_exec, first_index_exec, lines_of, strip_cr, lemma_first_index_bound};
use crate::skills::first_index;
use crate::text::{chars_of, string_from_chars};
use crate::trie::views;

verus! {

/// The end of an event: a blank line.
pub open spec fn event_separator() -> Seq<char> {
    seq!['\n', '\n']
}

/// The field prefix of a data line.
pub open spec fn data_prefix() -> Seq<char> {
    seq!['d', 'a', 't', 'a', ':', ' ']
}

/// The payload of a line when it is a data line.
pub open spec fn data_of(line: Seq<char>) -> Option<Seq<char>> {
    if line.len() >= 6 && line.take(6) == data_prefix() {
        Some(line.skip(6))
    } else {
        None
    }
}

/// The payloads of the data lines among `lines`, in order.
pub open spec fn payloads(lines: Seq<Seq<char>>) -> Seq<Seq<char>>
    decreases lines.len(),
{
    if lines.len() == 0 {
        Seq::empty()
    } else {
        let rest = payloads(lines.drop_last());
        match data_of(lines.last()) {
            Some(d) => rest.push(d),
            None => rest,
        }
    }
}

/// An occurrence of `p` that `find_sub` finds lies inside `s`.
pub proof fn lemma_find_sub_bound(s: Seq<char>, p: Seq<char>)
    ensures
        find_sub(s, p) matches Some(i) ==> 0 <= i && i + p.len() <= s.len(),
    decreases s.len(),
{
    if s.len() >= p.len() && s.take(p.len() as int) != p && s.len() > 0 {
        lemma_find_sub_bound(s.drop_first(), p);
    }
}

/// The payloads of the complete events at the front of `buf`, and what is
/// left of it after them.
pub open spec fn sse_events(buf: Seq<char>) -> (Seq<Seq<char>>, Seq<char>)
    decreases buf.len(),
{
    match find_sub(buf, event_separator()) {
        None => (Seq::empty(), buf),
        Some(p) => {
            proof {
                lemma_find_sub_bound(buf, event_separator());
            }
            let after = sse_events(buf.skip(p + 2));
            (payloads(lines_of(buf.take(p))) + after.0, after.1)
        },
    }
}

/// Append the payloads of the data lines of `block` to `out`.
fn push_block_payloads(block: &[char], out: &mut Vec<String>)
    ensures
        views(final(out)@) == views(old(out)@) + payloads(lines_of(block@)),
{
    let n = block.len();
    let mut start: usize = 0;
    let ghost lines = lines_of(block@);
    let ghost base = views(old(out)@);
    let ghost mut done: Seq<Seq<char>> = Seq::empty();
    assert(block@.skip(0) =~= block@);
    assert(done + lines_of(block@.skip(0)) =~= lines);
    let prefix = ['d', 'a', 't', 'a', ':', ' '];
    assert(prefix@ =~= data_prefix());
    while start < n
        invariant
            0 <= start <= n == block@.len(),
            prefix@ == data_prefix(),
            lines == lines_of(block@),
            done + lines_of(block@.skip(start as int)) == lines,
            views(out@) == base + payloads(done),
        decreases n - start,
    {
        let rest = &block[start..n];
        let ghost rs = block@.skip(start as int);
        assert(rest@ =~= rs);
        let (line_end, next, terminated) = match first_index_exec(rest, '\n') {
            Some(i) => (start + i, start + i + 1, true),
            None => (n, n, false),
        };
        let mut le = line_end;
        if terminated && le > start && block[le - 1] == '\r' {
            le = le - 1;
        }
        proof {
            lemma_first_index_bound(rs, '\n');
        }
        let ghost line_spec = match first_index(rs, '\n') {
            Some(i) => strip_cr(rs.take(i)),
            None => rs,
        };
        let line = &block[start..le];
        assert(line@ =~= line_spec);
        proof {
            assert(lines_of(rs) == seq![line_spec] + lines_of(block@.skip(next as int))) by {
                match first_index(rs, '\n') {
                    Some(i) => {
                        assert(rs.skip(i + 1) =~= block@.skip(next as int));
                    },
                    None => {
                        assert(block@.skip(next as int) =~= Seq::<char>::empty());
                    },
                }
            }
            assert(done.push(line_spec) + lines_of(block@.skip(next as int)) =~= done + (seq![
                line_spec,
            ] + lines_of(block@.skip(next as int))));
            assert(done.push(line_spec).drop_last() =~= done);
        }
        let ghost before = views(out@);
        if line.len() >= 6 && line[0] == 'd' && line[1] == 'a' && line[2] == 't' && line[3] == 'a'
            && line[4] == ':' && line[5] == ' ' {
            assert(line@.take(6) =~= data_prefix());
            let payload = string_from_chars(line, 6, line.len());
            out.push(payload);
            assert(views(out@) =~= before.push(line@.skip(6)));
        } else {
            assert(line@.len() >= 6 ==> line@.take(6) != data_prefix()) by {
                if line@.len() >= 6 && line@.take(6) == data_prefix() {
                    assert(line@.take(6)[0] == 'd');
                    assert(line@.take(6)[1] == 'a');
                    assert(line@.take(6)[2] == 't');
                    assert(line@.take(6)[3] == 'a');
                    assert(line@.take(6)[4] == ':');
                    assert(line@.take(6)[5] == ' ');
                }
            }
        }
        proof {
            done = done.push(line_spec);
        }
        start = next;
    }
    assert(block@.skip(n as int) =~= Seq::<char>::empty());
    assert(done =~= lines);
}

/// Take the complete events from the front of the receive buffer `buf`: the
/// payloads of their data lines, in order, and what remains of the buffer.
pub fn take_sse_payloads(buf: &str) -> (r: (Vec<String>, String))
    ensures
        (views(r.0@), r.1@) == sse_events(buf@),
{
    let cs = chars_of(buf);
    let n = cs.len();
    let sep = ['\n', '\n'];
    assert(sep@ =~= event_separator());
    let mut out: Vec<String> = Vec::new();
    let mut pos: usize = 0;
    assert(cs@.skip(0) =~= cs@);
    loop
        invariant
            0 <= pos <= n == cs@.len(),
            cs@ == buf@,
            sep@ == event_separator(),
            sse_events(buf@) == (views(out@) + sse_events(cs@.skip(pos as int)).0, sse_events(
                cs@.skip(pos as int),
            ).1),
        decreases n - pos,
    {
        let rest = &cs.as_slice()[pos..n];
        let ghost rs = cs@.skip(pos as int);
        assert(rest@ =~= rs);
        match find_sub_exec(rest, sep.as_slice()) {
            None => {
                let remainder = string_from_chars(cs.as_slice(), pos, n);
                assert(remainder@ =~= rs);
                assert(views(out@) + Seq::<Seq<char>>::empty() =~= views(out@));
                return (out, remainder);
            },
            Some(p) => {
                let block = &rest[0..p];
                assert(block@ =~= rs.take(p as int));
                let ghost before = views(out@);
                push_block_payloads(block, &mut out);
                assert(rs.skip(p + 2) =~= cs@.skip(pos + p + 2));
                assert(views(out@) + sse_events(cs@.skip(pos + p + 2)).0 =~= before + (payloads(
                    lines_of(rs.take(p as int)),
                ) + sse_events(rs.skip(p + 2)).0));
                pos = pos + p + 2;
            },
        }
    }
}

} // verus!
