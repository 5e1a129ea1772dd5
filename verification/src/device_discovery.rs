//! Peripheral detection for the edge node: the registry of known I2C audio
//! chips, parsing of the ALSA card list and of the Pi HAT EEPROM identity,
//! and the report assembled from a scan.
use vstd::prelude::*;
use vstd::utf8::{decode_utf8, valid_utf8};
use crate::skills::first_index;
use crate::text::{chars_of, leading_ws, parse_unsigned, parse_unsigned_chars, string_from_chars, trim, trim_range, whitespace};

verus! {

// ── Known I2C chip registry ───────────────────────────────────────────────────

/// Describes a known I2C audio peripheral chip.
#[derive(Debug, Clone, Copy, PartialEq, Eq)]
pub struct I2cChipInfo {
    /// 7-bit I2C address (the value on the wire, without the R/W bit).
    pub addr: u8,
    pub name: &'static str,
    pub description: &'static str,
}

/// The registry: address, chip name and description of each entry, in order.
pub open spec fn chip_registry() -> Seq<(u8, Seq<char>, Seq<char>)> {
    seq![
        (0x40u8, "ES7210"@, "Quad-mic array (EspressIF; ReSpeaker 4-mic Array HAT)"@),
        (0x41u8, "ES7210"@, "Quad-mic array (EspressIF, alt addr AD0=1)"@),
        (0x3Bu8, "AC108"@, "Quad-mic array (X-Powers; Seeed Studio 4-mic HAT, primary)"@),
        (0x38u8, "AC108"@, "Quad-mic array (X-Powers, alt addr AD[1:0]=00)"@),
        (0x1Au8, "WM8960"@, "Stereo codec, mic + speaker (Wolfson; WM8960 Audio HAT)"@),
        (0x18u8, "TLV320AIC3104"@, "Stereo codec (Texas Instruments, ADDR=0)"@),
        (0x19u8, "TLV320AIC3104"@, "Stereo codec (Texas Instruments, ADDR=1)"@),
        (0x0Au8, "SGTL5000"@, "Low-power stereo codec (NXP; Teensy Audio Board)"@),
        (0x1Cu8, "AK4954A"@, "Mono ADC/DAC (Asahi Kasei)"@),
    ]
}

/// Registry of known I2C audio chips found on Pi HATs and breakout boards.
/// Alternate addresses (set by pulling AD pins) are listed as separate entries.
pub fn known_i2c_chips() -> (v: Vec<I2cChipInfo>)
    ensures
        v@.map_values(|c: I2cChipInfo| (c.addr, c.name@, c.description@)) == chip_registry(),
{
    let mut v: Vec<I2cChipInfo> = Vec::new();
    v.push(I2cChipInfo {
        addr: 0x40,
        name: "ES7210",
        description: "Quad-mic array (EspressIF; ReSpeaker 4-mic Array HAT)",
    });
    v.push(I2cChipInfo {
        addr: 0x41,
        name: "ES7210",
        description: "Quad-mic array (EspressIF, alt addr AD0=1)",
    });
    v.push(I2cChipInfo {
        addr: 0x3B,
        name: "AC108",
        description: "Quad-mic array (X-Powers; Seeed Studio 4-mic HAT, primary)",
    });
    v.push(I2cChipInfo {
        addr: 0x38,
        name: "AC108",
        description: "Quad-mic array (X-Powers, alt addr AD[1:0]=00)",
    });
    v.push(I2cChipInfo {
        addr: 0x1A,
        name: "WM8960",
        description: "Stereo codec, mic + speaker (Wolfson; WM8960 Audio HAT)",
    });
    v.push(I2cChipInfo {
        addr: 0x18,
        name: "TLV320AIC3104",
        description: "Stereo codec (Texas Instruments, ADDR=0)",
    });
    v.push(I2cChipInfo {
        addr: 0x19,
        name: "TLV320AIC3104",
        description: "Stereo codec (Texas Instruments, ADDR=1)",
    });
    v.push(I2cChipInfo {
        addr: 0x0A,
        name: "SGTL5000",
        description: "Low-power stereo codec (NXP; Teensy Audio Board)",
    });
    v.push(I2cChipInfo { addr: 0x1C, name: "AK4954A", description: "Mono ADC/DAC (Asahi Kasei)" });
    assert(v@.map_values(|c: I2cChipInfo| (c.addr, c.name@, c.description@)) =~= chip_registry());
    v
}

/// Every registered address is a usable 7-bit address (outside the reserved
/// ranges 0x00–0x07 and 0x78–0x7F), and no address is listed twice.
pub proof fn lemma_registry_addresses_valid_and_distinct()
    ensures
        forall|i: int| 0 <= i < chip_registry().len() ==> 0x08 <= (#[trigger] chip_registry()[i]).0 <= 0x77,
        forall|i: int, j: int|
            0 <= i < j < chip_registry().len() ==> (#[trigger] chip_registry()[i]).0 != (
            #[trigger] chip_registry()[j]).0,
{
}

/// The first registry entry with address `addr`.
pub open spec fn first_with_addr(r: Seq<(u8, Seq<char>, Seq<char>)>, addr: u8) -> Option<int>
    decreases r.len(),
{
    if r.len() == 0 {
        None
    } else if r[0].0 == addr {
        Some(0)
    } else {
        match first_with_addr(r.drop_first(), addr) {
            Some(i) => Some(i + 1),
            None => None,
        }
    }
}

/// Look up a chip by its 7-bit I2C address. Returns the first match.
pub fn lookup_i2c_chip(addr: u8) -> (r: Option<I2cChipInfo>)
    ensures
        match first_with_addr(chip_registry(), addr) {
            Some(i) => r matches Some(c) && c.addr == addr && (c.addr, c.name@, c.description@)
                == chip_registry()[i],
            None => r is None,
        },
        addr < 0x08 || addr > 0x77 ==> r is None,
{
    proof {
        lemma_registry_addresses_valid_and_distinct();
    }
    let chips = known_i2c_chips();
    let ghost reg = chip_registry();
    let mut i: usize = 0;
    assert(reg.skip(0) =~= reg);
    while i < chips.len()
        invariant
            0 <= i <= chips@.len() == reg.len(),
            reg == chip_registry(),
            chips@.map_values(|c: I2cChipInfo| (c.addr, c.name@, c.description@)) == reg,
            first_with_addr(reg, addr) == match first_with_addr(reg.skip(i as int), addr) {
                Some(k) => Some(k + i),
                None => None,
            },
        decreases chips@.len() - i,
    {
        assert(reg.skip(i as int).drop_first() =~= reg.skip(i + 1));
        assert(reg[i as int] == (
            chips@[i as int].addr,
            chips@[i as int].name@,
            chips@[i as int].description@,
        ));
        if chips[i].addr == addr {
            return Some(chips[i]);
        }
        i = i + 1;
    }
    None
}

// ── ALSA cards ────────────────────────────────────────────────────────────────

/// A card entry from `/proc/asound/cards`.
#[derive(Debug, Clone, PartialEq, Eq)]
pub struct AlsaCard {
    pub index: u32,
    /// Short bracket identifier, e.g. `"Device"` or `"Headphones"`.
    pub id: String,
    /// Driver description after the dash, e.g. `"USB Audio Device"`.
    pub name: String,
}

/// `l` without one trailing carriage return.
pub open spec fn strip_cr(l: Seq<char>) -> Seq<char> {
    if l.len() > 0 && l.last() == '\r' {
        l.drop_last()
    } else {
        l
    }
}

/// The lines of `s` as `str::lines` gives them: split at `\n`, a `\r`
/// before the `\n` dropped, no empty line after a final `\n`.
pub open spec fn lines_of(s: Seq<char>) -> Seq<Seq<char>>
    decreases s.len(),
{
    if s.len() == 0 {
        seq![]
    } else {
        match first_index(s, '\n') {
            None => seq![s],
            Some(i) => {
                proof {
                    lemma_first_index_bound(s, '\n');
                }
                seq![strip_cr(s.take(i))] + lines_of(s.skip(i + 1))
            },
        }
    }
}

/// `first_index` finds the first occurrence of `c`, or reports there is none.
pub proof fn lemma_first_index_bound(s: Seq<char>, c: char)
    ensures
        first_index(s, c) matches Some(i) ==> 0 <= i < s.len() && s[i] == c && forall|k: int|
            0 <= k < i ==> s[k] != c,
        first_index(s, c) is None ==> forall|k: int| 0 <= k < s.len() ==> s[k] != c,
    decreases s.len(),
{
    if s.len() > 0 && s[0] != c {
        lemma_first_index_bound(s.drop_first(), c);
        assert forall|k: int| 1 <= k < s.len() implies s[k] == s.drop_first()[k - 1] by {}
    }
}

/// Index of the first occurrence of `p` in `s`.
pub open spec fn find_sub(s: Seq<char>, p: Seq<char>) -> Option<int>
    decreases s.len(),
{
    if s.len() < p.len() {
        None
    } else if s.take(p.len() as int) == p {
        Some(0)
    } else if s.len() == 0 {
        None
    } else {
        match find_sub(s.drop_first(), p) {
            Some(i) => Some(i + 1),
            None => None,
        }
    }
}

/// `s` up to the first occurrence of `p` (all of `s` if none).
pub open spec fn before_sub(s: Seq<char>, p: Seq<char>) -> Seq<char> {
    match find_sub(s, p) {
        Some(i) => s.take(i),
        None => s,
    }
}

/// The second field of `s` split at `p` (`s.split(p).nth(1)`).
pub open spec fn second_field(s: Seq<char>, p: Seq<char>) -> Option<Seq<char>> {
    match find_sub(s, p) {
        Some(i) => Some(before_sub(s.skip(i + p.len()), p)),
        None => None,
    }
}

/// `s` up to its first `[` or `]`.
pub open spec fn before_bracket(s: Seq<char>) -> Seq<char>
    decreases s.len(),
{
    if s.len() == 0 || s[0] == '[' || s[0] == ']' {
        seq![]
    } else {
        seq![s[0]] + before_bracket(s.drop_first())
    }
}

/// The card an ALSA card-list line describes, as index, id and name.
/// Lines without `[` and `]:`, or whose first word is not a number, describe none.
pub open spec fn card_of_line(line: Seq<char>) -> Option<(nat, Seq<char>, Seq<char>)> {
    if first_index(line, '[') is None || find_sub(line, "]:"@) is None {
        None
    } else {
        let t = line.skip(leading_ws(line) as int);
        let (first, rest) = match first_index(t, ' ') {
            Some(k) => (t.take(k), t.skip(k + 1)),
            None => (t, Seq::<char>::empty()),
        };
        match parse_unsigned(first, 0xFFFF_FFFF) {
            None => None,
            Some(index) => {
                let id = match first_index(rest, '[') {
                    Some(b) => trim(before_bracket(rest.skip(b + 1))),
                    None => Seq::<char>::empty(),
                };
                let name = match second_field(rest, "]: "@) {
                    Some(seg) => match second_field(seg, " - "@) {
                        Some(part) => trim(part),
                        None => Seq::<char>::empty(),
                    },
                    None => Seq::<char>::empty(),
                };
                Some((index, id, name))
            },
        }
    }
}

/// The cards described by a sequence of lines, in order.
pub open spec fn cards_of_lines(lines: Seq<Seq<char>>) -> Seq<(nat, Seq<char>, Seq<char>)>
    decreases lines.len(),
{
    if lines.len() == 0 {
        seq![]
    } else {
        match card_of_line(lines[0]) {
            Some(c) => seq![c] + cards_of_lines(lines.drop_first()),
            None => cards_of_lines(lines.drop_first()),
        }
    }
}

/// What a parsed card holds.
pub open spec fn card_view(c: AlsaCard) -> (nat, Seq<char>, Seq<char>) {
    (c.index as nat, c.id@, c.name@)
}

/// Whether `p` occurs in `s` at position `k`.
pub open spec fn occurs_at(s: Seq<char>, p: Seq<char>, k: int) -> bool {
    s.subrange(k, k + p.len()) == p
}

proof fn lemma_find_sub_at(s: Seq<char>, p: Seq<char>, i: int)
    requires
        0 <= i <= s.len() - p.len(),
        s.subrange(i, i + p.len()) == p,
        forall|k: int| 0 <= k < i ==> !#[trigger] occurs_at(s, p, k),
    ensures
        find_sub(s, p) == Some(i),
    decreases i,
{
    if i > 0 {
        assert(!occurs_at(s, p, 0));
        assert(s.take(p.len() as int) == s.subrange(0, p.len() as int));
        assert forall|k: int| 0 <= k < i - 1 implies !#[trigger] occurs_at(s.drop_first(), p, k) by {
            assert(s.drop_first().subrange(k, k + p.len()) =~= s.subrange(k + 1, k + 1 + p.len()));
            assert(!occurs_at(s, p, k + 1));
        }
        assert(s.drop_first().subrange(i - 1, i - 1 + p.len()) =~= s.subrange(i, i + p.len()));
        lemma_find_sub_at(s.drop_first(), p, i - 1);
    } else {
        assert(s.take(p.len() as int) =~= s.subrange(0, p.len() as int));
    }
}

proof fn lemma_find_sub_none(s: Seq<char>, p: Seq<char>)
    requires
        p.len() > 0,
        forall|k: int| 0 <= k <= s.len() - p.len() ==> !#[trigger] occurs_at(s, p, k),
    ensures
        find_sub(s, p) is None,
    decreases s.len(),
{
    if s.len() >= p.len() {
        assert(s.take(p.len() as int) =~= s.subrange(0, p.len() as int));
        assert(!occurs_at(s, p, 0));
        assert forall|k: int| 0 <= k <= s.drop_first().len() - p.len() implies !#[trigger] occurs_at(
            s.drop_first(),
            p,
            k,
        ) by {
            assert(s.drop_first().subrange(k, k + p.len()) =~= s.subrange(k + 1, k + 1 + p.len()));
            assert(!occurs_at(s, p, k + 1));
        }
        lemma_find_sub_none(s.drop_first(), p);
    }
}

/// Whether `p` occurs in `cs` at position `i`.
fn matches_at(cs: &[char], i: usize, p: &[char]) -> (b: bool)
    requires
        i + p@.len() <= cs@.len(),
    ensures
        b == (cs@.subrange(i as int, i + p@.len()) == p@),
{
    let cl = cs.len();
    let mut k: usize = 0;
    while k < p.len()
        invariant
            0 <= k <= p@.len(),
            cl == cs@.len(),
            i + p@.len() <= cs@.len(),
            forall|m: int| 0 <= m < k ==> cs@[i + m] == p@[m],
        decreases p@.len() - k,
    {
        if cs[i + k] != p[k] {
            assert(cs@.subrange(i as int, i + p@.len())[k as int] != p@[k as int]);
            return false;
        }
        k = k + 1;
    }
    assert(cs@.subrange(i as int, i + p@.len()) =~= p@);
    true
}

/// Index of the first occurrence of `p` in `cs` (`p` non-empty).
pub(crate) fn find_sub_exec(cs: &[char], p: &[char]) -> (r: Option<usize>)
    requires
        p@.len() > 0,
    ensures
        r matches Some(i) ==> find_sub(cs@, p@) == Some(i as int) && i + p@.len() <= cs@.len(),
        r is None ==> find_sub(cs@, p@) is None,
{
    if cs.len() < p.len() {
        proof {
            lemma_find_sub_none(cs@, p@);
        }
        return None;
    }
    let last = cs.len() - p.len();
    let mut i: usize = 0;
    while i <= last
        invariant
            0 <= i <= last + 1,
            last < usize::MAX,
            last == cs@.len() - p@.len(),
            forall|k: int| 0 <= k < i ==> !#[trigger] occurs_at(cs@, p@, k),
        decreases last + 1 - i,
    {
        if matches_at(cs, i, p) {
            proof {
                lemma_find_sub_at(cs@, p@, i as int);
            }
            return Some(i);
        }
        i = i + 1;
    }
    proof {
        lemma_find_sub_none(cs@, p@);
    }
    None
}

/// Index of the first `c` in `cs`.
pub(crate) fn first_index_exec(cs: &[char], c: char) -> (r: Option<usize>)
    ensures
        r matches Some(i) ==> first_index(cs@, c) == Some(i as int) && i < cs@.len(),
        r is None ==> first_index(cs@, c) is None,
{
    let mut i: usize = 0;
    assert(cs@.skip(0) =~= cs@);
    while i < cs.len()
        invariant
            0 <= i <= cs@.len(),
            first_index(cs@, c) == match first_index(cs@.skip(i as int), c) {
                Some(k) => Some(k + i),
                None => None,
            },
        decreases cs@.len() - i,
    {
        assert(cs@.skip(i as int).drop_first() =~= cs@.skip(i + 1));
        if cs[i] == c {
            return Some(i);
        }
        i = i + 1;
    }
    None
}

proof fn lemma_skip_zero<T>(s: Seq<T>)
    ensures
        s.skip(0) == s,
{
    assert(s.skip(0) =~= s);
}

/// `cs` up to the first occurrence of `p` (all of it if none).
fn before_sub_exec(cs: &[char], p: &[char]) -> (r: usize)
    requires
        p@.len() > 0,
    ensures
        r <= cs@.len(),
        cs@.take(r as int) == before_sub(cs@, p@),
{
    match find_sub_exec(cs, p) {
        Some(i) => i,
        None => {
            assert(cs@.take(cs@.len() as int) =~= cs@);
            cs.len()
        },
    }
}

/// The characters of `second_field(cs, p)` as a sub-slice range.
fn second_field_exec(cs: &[char], p: &[char]) -> (r: Option<(usize, usize)>)
    requires
        p@.len() > 0,
    ensures
        match r {
            Some((a, b)) => a <= b <= cs@.len() && second_field(cs@, p@) == Some(
                cs@.subrange(a as int, b as int),
            ),
            None => second_field(cs@, p@) is None,
        },
{
    let cl = cs.len();
    match find_sub_exec(cs, p) {
        Some(i) => {
            let a = i + p.len();
            let tail = &cs[a..cs.len()];
            assert(tail@ =~= cs@.skip(a as int));
            let n = before_sub_exec(tail, p);
            assert(cs@.subrange(a as int, (a + n) as int) =~= tail@.take(n as int));
            Some((a, a + n))
        },
        None => None,
    }
}

fn before_bracket_exec(cs: &[char]) -> (r: usize)
    ensures
        r <= cs@.len(),
        cs@.take(r as int) == before_bracket(cs@),
{
    let mut i: usize = 0;
    assert(cs@.skip(0) =~= cs@);
    assert(cs@.take(0) + before_bracket(cs@) =~= before_bracket(cs@));
    while i < cs.len() && cs[i] != '[' && cs[i] != ']'
        invariant
            0 <= i <= cs@.len(),
            before_bracket(cs@) == cs@.take(i as int) + before_bracket(cs@.skip(i as int)),
        decreases cs@.len() - i,
    {
        let ghost t = cs@.skip(i as int);
        assert(t.drop_first() =~= cs@.skip(i + 1));
        assert(cs@.take(i + 1) =~= cs@.take(i as int) + seq![cs@[i as int]]);
        i = i + 1;
    }
    proof {
        lemma_skip_zero(cs@);
        let t = cs@.skip(i as int);
        assert(before_bracket(t) =~= Seq::<char>::empty());
        assert(cs@.take(i as int) + Seq::<char>::empty() =~= cs@.take(i as int));
    }
    i
}

/// Parse one line of the card list.
fn parse_card_line(line: &[char]) -> (r: Option<AlsaCard>)
    ensures
        match card_of_line(line@) {
            Some(c) => r matches Some(card) && card_view(card) == c,
            None => r is None,
        },
{
    let bracket = ['['];
    let close = [']', ':'];
    if first_index_exec(line, '[').is_none() || find_sub_exec(line, &close).is_none() {
        assert(close@ =~= "]:"@) by {
            reveal_strlit("]:");
        }
        return None;
    }
    assert(close@ =~= "]:"@) by {
        reveal_strlit("]:");
    }
    let (lead, _) = trim_range(line);
    let t = &line[lead..line.len()];
    assert(t@ =~= line@.skip(leading_ws(line@) as int));
    let (first_end, rest_start) = match first_index_exec(t, ' ') {
        Some(k) => (k, k + 1),
        None => (t.len(), t.len()),
    };
    let index = match parse_unsigned_chars(t, 0, first_end, 0xFFFF_FFFF) {
        Some(v) => v as u32,
        None => {
            assert(t@.subrange(0, first_end as int) =~= t@.take(first_end as int));
            if first_end == t.len() {
                assert(t@.take(first_end as int) =~= t@);
            }
            return None;
        },
    };
    assert(t@.subrange(0, first_end as int) =~= t@.take(first_end as int));
    if first_end == t.len() {
        assert(t@.take(first_end as int) =~= t@);
    }
    let rest = &t[rest_start..t.len()];
    let ghost rest_spec = match first_index(t@, ' ') {
        Some(k) => t@.skip(k + 1),
        None => Seq::<char>::empty(),
    };
    assert(rest@ =~= rest_spec);
    let id = match first_index_exec(rest, '[') {
        Some(b) => {
            let after = &rest[b + 1..rest.len()];
            assert(after@ =~= rest@.skip(b + 1));
            let e = before_bracket_exec(after);
            let seg = &after[0..e];
            assert(seg@ =~= after@.take(e as int));
            let (s0, s1) = trim_range(seg);
            string_from_chars(seg, s0, s1)
        },
        None => String::new(),
    };
    let sep1 = [']', ':', ' '];
    let sep2 = [' ', '-', ' '];
    assert(sep1@ =~= "]: "@) by {
        reveal_strlit("]: ");
    }
    assert(sep2@ =~= " - "@) by {
        reveal_strlit(" - ");
    }
    let name = match second_field_exec(rest, &sep1) {
        Some((a, b)) => {
            let seg = &rest[a..b];
            assert(seg@ =~= rest@.subrange(a as int, b as int));
            match second_field_exec(seg, &sep2) {
                Some((c, d)) => {
                    let part = &seg[c..d];
                    assert(part@ =~= seg@.subrange(c as int, d as int));
                    let (p0, p1) = trim_range(part);
                    string_from_chars(part, p0, p1)
                },
                None => String::new(),
            }
        },
        None => String::new(),
    };
    Some(AlsaCard { index, id, name })
}

/// Parse the text content of `/proc/asound/cards`.
///
/// Each card occupies two lines; only the first, e.g.
/// ` 0 [Device          ]: USB-Audio - USB Audio Device`, describes it.
pub fn parse_alsa_cards(content: &str) -> (cards: Vec<AlsaCard>)
    ensures
        cards@.map_values(|c: AlsaCard| card_view(c)) == cards_of_lines(lines_of(content@)),
{
    let cs = chars_of(content);
    let n = cs.len();
    let mut cards: Vec<AlsaCard> = Vec::new();
    let mut start: usize = 0;
    assert(cs@.skip(0) =~= cs@);
    while start < n
        invariant
            0 <= start <= n == cs@.len(),
            cs@ == content@,
            cards_of_lines(lines_of(content@)) == cards@.map_values(|c: AlsaCard| card_view(c))
                + cards_of_lines(lines_of(cs@.skip(start as int))),
        decreases n - start,
    {
        let rest = &cs.as_slice()[start..n];
        let ghost rs = cs@.skip(start as int);
        assert(rest@ =~= rs);
        let (line_end, next, terminated) = match first_index_exec(rest, '\n') {
            Some(i) => (start + i, start + i + 1, true),
            None => (n, n, false),
        };
        let mut le = line_end;
        if terminated && le > start && cs[le - 1] == '\r' {
            le = le - 1;
        }
        proof {
            lemma_first_index_bound(rs, '\n');
        }
        let line = &cs.as_slice()[start..le];
        let ghost line_spec = match first_index(rs, '\n') {
            Some(i) => strip_cr(rs.take(i)),
            None => rs,
        };
        assert(line@ =~= line_spec);
        proof {
            assert(lines_of(rs) == seq![line_spec] + lines_of(cs@.skip(next as int))) by {
                match first_index(rs, '\n') {
                    Some(i) => {
                        assert(rs.skip(i + 1) =~= cs@.skip(next as int));
                    },
                    None => {
                        assert(cs@.skip(next as int) =~= Seq::<char>::empty());
                    },
                }
            }
            let ls = seq![line_spec] + lines_of(cs@.skip(next as int));
            assert(ls[0] == line_spec);
            assert(ls.drop_first() =~= lines_of(cs@.skip(next as int)));
        }
        let ghost before = cards@.map_values(|c: AlsaCard| card_view(c));
        match parse_card_line(line) {
            Some(card) => {
                cards.push(card);
                assert(cards@.map_values(|c: AlsaCard| card_view(c)) =~= before.push(card_view(card)));
            },
            None => {},
        }
        start = next;
    }
    assert(cs@.skip(n as int) =~= Seq::<char>::empty());
    assert(cards@.map_values(|c: AlsaCard| card_view(c)) + Seq::<(nat, Seq<char>, Seq<char>)>::empty()
        =~= cards@.map_values(|c: AlsaCard| card_view(c)));
    cards
}

// ── Pi HAT identity ───────────────────────────────────────────────────────────

/// Pi HAT EEPROM identity read from `/proc/device-tree/hat/`.
#[derive(Debug, Clone, PartialEq, Eq)]
pub struct HatInfo {
    pub vendor: String,
    pub product: String,
}

/// Calls `std::str::from_utf8`: the text the bytes encode, if they are valid UTF-8.
#[verifier::external_body]
fn utf8_text(b: &[u8]) -> (r: Option<String>)
    ensures
        r is Some <==> valid_utf8(b@),
        r matches Some(s) ==> s@ == decode_utf8(b@),
{
    std::str::from_utf8(b).ok().map(|s| s.to_string())
}

/// The kernel's string in `b`: one trailing NUL dropped, decoded, trimmed.
pub open spec fn nul_string(b: Seq<u8>) -> Option<Seq<char>> {
    let t = if b.len() > 0 && b.last() == 0 {
        b.drop_last()
    } else {
        b
    };
    if valid_utf8(t) {
        Some(trim(decode_utf8(t)))
    } else {
        None
    }
}

/// Decode a NUL-terminated string read from the device tree.
fn null_terminated_str(b: &[u8]) -> (r: Option<String>)
    ensures
        match nul_string(b@) {
            Some(s) => r matches Some(t) && t@ == s,
            None => r is None,
        },
{
    let n = b.len();
    let end = if n > 0 && b[n - 1] == 0 {
        n - 1
    } else {
        n
    };
    let t = &b[0..end];
    assert(t@ =~= (if b@.len() > 0 && b@.last() == 0 {
        b@.drop_last()
    } else {
        b@
    }));
    match utf8_text(t) {
        Some(s) => {
            let cs = chars_of(s.as_str());
            let (a, z) = trim_range(cs.as_slice());
            Some(string_from_chars(cs.as_slice(), a, z))
        },
        None => None,
    }
}

/// Parse the raw bytes of `/proc/device-tree/hat/vendor` and `/product`.
pub fn parse_hat_info(vendor_bytes: &[u8], product_bytes: &[u8]) -> (r: Option<HatInfo>)
    ensures
        match (nul_string(vendor_bytes@), nul_string(product_bytes@)) {
            (Some(v), Some(p)) => if v.len() > 0 && p.len() > 0 {
                r matches Some(h) && h.vendor@ == v && h.product@ == p
            } else {
                r is None
            },
            _ => r is None,
        },
{
    let vendor = match null_terminated_str(vendor_bytes) {
        Some(v) => v,
        None => {
            return None;
        },
    };
    let product = match null_terminated_str(product_bytes) {
        Some(p) => p,
        None => {
            return None;
        },
    };
    if vendor.as_str().unicode_len() == 0 || product.as_str().unicode_len() == 0 {
        return None;
    }
    Some(HatInfo { vendor, product })
}

// ── Discovery report ──────────────────────────────────────────────────────────

/// Device overrides stored in the node's configuration.
#[derive(Debug, Default, Clone)]
pub struct DeviceConfig {
    /// Force a specific ALSA input device, e.g. `"hw:2,0"`.
    pub audio_input: Option<String>,
    /// Force a specific ALSA output device.
    pub audio_output: Option<String>,
}

/// Everything found during a peripheral scan.
#[derive(Debug)]
pub struct DiscoveredDevices {
    pub alsa_cards: Vec<AlsaCard>,
    pub hat: Option<HatInfo>,
    /// I2C audio chips identified on the system buses, with their bus number.
    pub i2c_chips: Vec<(u8, I2cChipInfo)>,
    /// Non-fatal warnings from the scan (e.g. no mic found, no override set).
    pub warnings: Vec<String>,
}

/// The warning given when no card is found and no input is configured.
pub open spec fn no_cards_warning() -> Seq<char> {
    "no ALSA cards found and no audio_input override configured — check that a microphone is attached and the correct devicetree overlay is loaded"@
}

/// Assemble the scan report from the cards and HAT identity that were read.
/// With no card and no configured input, the report carries a warning.
pub fn discover(config: &DeviceConfig, alsa_cards: Vec<AlsaCard>, hat: Option<HatInfo>) -> (d: DiscoveredDevices)
    ensures
        d.alsa_cards@ == alsa_cards@,
        d.hat == hat,
        d.i2c_chips@.len() == 0,
        (alsa_cards@.len() == 0 && config.audio_input is None) ==> d.warnings@.len() == 1
            && d.warnings@[0]@ == no_cards_warning(),
        !(alsa_cards@.len() == 0 && config.audio_input is None) ==> d.warnings@.len() == 0,
{
    let mut warnings: Vec<String> = Vec::new();
    if alsa_cards.len() == 0 && config.audio_input.is_none() {
        warnings.push(
            String::from_str(
                "no ALSA cards found and no audio_input override configured — check that a microphone is attached and the correct devicetree overlay is loaded",
            ),
        );
    }
    DiscoveredDevices { alsa_cards, hat, i2c_chips: Vec::new(), warnings }
}

} // verus!
