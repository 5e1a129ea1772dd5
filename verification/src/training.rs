//! Wake-word training support: trimming silence from recorded samples,
//! reading durations from WAV headers and choosing which samples to use.
use vstd::prelude::*;
use crate::text::chars_of;

verus! {

// ── Silence trimming ──────────────────────────────────────────────────────────

/// The sum of the squares of `s[a..b]`.
pub open spec fn sum_sq(s: Seq<i16>, a: int, b: int) -> int
    decreases b - a,
{
    if b <= a {
        0
    } else {
        sum_sq(s, a, b - 1) + (s[b - 1] as int) * (s[b - 1] as int)
    }
}

/// Analysis window: 20 ms of samples.
pub open spec fn window_len(sr: nat) -> nat {
    (sr * 20) / 1000
}

/// Context kept on each side of the speech: 60 ms of samples.
pub open spec fn pad_len(sr: nat) -> nat {
    (sr * 60) / 1000
}

/// Distance between analysed windows: half a window, at least one sample.
pub open spec fn hop_len(sr: nat) -> nat {
    if window_len(sr) / 2 == 0 {
        1
    } else {
        window_len(sr) / 2
    }
}

/// A window starting at `i` is voiced when its RMS level exceeds 400
/// (about -38 dBFS): its mean square exceeds 160 000.
pub open spec fn loud(s: Seq<i16>, i: int, w: nat) -> bool {
    sum_sq(s, i, i + w) > 160000 * w
}

/// The first voiced window start among `i, i + h, i + 2h, …` below `s.len() - w`.
pub open spec fn first_voiced(s: Seq<i16>, w: nat, h: nat, i: int) -> Option<int>
    decreases s.len() + h - i,
{
    if h == 0 || i < 0 || i >= s.len() - w {
        None
    } else if loud(s, i, w) {
        Some(i)
    } else {
        first_voiced(s, w, h, i + h)
    }
}

/// The last voiced window start among `i, i + h, i + 2h, …` below `s.len() - w`.
pub open spec fn last_voiced(s: Seq<i16>, w: nat, h: nat, i: int) -> Option<int>
    decreases s.len() + h - i,
{
    if h == 0 || i < 0 || i >= s.len() - w {
        None
    } else {
        match last_voiced(s, w, h, i + h) {
            Some(j) => Some(j),
            None => if loud(s, i, w) {
                Some(i)
            } else {
                None
            },
        }
    }
}

/// The sample range `[start, end)` holding speech: from the first voiced
/// window (less padding) to the end of the last (plus padding); the whole
/// buffer when it is shorter than a window or entirely silent.
pub open spec fn speech_range(s: Seq<i16>, sr: nat) -> (int, int) {
    let w = window_len(sr);
    let h = hop_len(sr);
    let p = pad_len(sr);
    if s.len() < w {
        (0, s.len() as int)
    } else {
        match (first_voiced(s, w, h, 0), last_voiced(s, w, h, 0)) {
            (Some(f), Some(l)) => (
                if f >= p {
                    f - p
                } else {
                    0
                },
                if l + w + p <= s.len() {
                    l + w + p
                } else {
                    s.len() as int
                },
            ),
            _ => (0, s.len() as int),
        }
    }
}

proof fn lemma_sum_sq_bound(s: Seq<i16>, a: int, b: int)
    requires
        a <= b,
    ensures
        0 <= sum_sq(s, a, b) <= (b - a) * 0x4000_0000,
    decreases b - a,
{
    if b > a {
        lemma_sum_sq_bound(s, a, b - 1);
        let x = s[b - 1] as int;
        assert(0 <= x * x <= 0x4000_0000) by (nonlinear_arith)
            requires
                -32768 <= x <= 32767,
        ;
    }
}

/// The energy of the window of `w` samples starting at `i`.
fn window_energy(samples: &[i16], i: usize, w: usize) -> (e: u64)
    requires
        i + w <= samples@.len(),
        w < 0x1000_0000,
    ensures
        e as int == sum_sq(samples@, i as int, i + w),
{
    let n = samples.len();
    assert(i + w <= n);
    let end = i + w;
    let mut k: usize = i;
    let mut acc: u64 = 0;
    while k < end
        invariant
            end == i + w,
            i <= k <= i + w <= samples@.len(),
            w < 0x1000_0000,
            acc as int == sum_sq(samples@, i as int, k as int),
        decreases end - k,
    {
        proof {
            lemma_sum_sq_bound(samples@, i as int, k as int);
            let x = samples@[k as int] as int;
            assert(0 <= x * x <= 0x4000_0000) by (nonlinear_arith)
                requires
                    -32768 <= x <= 32767,
            ;
            assert((k - i) * 0x4000_0000 <= 0x1000_0000 * 0x4000_0000) by (nonlinear_arith)
                requires
                    k - i <= 0x1000_0000,
            ;
        }
        let x = samples[k] as i64;
        acc = acc + (x * x) as u64;
        k = k + 1;
    }
    acc
}

/// Find the (start, end) sample indices that contain speech, skipping
/// leading and trailing silence.
pub fn trim_silence(samples: &[i16], sample_rate: u32) -> (r: (usize, usize))
    ensures
        (r.0 as int, r.1 as int) == speech_range(samples@, sample_rate as nat),
{
    let sr = sample_rate as u64;
    let w64 = (sr * 20) / 1000;
    let p64 = (sr * 60) / 1000;
    let w = w64 as usize;
    let hop = if w / 2 == 0 {
        1
    } else {
        w / 2
    };
    let pad = p64 as usize;
    let n = samples.len();
    let ghost s = samples@;
    if n < w {
        return (0, n);
    }
    let limit = n - w;
    let mut first: Option<usize> = None;
    let mut last: Option<usize> = None;
    let mut i: usize = 0;
    while i < limit
        invariant
            0 <= i,
            limit == n - w,
            n == s.len(),
            s == samples@,
            w == window_len(sample_rate as nat),
            hop == hop_len(sample_rate as nat),
            hop >= 1,
            w < 0x1000_0000,
            first_voiced(s, w as nat, hop as nat, 0) == match first {
                Some(f) => Some(f as int),
                None => first_voiced(s, w as nat, hop as nat, i as int),
            },
            last_voiced(s, w as nat, hop as nat, 0) == match last_voiced(s, w as nat, hop as nat, i as int) {
                Some(j) => Some(j),
                None => match last {
                    Some(l) => Some(l as int),
                    None => None,
                },
            },
            last matches Some(l) ==> l < limit,
            first matches Some(f) ==> f < limit,
        decreases limit - i,
    {
        let e = window_energy(samples, i, w);
        let is_loud = e > 160000 * (w as u64);
        let ghost wn = w as nat;
        let ghost hn = hop as nat;
        let ghost old_i = i as int;
        assert(is_loud == loud(s, old_i, wn));
        assert(first_voiced(s, wn, hn, old_i) == if loud(s, old_i, wn) {
            Some(old_i)
        } else {
            first_voiced(s, wn, hn, old_i + hn)
        });
        assert(last_voiced(s, wn, hn, old_i) == match last_voiced(s, wn, hn, old_i + hn) {
            Some(j) => Some(j),
            None => if loud(s, old_i, wn) {
                Some(old_i)
            } else {
                None
            },
        });
        if is_loud {
            if first.is_none() {
                first = Some(i);
            }
            last = Some(i);
        }
        if limit - i <= hop {
            i = limit;
            assert(first_voiced(s, wn, hn, old_i + hn) is None);
            assert(last_voiced(s, wn, hn, old_i + hn) is None);
            assert(first_voiced(s, wn, hn, i as int) is None);
            assert(last_voiced(s, wn, hn, i as int) is None);
        } else {
            i = i + hop;
        }
    }
    match (first, last) {
        (Some(f), Some(l)) => {
            let start = if f >= pad {
                f - pad
            } else {
                0
            };
            let end = if l + w <= n && pad <= n - (l + w) {
                l + w + pad
            } else {
                n
            };
            (start, end)
        },
        _ => (0, n),
    }
}

/// The trimmed range is a range of the buffer.
pub proof fn lemma_speech_range_bounds(s: Seq<i16>, sr: nat)
    ensures
        0 <= speech_range(s, sr).0 <= speech_range(s, sr).1 <= s.len(),
{
    let w = window_len(sr);
    let h = hop_len(sr);
    if s.len() >= w {
        lemma_first_le_last(s, w, h, 0);
    }
}

proof fn lemma_first_le_last(s: Seq<i16>, w: nat, h: nat, i: int)
    ensures
        first_voiced(s, w, h, i) is Some <==> last_voiced(s, w, h, i) is Some,
        first_voiced(s, w, h, i) matches Some(f) ==> i <= f && f < s.len() - w && loud(s, f, w),
        last_voiced(s, w, h, i) matches Some(l) ==> i <= l && l < s.len() - w && loud(s, l, w),
        (first_voiced(s, w, h, i) is Some && last_voiced(s, w, h, i) is Some) ==> first_voiced(
            s,
            w,
            h,
            i,
        )->0 <= last_voiced(s, w, h, i)->0,
    decreases s.len() + h - i,
{
    if h == 0 || i < 0 || i >= s.len() - w {
    } else {
        lemma_first_le_last(s, w, h, i + h);
    }
}

/// An entirely silent buffer is kept whole.
pub proof fn lemma_silence_kept_whole(s: Seq<i16>, sr: nat)
    requires
        forall|k: int| 0 <= k < s.len() ==> s[k] == 0,
    ensures
        speech_range(s, sr) == (0int, s.len() as int),
{
    let w = window_len(sr);
    let h = hop_len(sr);
    if s.len() >= w {
        lemma_no_loud_in_silence(s, w, h, 0);
    }
}

proof fn lemma_sum_sq_zero(s: Seq<i16>, a: int, b: int)
    requires
        forall|k: int| 0 <= k < s.len() ==> s[k] == 0,
        0 <= a,
        b <= s.len(),
    ensures
        sum_sq(s, a, b) == 0,
    decreases b - a,
{
    if b > a {
        lemma_sum_sq_zero(s, a, b - 1);
    }
}

proof fn lemma_no_loud_in_silence(s: Seq<i16>, w: nat, h: nat, i: int)
    requires
        forall|k: int| 0 <= k < s.len() ==> s[k] == 0,
    ensures
        first_voiced(s, w, h, i) is None,
        last_voiced(s, w, h, i) is None,
    decreases s.len() + h - i,
{
    if h == 0 || i < 0 || i >= s.len() - w {
    } else {
        lemma_sum_sq_zero(s, i, i + w);
        lemma_no_loud_in_silence(s, w, h, i + h);
    }
}

/// Speech is never cut: every voiced window lies inside the trimmed range.
pub proof fn lemma_voiced_windows_kept(s: Seq<i16>, sr: nat, i: int)
    requires
        s.len() >= window_len(sr),
        0 <= i < s.len() - window_len(sr),
        i % (hop_len(sr) as int) == 0,
        loud(s, i, window_len(sr)),
    ensures
        speech_range(s, sr).0 <= i,
        i + window_len(sr) <= speech_range(s, sr).1,
{
    let w = window_len(sr);
    let h = hop_len(sr);
    lemma_voiced_between(s, w, h, 0, i);
    lemma_first_le_last(s, w, h, 0);
}

proof fn lemma_voiced_between(s: Seq<i16>, w: nat, h: nat, start: int, i: int)
    requires
        h > 0,
        0 <= start <= i < s.len() - w,
        (i - start) % (h as int) == 0,
        loud(s, i, w),
    ensures
        first_voiced(s, w, h, start) matches Some(f) && f <= i,
        last_voiced(s, w, h, start) matches Some(l) && l >= i,
    decreases i - start,
{
    if start < i {
        assert((i - start) >= h) by (nonlinear_arith)
            requires
                (i - start) % (h as int) == 0,
                i - start > 0,
                h > 0,
        ;
        assert((i - (start + h)) % (h as int) == 0) by (nonlinear_arith)
            requires
                (i - start) % (h as int) == 0,
                h > 0,
        ;
        lemma_voiced_between(s, w, h, start + h, i);
        lemma_first_le_last(s, w, h, start + h);
    } else {
        lemma_first_le_last(s, w, h, start + h);
    }
}

// ── WAV headers ───────────────────────────────────────────────────────────────

/// The little-endian number in `b[off..off + 2]`.
pub open spec fn le16(b: Seq<u8>, off: int) -> nat {
    (b[off] as nat) + (b[off + 1] as nat) * 256
}

/// The little-endian number in `b[off..off + 4]`.
pub open spec fn le32(b: Seq<u8>, off: int) -> nat {
    (b[off] as nat) + (b[off + 1] as nat) * 256 + (b[off + 2] as nat) * 65536 + (b[off + 3] as nat)
        * 16777216
}

/// The byte rate a canonical WAV header declares: sample rate × channels ×
/// whole bytes per sample.
pub open spec fn byte_rate(d: Seq<u8>) -> nat {
    le32(d, 24) * le16(d, 22) * (le16(d, 34) / 8)
}

/// The audio bytes after a 44-byte header, counted as a 32-bit number.
pub open spec fn audio_bytes(d: Seq<u8>) -> nat {
    let l = d.len() % 0x1_0000_0000;
    if l >= 44 {
        (l - 44) as nat
    } else {
        0
    }
}

/// The duration in milliseconds a canonical WAV file declares: 0 for a
/// short buffer or a header with a zero rate, channel count or byte width.
pub open spec fn wav_duration(d: Seq<u8>) -> nat {
    if d.len() < 44 || le32(d, 24) == 0 || le16(d, 22) == 0 || le16(d, 34) == 0 || byte_rate(d)
        == 0 {
        0
    } else {
        (audio_bytes(d) * 1000) / byte_rate(d)
    }
}

/// Whether computing the duration of `d` stays within 32-bit arithmetic.
pub open spec fn duration_fits(d: Seq<u8>) -> bool {
    d.len() < 44 || le32(d, 24) == 0 || le16(d, 22) == 0 || le16(d, 34) == 0 || (byte_rate(d)
        <= u32::MAX && audio_bytes(d) * 1000 <= u32::MAX)
}

/// Whether `wav_duration_ms` can compute the duration of `data` within
/// 32-bit arithmetic (callers check this first).
pub fn wav_duration_fits(data: &[u8]) -> (b: bool)
    ensures
        b == duration_fits(data@),
{
    if data.len() < 44 {
        return true;
    }
    let sample_rate = (data[24] as u64) + (data[25] as u64) * 256 + (data[26] as u64) * 65536 + (
    data[27] as u64) * 16777216;
    let num_channels = (data[22] as u64) + (data[23] as u64) * 256;
    let bits_per_sample = (data[34] as u64) + (data[35] as u64) * 256;
    if sample_rate == 0 || num_channels == 0 || bits_per_sample == 0 {
        return true;
    }
    assert(sample_rate * num_channels <= 0xffff_ffff * 0xffff) by (nonlinear_arith)
        requires
            sample_rate <= 0xffff_ffff,
            num_channels <= 0xffff,
    ;
    assert(sample_rate * num_channels * (bits_per_sample / 8) <= 0xffff_ffff * 0xffff * 0x2000)
        by (nonlinear_arith)
        requires
            sample_rate * num_channels <= 0xffff_ffff * 0xffff,
            bits_per_sample / 8 <= 0x2000,
    ;
    let rate = sample_rate * num_channels * (bits_per_sample / 8);
    let len32 = data.len() as u64 % 0x1_0000_0000;
    let audio = if len32 >= 44 {
        len32 - 44
    } else {
        0
    };
    rate <= 0xffff_ffff && audio * 1000 <= 0xffff_ffff
}

/// Duration in milliseconds from a canonical 44-byte WAV header.
pub fn wav_duration_ms(data: &[u8]) -> (ms: u32)
    requires
        duration_fits(data@),
    ensures
        ms == wav_duration(data@),
{
    if data.len() < 44 {
        return 0;
    }
    let sample_rate = (data[24] as u32) + (data[25] as u32) * 256 + (data[26] as u32) * 65536 + (
    data[27] as u32) * 16777216;
    let num_channels = (data[22] as u32) + (data[23] as u32) * 256;
    let bits_per_sample = (data[34] as u32) + (data[35] as u32) * 256;
    if sample_rate == 0 || num_channels == 0 || bits_per_sample == 0 {
        return 0;
    }
    let len32 = (data.len() as u64 % 0x1_0000_0000) as u32;
    let data_bytes = if len32 >= 44 {
        len32 - 44
    } else {
        0
    };
    let ghost rate = byte_rate(data@);
    proof {
        assert(rate <= u32::MAX);
        let a = sample_rate as int;
        let b = num_channels as int;
        let c = (bits_per_sample / 8) as int;
        assert(a * b * c == rate);
        if c > 0 {
            assert(a * b <= a * b * c) by (nonlinear_arith)
                requires
                    a >= 0,
                    b >= 0,
                    c >= 1,
            ;
        }
    }
    if bits_per_sample / 8 == 0 {
        assert(rate == 0) by (nonlinear_arith)
            requires
                rate == (sample_rate as int) * (num_channels as int) * ((bits_per_sample / 8) as int),
                bits_per_sample / 8 == 0,
        ;
        return 0;
    }
    let bytes_per_second = sample_rate * num_channels * (bits_per_sample / 8);
    if bytes_per_second == 0 {
        return 0;
    }
    (data_bytes * 1000) / bytes_per_second
}

// ── Choosing samples ──────────────────────────────────────────────────────────

/// Whether `ext` is `wav` in any letter case.
pub open spec fn is_wav_ext(ext: Seq<char>) -> bool {
    ext.len() == 3 && (ext[0] == 'w' || ext[0] == 'W') && (ext[1] == 'a' || ext[1] == 'A') && (
    ext[2] == 'v' || ext[2] == 'V')
}

/// Whether a file extension names a WAV file (ASCII case ignored).
pub fn is_wav_extension(ext: &str) -> (b: bool)
    ensures
        b == is_wav_ext(ext@),
{
    let cs = chars_of(ext);
    cs.len() == 3 && (cs[0] == 'w' || cs[0] == 'W') && (cs[1] == 'a' || cs[1] == 'A') && (cs[2]
        == 'v' || cs[2] == 'V')
}

/// Whether a trimmed range `[start, end)` keeps no more than 100 ms of
/// audio, so that the original recording is used instead.
pub fn trim_too_short(start: usize, end: usize, sample_rate: u32) -> (b: bool)
    ensures
        b == (end as int <= start as int + (sample_rate as int) / 10),
{
    if end <= start {
        true
    } else {
        ((end - start) as u64) <= (sample_rate as u64) / 10
    }
}

} // verus!
