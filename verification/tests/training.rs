use aether::training::{is_wav_extension, trim_silence, trim_too_short, wav_duration_fits, wav_duration_ms};

#[test]
fn trim_silence_all_silent_returns_full_range() {
    let samples = vec![0i16; 16_000];
    assert_eq!(trim_silence(&samples, 16_000), (0, 16_000));
}

#[test]
fn trim_silence_buffer_shorter_than_window_returns_full_range() {
    let samples = vec![1000i16; 5];
    assert_eq!(trim_silence(&samples, 16_000), (0, 5));
}

#[test]
fn trim_silence_strips_leading_and_trailing_silence() {
    let sr = 16_000u32;
    let silence = sr as usize; // 1 s = 16 000 samples
    let speech = (sr as usize * 200) / 1_000; // 200 ms = 3 200 samples
    let mut samples = vec![0i16; silence];
    samples.extend(vec![8_000i16; speech]); // loud speech
    samples.extend(vec![0i16; silence]);

    let (start, end) = trim_silence(&samples, sr);
    assert!(start < silence, "leading silence must be trimmed: start={start}");
    assert!(end > silence + speech, "trailing silence must be trimmed: end={end}");
    assert!(end <= samples.len());
    assert!(end - start < samples.len() / 2, "trimmed region should be <50% of full buffer");
}

#[test]
fn trim_silence_exact_bounds() {
    // 16 kHz: window 320, hop 160, padding 960. Speech occupies [16000, 19200);
    // the first voiced window starts at 15840, the last at 19040.
    let mut samples = vec![0i16; 16_000];
    samples.extend(vec![8_000i16; 3_200]);
    samples.extend(vec![0i16; 16_000]);
    assert_eq!(trim_silence(&samples, 16_000), (15_840 - 960, 19_040 + 320 + 960));
}

#[test]
fn trim_silence_voice_at_the_start_keeps_the_start() {
    let mut samples = vec![8_000i16; 1_000];
    samples.extend(vec![0i16; 10_000]);
    let (start, _) = trim_silence(&samples, 16_000);
    assert_eq!(start, 0);
}

#[test]
fn wav_duration_ms_returns_zero_for_short_data() {
    assert_eq!(wav_duration_ms(&[0u8; 20]), 0);
}

#[test]
fn wav_duration_ms_returns_zero_for_zero_sample_rate() {
    let mut data = vec![0u8; 64];
    data[22..24].copy_from_slice(&1u16.to_le_bytes()); // channels = 1
    data[34..36].copy_from_slice(&16u16.to_le_bytes()); // bits_per_sample = 16
    assert_eq!(wav_duration_ms(&data), 0);
}

#[test]
fn wav_duration_ms_known_pcm() {
    // 16 kHz mono 16-bit → bytes_per_second = 32 000; 32 000 data bytes → 1 000 ms
    let mut data = vec![0u8; 44 + 32_000];
    data[22..24].copy_from_slice(&1u16.to_le_bytes());
    data[24..28].copy_from_slice(&16_000u32.to_le_bytes());
    data[34..36].copy_from_slice(&16u16.to_le_bytes());
    assert_eq!(wav_duration_ms(&data), 1_000);
}

#[test]
fn wav_duration_ms_stereo_half_second() {
    let mut data = vec![0u8; 44 + 32_000];
    data[22..24].copy_from_slice(&2u16.to_le_bytes());
    data[24..28].copy_from_slice(&16_000u32.to_le_bytes());
    data[34..36].copy_from_slice(&16u16.to_le_bytes());
    assert_eq!(wav_duration_ms(&data), 500);
}

#[test]
fn wav_duration_ms_zero_when_bytes_per_sample_is_zero() {
    let mut data = vec![0u8; 100];
    data[22..24].copy_from_slice(&1u16.to_le_bytes());
    data[24..28].copy_from_slice(&16_000u32.to_le_bytes());
    data[34..36].copy_from_slice(&4u16.to_le_bytes());
    assert_eq!(wav_duration_ms(&data), 0);
}

#[test]
fn wav_extensions_ignore_case() {
    assert!(is_wav_extension("wav"));
    assert!(is_wav_extension("WAV"));
    assert!(is_wav_extension("Wav"));
    assert!(!is_wav_extension("mp3"));
    assert!(!is_wav_extension("wave"));
}

#[test]
fn too_short_after_trim_is_at_most_a_tenth_of_a_second() {
    assert!(trim_too_short(100, 1_700, 16_000));
    assert!(!trim_too_short(100, 1_701, 16_000));
    assert!(trim_too_short(500, 400, 16_000));
}

#[test]
fn duration_fits_unless_the_header_overflows() {
    assert!(wav_duration_fits(&[0u8; 20]));
    let mut data = vec![0u8; 44 + 32_000];
    data[22..24].copy_from_slice(&1u16.to_le_bytes());
    data[24..28].copy_from_slice(&16_000u32.to_le_bytes());
    data[34..36].copy_from_slice(&16u16.to_le_bytes());
    assert!(wav_duration_fits(&data));
    // 0xFFFF channels at 0xFFFFFFFF Hz and 64-bit samples: the byte rate overflows.
    data[22..24].copy_from_slice(&0xFFFFu16.to_le_bytes());
    data[24..28].copy_from_slice(&u32::MAX.to_le_bytes());
    data[34..36].copy_from_slice(&64u16.to_le_bytes());
    assert!(!wav_duration_fits(&data));
}
