use aether::playback::decode_wav;

fn make_wav(samples: &[f32], sample_rate: u32) -> Vec<u8> {
    let mut buf = std::io::Cursor::new(Vec::new());
    let spec = hound::WavSpec {
        channels: 1,
        sample_rate,
        bits_per_sample: 16,
        sample_format: hound::SampleFormat::Int,
    };
    let mut w = hound::WavWriter::new(&mut buf, spec).unwrap();
    for &s in samples {
        w.write_sample((s * i16::MAX as f32) as i16).unwrap();
    }
    w.finalize().unwrap();
    buf.into_inner()
}

#[test]
fn play_wav_returns_err_on_garbage_bytes() {
    let result = decode_wav(b"not a wav file at all");
    assert!(result.is_err(), "garbage input should return an error");
    assert_eq!(result.err().unwrap(), "parsing WAV header");
}

#[test]
fn play_wav_returns_ok_on_minimal_valid_wav() {
    let wav = make_wav(&[0.0f32; 24_000], 24_000);
    let audio = decode_wav(&wav).unwrap();
    assert_eq!(audio.sample_rate, 24_000);
    assert_eq!(audio.channels, 1);
    assert_eq!(audio.samples.len(), 24_000);
    assert!(audio.samples.iter().all(|&s| s == 0));
}

#[test]
fn collect_f32_parses_16bit_wav() {
    let wav = make_wav(&[0.5, -0.5, 0.0], 24_000);
    let audio = decode_wav(&wav).unwrap();
    assert_eq!(audio.bits_per_sample, 16);
    assert!(!audio.float_samples);
    let samples: Vec<f32> = audio.samples.iter().map(|&s| s as f32 / i16::MAX as f32).collect();
    assert_eq!(samples.len(), 3);
    assert!((samples[0] - 0.5).abs() < 1e-4, "first sample ≈ 0.5");
    assert!((samples[1] + 0.5).abs() < 1e-4, "second sample ≈ -0.5");
    assert!(samples[2].abs() < 1e-4, "third sample ≈ 0.0");
}

#[test]
fn float_wav_keeps_its_header_and_leaves_samples_to_the_player() {
    let mut buf = std::io::Cursor::new(Vec::new());
    let spec = hound::WavSpec {
        channels: 2,
        sample_rate: 16_000,
        bits_per_sample: 32,
        sample_format: hound::SampleFormat::Float,
    };
    let mut w = hound::WavWriter::new(&mut buf, spec).unwrap();
    w.write_sample(0.25f32).unwrap();
    w.write_sample(-0.25f32).unwrap();
    w.finalize().unwrap();
    let audio = decode_wav(&buf.into_inner()).unwrap();
    assert!(audio.float_samples);
    assert_eq!(audio.channels, 2);
    assert_eq!(audio.sample_rate, 16_000);
    assert!(audio.samples.is_empty());
}

#[test]
fn truncated_samples_are_reported_by_width() {
    let mut wav = make_wav(&[0.5, -0.5, 0.25], 8_000);
    wav.truncate(wav.len() - 1);
    match decode_wav(&wav) {
        Err(e) => assert_eq!(e, "reading i16 sample"),
        Ok(a) => panic!("expected an error, got {} samples", a.samples.len()),
    }
}
