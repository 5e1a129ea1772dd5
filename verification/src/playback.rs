//! Reading the spoken replies the brain sends: the WAV header and the
//! integer samples (parsing is hound's; playing them is the node's).
use vstd::prelude::*;
use crate::text::{decimal, push_decimal, push_str};

verus! {

/// What hound reads from the header of WAV bytes: sample rate, channel
/// count, bits per sample and whether the samples are floating point (none
/// when the header does not parse).
pub uninterp spec fn wav_header(bytes: Seq<u8>) -> Option<(u32, u16, u16, bool)>;

/// The samples hound reads from WAV bytes as 32-bit integers (none when the
/// header does not parse or a sample cannot be read).
pub uninterp spec fn wav_int_samples(bytes: Seq<u8>) -> Option<Seq<i32>>;

/// `hound::WavReader::new` on the bytes, then `spec()`.
#[verifier::external_body]
fn read_wav_header(bytes: &[u8]) -> (r: Option<(u32, u16, u16, bool)>)
    ensures
        r == wav_header(bytes@),
{
    let reader = hound::WavReader::new(std::io::Cursor::new(bytes)).ok()?;
    let s = reader.spec();
    let float = match s.sample_format {
        hound::SampleFormat::Float => true,
        hound::SampleFormat::Int => false,
    };
    Some((s.sample_rate, s.channels, s.bits_per_sample, float))
}

/// `hound::WavReader::new` on the bytes, then every sample of
/// `samples::<i32>()`.
#[verifier::external_body]
fn read_wav_int_samples(bytes: &[u8]) -> (r: Option<Vec<i32>>)
    ensures
        match r {
            Some(v) => wav_int_samples(bytes@) == Some(v@),
            None => wav_int_samples(bytes@) is None,
        },
{
    let mut reader = hound::WavReader::new(std::io::Cursor::new(bytes)).ok()?;
    reader.samples::<i32>().collect::<Result<Vec<i32>, hound::Error>>().ok()
}

/// A decoded WAV reply. Integer samples are held as `i32` whatever their
/// width; floating-point samples are left to the player (`samples` is empty).
pub struct WavAudio {
    pub sample_rate: u32,
    pub channels: u16,
    pub bits_per_sample: u16,
    pub float_samples: bool,
    pub samples: Vec<i32>,
}

/// The integer sample widths a reply may use.
pub open spec fn int_depth_supported(bits: u16) -> bool {
    bits == 8 || bits == 16 || bits == 24 || bits == 32
}

/// The error text when a sample of `bits` bits cannot be read.
pub open spec fn sample_error(bits: u16) -> Seq<char> {
    if bits == 8 {
        "reading i8 sample"@
    } else if bits == 16 {
        "reading i16 sample"@
    } else {
        "reading i32 sample"@
    }
}

/// What decoding WAV bytes gives: the header's fields with the samples, or
/// the error text.
pub open spec fn decoded_wav(bytes: Seq<u8>) -> Result<(u32, u16, u16, bool, Seq<i32>), Seq<char>> {
    match wav_header(bytes) {
        None => Err("parsing WAV header"@),
        Some((rate, channels, bits, float)) => if float {
            Ok((rate, channels, bits, true, Seq::empty()))
        } else if !int_depth_supported(bits) {
            Err("unsupported bit depth: "@ + decimal(bits as nat))
        } else {
            match wav_int_samples(bytes) {
                None => Err(sample_error(bits)),
                Some(s) => Ok((rate, channels, bits, false, s)),
            }
        },
    }
}

/// The view of a decoding's outcome.
pub open spec fn wav_result_view(r: Result<WavAudio, String>) -> Result<
    (u32, u16, u16, bool, Seq<i32>),
    Seq<char>,
> {
    match r {
        Ok(a) => Ok((a.sample_rate, a.channels, a.bits_per_sample, a.float_samples, a.samples@)),
        Err(e) => Err(e@),
    }
}

/// Decode a WAV reply: its header, then (for integer samples of 8, 16, 24
/// or 32 bits) every sample.
pub fn decode_wav(bytes: &[u8]) -> (r: Result<WavAudio, String>)
    ensures
        wav_result_view(r) == decoded_wav(bytes@),
{
    let (rate, channels, bits, float) = match read_wav_header(bytes) {
        None => {
            return Err(String::from_str("parsing WAV header"));
        },
        Some(h) => h,
    };
    if float {
        return Ok(
            WavAudio {
                sample_rate: rate,
                channels,
                bits_per_sample: bits,
                float_samples: true,
                samples: Vec::new(),
            },
        );
    }
    if !(bits == 8 || bits == 16 || bits == 24 || bits == 32) {
        let mut e = String::from_str("unsupported bit depth: ");
        push_decimal(&mut e, bits as u64);
        return Err(e);
    }
    match read_wav_int_samples(bytes) {
        None => {
            let mut e = String::new();
            if bits == 8 {
                push_str(&mut e, "reading i8 sample");
            } else if bits == 16 {
                push_str(&mut e, "reading i16 sample");
            } else {
                push_str(&mut e, "reading i32 sample");
            }
            Err(e)
        },
        Some(samples) => Ok(
            WavAudio { sample_rate: rate, channels, bits_per_sample: bits, float_samples: false, samples },
        ),
    }
}

} // verus!
