//! The recording as a WAV file for the local transcription server: 16-bit
//! mono PCM, written by hound.
use vstd::prelude::*;
use crate::hotkey::le32;
use crate::volc::pcm_bytes;

verus! {

#[verifier::external_type_specification]
#[verifier::external_body]
pub struct ExHoundError(hound::Error);

/// Little-endian bytes of a 16-bit word.
pub open spec fn le16u(x: u16) -> Seq<u8> {
    seq![(x % 0x100) as u8, (x / 0x100) as u8]
}

/// The WAV file of 16-bit mono PCM `samples` at `rate` Hz: the `RIFF` header
/// with the file size less 8, the `WAVE` form, a 16-byte `fmt ` chunk (PCM,
/// one channel, the rate, `2 * rate` bytes per second, 2-byte frames,
/// 16 bits), then the `data` chunk with the little-endian samples.
pub open spec fn spec_wav_pcm16_mono(samples: Seq<i16>, rate: u32) -> Seq<u8> {
    let data_len = 2 * samples.len();
    seq![0x52u8, 0x49u8, 0x46u8, 0x46u8] + le32((36 + data_len) as u32) + seq![
        0x57u8,
        0x41u8,
        0x56u8,
        0x45u8,
    ] + seq![0x66u8, 0x6du8, 0x74u8, 0x20u8] + le32(16) + le16u(1) + le16u(1) + le32(rate) + le32(
        (2 * rate) as u32,
    ) + le16u(2) + le16u(16) + seq![0x64u8, 0x61u8, 0x74u8, 0x61u8] + le32(data_len as u32)
        + pcm_bytes(samples)
}

/// Writes `samples` with hound's `WavWriter` (16-bit mono integer spec at
/// `sample_rate`) into an in-memory cursor: `new`, `write_sample` for each
/// sample, `finalize`. For one channel and 16 bits hound writes the
/// PCMWAVEFORMAT header and each sample little-endian, so the bytes are
/// [`spec_wav_pcm16_mono`]. hound divides by the rate and counts bytes in
/// `u32`, hence the bounds. 16 bits is a supported depth, one channel never
/// leaves a frame unfinished, and writes and seeks on an in-memory cursor do
/// not fail, so the result is `Ok`.
#[verifier::external_body]
fn hound_pcm16_mono(samples: &[i16], sample_rate: u32) -> (r: Result<Vec<u8>, hound::Error>)
    requires
        sample_rate > 0,
        2 * sample_rate <= u32::MAX,
        2 * samples@.len() + 36 <= u32::MAX,
    ensures
        r is Ok,
        r matches Ok(v) ==> v@ == spec_wav_pcm16_mono(samples@, sample_rate),
{
    let spec = hound::WavSpec {
        channels: 1,
        sample_rate,
        bits_per_sample: 16,
        sample_format: hound::SampleFormat::Int,
    };
    let mut cursor = std::io::Cursor::new(Vec::new());
    let mut writer = hound::WavWriter::new(&mut cursor, spec)?;
    for &s in samples {
        writer.write_sample(s)?;
    }
    writer.finalize()?;
    Ok(cursor.into_inner())
}

/// Why the recording could not be encoded.
#[derive(Debug)]
pub enum WavError {
    /// hound reported an error.
    Encode,
}

/// The WAV file the transcription request uploads: 16-bit mono PCM at
/// `sample_rate` Hz. Encoding into memory always succeeds.
pub fn encode_wav(samples: &[i16], sample_rate: u32) -> (r: Result<Vec<u8>, WavError>)
    requires
        sample_rate > 0,
        2 * sample_rate <= u32::MAX,
        2 * samples@.len() + 36 <= u32::MAX,
    ensures
        r is Ok,
        r matches Ok(v) ==> v@ == spec_wav_pcm16_mono(samples@, sample_rate),
{
    match hound_pcm16_mono(samples, sample_rate) {
        Ok(v) => Ok(v),
        Err(_) => Err(WavError::Encode),
    }
}

} // verus!
