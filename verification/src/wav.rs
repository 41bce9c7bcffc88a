//! The audio container round trip: every session recording is written
//! as mono 16 kHz 16-bit signed PCM in a RIFF/WAVE container, and the
//! history-save tail decodes exactly what was written. Encoding and
//! decoding are done by the `hound` codec on in-memory buffers; the
//! byte image of a sample sequence is named by `wav_bytes_of`.

use vstd::prelude::*;

verus! {

/// The most samples a single container can hold: two bytes per sample
/// plus the 44-byte header must stay within the 32-bit sizes of the
/// RIFF format.
pub const MAX_WAV_SAMPLES: usize = 0x7FFF0000;

/// The byte image of a sample sequence in a mono 16 kHz 16-bit PCM
/// RIFF/WAVE container, as the `hound` codec lays it out.
pub uninterp spec fn wav_bytes_of(samples: Seq<i16>) -> Seq<u8>;

/// Relies on `hound::WavWriter` (`new`, `write_sample`, `finalize`)
/// writing a mono 16 kHz 16-bit PCM container to an in-memory buffer:
/// a 44-byte header followed by two little-endian bytes per sample.
/// For this spec and writer no call of the sequence can fail: samples
/// always fit 16 bits and the buffer cannot raise an I/O error.
#[verifier::external_body]
pub(crate) fn encode_wav_pcm16(samples: &Vec<i16>) -> (r: Vec<u8>)
    requires
        samples@.len() <= MAX_WAV_SAMPLES,
    ensures
        r@ == wav_bytes_of(samples@),
        r@.len() == 44 + 2 * samples@.len(),
{
    let spec = hound::WavSpec {
        channels: 1,
        sample_rate: 16000,
        bits_per_sample: 16,
        sample_format: hound::SampleFormat::Int,
    };
    let mut buf: Vec<u8> = Vec::new();
    let mut writer = hound::WavWriter::new(std::io::Cursor::new(&mut buf), spec)
        .expect("in-memory header write");
    for s in samples.iter() {
        writer.write_sample(*s).expect("16-bit sample write");
    }
    writer.finalize().expect("in-memory finalize");
    buf
}

/// What decoding promises: whenever the bytes are the image of some
/// sample sequence, the decode succeeds and returns exactly it.
pub open spec fn decodes_written_samples(bytes: Seq<u8>, r: Option<Vec<i16>>) -> bool {
    forall|s: Seq<i16>|
        s.len() <= MAX_WAV_SAMPLES && bytes == #[trigger] wav_bytes_of(s) ==> (r matches Some(v)
            && v@ == s)
}

/// Relies on `hound::WavReader` (`new`, `samples`): reading back a
/// 16-bit PCM container yields exactly the samples that were written
/// (the codec's int reads are lossless), and a header or sample read
/// error ends the decode.
#[verifier::external_body]
pub(crate) fn decode_wav_pcm16(bytes: &Vec<u8>) -> (r: Option<Vec<i16>>)
    ensures
        decodes_written_samples(bytes@, r),
{
    let mut reader = match hound::WavReader::new(std::io::Cursor::new(bytes)) {
        Ok(r) => r,
        Err(_) => return None,
    };
    let mut out: Vec<i16> = Vec::new();
    for s in reader.samples::<i16>() {
        match s {
            Ok(v) => out.push(v),
            Err(_) => return None,
        }
    }
    Some(out)
}

} // verus!
