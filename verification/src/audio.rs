use vstd::prelude::*;

use crate::codec::{b64_decode, base64_decoding_of};
use crate::fonts::{lookup_in, table_lookup};
use crate::rng::RandomSource;

verus! {

/// What hound's WAV reader decodes from a byte stream: the 16-bit
/// samples, or nothing when the bytes are not a readable WAV stream.
pub uninterp spec fn wav_samples_of(bytes: Seq<u8>) -> Option<Seq<i16>>;

/// What hound's WAV writer produces, under this crate's fixed spec of
/// one channel, 22050 Hz, 16-bit integer samples, for a sample sequence:
/// the encoded bytes, or nothing when writing fails.
pub uninterp spec fn wav_encoding_of(samples: Seq<i16>) -> Option<Seq<u8>>;

/// Relies on hound's `WavReader`: which samples a WAV byte stream
/// decodes to depends on the bytes alone.
#[verifier::external_body]
fn wav_decode(bytes: &Vec<u8>) -> (r: Option<Vec<i16>>)
    ensures
        r is Some <==> wav_samples_of(bytes@) is Some,
        r is Some ==> r->0@ == wav_samples_of(bytes@)->0,
{
    let mut reader = match hound::WavReader::new(&bytes[..]) {
        Ok(r) => r,
        Err(_) => return None,
    };
    reader.samples::<i16>().collect::<Result<Vec<i16>, _>>().ok()
}

/// Relies on hound's `WavWriter` with this crate's fixed spec (one
/// channel, 22050 Hz, 16-bit integer samples): the encoded bytes depend
/// on the samples alone.
#[verifier::external_body]
fn wav_encode(samples: &Vec<i16>) -> (r: Option<Vec<u8>>)
    ensures
        r is Some <==> wav_encoding_of(samples@) is Some,
        r is Some ==> r->0@ == wav_encoding_of(samples@)->0,
{
    let spec = hound::WavSpec {
        channels: 1,
        sample_rate: 22050,
        bits_per_sample: 16,
        sample_format: hound::SampleFormat::Int,
    };
    let mut cursor = std::io::Cursor::new(Vec::new());
    let mut writer = hound::WavWriter::new(&mut cursor, spec).ok()?;
    for s in samples.iter() {
        writer.write_sample(*s).ok()?;
    }
    writer.finalize().ok()?;
    Some(cursor.into_inner())
}

/// The common clip length, in samples: every produced clip is padded up
/// to it, so clips of different letters share one duration.
pub const CLIP_SAMPLES: usize = 36000;

/// The jitter rule: `out` is `orig` with every sample moved by a bounded
/// random amount (a sample that would leave the 16-bit range is kept),
/// then padded with bounded noise samples up to the common clip length.
pub open spec fn jittered(orig: Seq<i16>, out: Seq<i16>) -> bool {
    &&& out.len() == (if orig.len() >= CLIP_SAMPLES {
        orig.len()
    } else {
        CLIP_SAMPLES as nat
    })
    &&& forall|q: int| #![trigger out[q]] 0 <= q < orig.len() ==> -3000 <= out[q] - orig[q]
        <= 2999
    &&& forall|q: int| #![trigger out[q]] orig.len() <= q < out.len() ==> -3000 <= out[q] <= 2999
}

/// Adds bounded random noise to each sample and pads the clip to the
/// common length with bounded noise samples.
pub fn add_noise(samples: Vec<i16>, rng: &mut RandomSource) -> (out: Vec<i16>)
    ensures
        jittered(samples@, out@),
{
    let n = samples.len();
    let mut out: Vec<i16> = Vec::new();
    let mut i: usize = 0;
    while i < n
        invariant
            n == samples@.len(),
            i <= n,
            out@.len() == i,
            forall|q: int| #![trigger out@[q]] 0 <= q < i ==> -3000 <= out@[q] - samples@[q]
                <= 2999,
        decreases n - i,
    {
        let k: i16 = samples[i];
        let rnd: i32 = (rng.below(6000) as i32) - 3000;
        let sum: i32 = (k as i32) + rnd;
        let v: i16 = if sum < (i16::MAX as i32) && sum > (i16::MIN as i32) {
            sum as i16
        } else {
            k
        };
        out.push(v);
        i = i + 1;
    }
    while out.len() < CLIP_SAMPLES
        invariant
            n == samples@.len(),
            out@.len() >= n,
            out@.len() <= CLIP_SAMPLES || out@.len() == n,
            forall|q: int| #![trigger out@[q]] 0 <= q < n ==> -3000 <= out@[q] - samples@[q]
                <= 2999,
            forall|q: int| #![trigger out@[q]] n <= q < out@.len() ==> -3000 <= out@[q] <= 2999,
        decreases CLIP_SAMPLES - out.len(),
    {
        let rnd: i32 = (rng.below(6000) as i32) - 3000;
        out.push(rnd as i16);
    }
    out
}

/// The decoded samples of the table's clip for `letter`: `None` when the
/// table has no entry, the entry is not valid base64, or the bytes are
/// not a WAV stream.
pub open spec fn clip_samples_of(t: Seq<(char, String)>, letter: char) -> Option<Seq<i16>> {
    match table_lookup(t, letter) {
        None => None,
        Some(s) => match base64_decoding_of(s) {
            None => None,
            Some(b) => wav_samples_of(b),
        },
    }
}

/// What `as_wav` promises of one produced clip for `letter` against the
/// table `t`: a `Some` is a WAV encoding of jittered clip samples, and a
/// `None` comes only from a missing or undecodable clip or from the
/// encoder failing on the jittered samples.
pub open spec fn wav_result_for(t: Seq<(char, String)>, letter: char, r: Option<Vec<u8>>) -> bool {
    &&& clip_samples_of(t, letter) is None ==> r is None
    &&& r is Some ==> clip_samples_of(t, letter) is Some
    &&& r is Some ==> exists|noisy: Seq<i16>|
        jittered(clip_samples_of(t, letter)->0, noisy) && wav_encoding_of(noisy) == Some(r->0@)
    &&& r is None ==> clip_samples_of(t, letter) is None || (exists|noisy: Seq<i16>|
        jittered(clip_samples_of(t, letter)->0, noisy) && wav_encoding_of(noisy) is None)
}

/// Per-character audio clips: a table from a character to a base64
/// encoded WAV clip. The crate ships no clips of its own; a table comes
/// from the caller, and the default one is empty.
pub struct Audio {
    data: Vec<(char, String)>,
}

impl Audio {
    /// The clip table.
    pub closed spec fn spec_data(&self) -> Seq<(char, String)> {
        self.data@
    }

    /// An audio source with no clips.
    pub fn new() -> (a: Audio)
        ensures
            a.spec_data() =~= Seq::<(char, String)>::empty(),
    {
        Audio { data: Vec::new() }
    }

    /// An audio source over the given clip table.
    pub fn from_data(data: Vec<(char, String)>) -> (a: Audio)
        ensures
            a.spec_data() == data@,
    {
        Audio { data }
    }

    /// The WAV clip for `letter`: decoded from the table, with bounded
    /// random noise added to every sample and padded to the common clip
    /// length, then re-encoded. `None` comes only when the table has no
    /// decodable clip for `letter`, or re-encoding the jittered samples
    /// fails; nothing else is swallowed.
    pub fn as_wav(&self, letter: char, rng: &mut RandomSource) -> (r: Option<Vec<u8>>)
        ensures
            wav_result_for(self.spec_data(), letter, r),
    {
        let bytes: Option<Vec<u8>> = match lookup_in(&self.data, letter) {
            None => None,
            Some(s) => b64_decode(s.as_str()),
        };
        let samples: Option<Vec<i16>> = match bytes {
            None => None,
            Some(v) => wav_decode(&v),
        };
        match samples {
            None => None,
            Some(sv) => {
                let ghost orig = sv@;
                let noisy = add_noise(sv, rng);
                match wav_encode(&noisy) {
                    None => {
                        proof {
                            assert(jittered(orig, noisy@) && wav_encoding_of(noisy@) is None);
                        }
                        None
                    },
                    Some(out) => {
                        proof {
                            assert(jittered(orig, noisy@) && wav_encoding_of(noisy@) == Some(
                                out@,
                            ));
                        }
                        Some(out)
                    },
                }
            },
        }
    }
}

} // verus!
