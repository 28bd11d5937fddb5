use base64::Engine;
use captcha::{add_noise, Audio, RandomSource};

fn wav_bytes(samples: &[i16]) -> Vec<u8> {
    let spec = hound::WavSpec {
        channels: 1,
        sample_rate: 22050,
        bits_per_sample: 16,
        sample_format: hound::SampleFormat::Int,
    };
    let mut cursor = std::io::Cursor::new(Vec::new());
    {
        let mut writer = hound::WavWriter::new(&mut cursor, spec).unwrap();
        for s in samples {
            writer.write_sample(*s).unwrap();
        }
        writer.finalize().unwrap();
    }
    cursor.into_inner()
}

#[test]
fn add_noise_pads_and_stays_bounded() {
    let samples: Vec<i16> = vec![0, 100, -100, 30000, -30000];
    let mut rng = RandomSource::from_seed(9);
    let out = add_noise(samples.clone(), &mut rng);
    assert_eq!(out.len(), 36000);
    for (i, s) in samples.iter().enumerate() {
        let diff = out[i] as i32 - *s as i32;
        assert!((-3000..=2999).contains(&diff), "sample {} moved by {}", i, diff);
    }
    for s in out.iter().skip(samples.len()) {
        assert!((-3000..=2999).contains(&(*s as i32)));
    }
}

#[test]
fn add_noise_keeps_long_clips_unpadded() {
    let samples: Vec<i16> = vec![5; 40000];
    let mut rng = RandomSource::from_seed(9);
    let out = add_noise(samples, &mut rng);
    assert_eq!(out.len(), 40000);
}

#[test]
fn as_wav_produces_a_padded_clip() {
    let bytes = wav_bytes(&[0, 1000, -1000, 500]);
    let b64 = base64::prelude::BASE64_STANDARD.encode(&bytes);
    let audio = Audio::from_data(vec![('x', b64)]);
    let mut rng = RandomSource::from_seed(4);
    let clip = audio.as_wav('x', &mut rng).expect("clip expected");
    let mut reader = hound::WavReader::new(&clip[..]).unwrap();
    let decoded: Vec<i16> = reader.samples::<i16>().map(|s| s.unwrap()).collect();
    assert_eq!(decoded.len(), 36000);
    assert!((decoded[1] as i32 - 1000).abs() <= 3000);
}

#[test]
fn as_wav_misses_are_none() {
    let audio = Audio::new();
    let mut rng = RandomSource::from_seed(4);
    assert!(audio.as_wav('x', &mut rng).is_none());
    let bytes = wav_bytes(&[1, 2, 3]);
    let b64 = base64::prelude::BASE64_STANDARD.encode(&bytes);
    let audio2 = Audio::from_data(vec![('x', b64)]);
    assert!(audio2.as_wav('y', &mut rng).is_none());
}

#[test]
fn as_wav_rejects_clips_that_do_not_decode() {
    // valid base64, but not a WAV stream
    let b64 = base64::prelude::BASE64_STANDARD.encode([1u8, 2, 3, 4]);
    let audio = Audio::from_data(vec![('x', b64)]);
    let mut rng = RandomSource::from_seed(4);
    assert!(audio.as_wav('x', &mut rng).is_none());
}
