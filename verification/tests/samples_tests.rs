use samples::{Error, Samples};

/// A normalized f32 sample, clamped to [-1.0, 1.0] and scaled to i16.
fn sample_to_i16(sample: f32) -> i16 {
    let clamped = sample.clamp(-1.0, 1.0);
    let scaled = if clamped >= 0.0 {
        clamped * i16::MAX as f32
    } else {
        clamped * -(i16::MIN as f32)
    };
    scaled as i16
}

fn quantize(bits: u32) -> i16 {
    sample_to_i16(f32::from_bits(bits))
}

fn normalize(v: i16) -> u32 {
    (v as f32 / i16::MAX as f32).to_bits()
}

fn floats(s: &Samples) -> Vec<f32> {
    s.as_slice().iter().map(|&b| f32::from_bits(b)).collect()
}

fn bits(v: &[f32]) -> Vec<u32> {
    v.iter().map(|f| f.to_bits()).collect()
}

#[test]
fn pcm_round_trip() {
    let one_sec = vec![0u8; 24000 * 2];
    let samples = Samples::from_pcm_bytes(&one_sec, normalize);
    assert_eq!(samples.len(), 24000);
    assert!(floats(&samples).iter().all(|&s| s == 0.0));
    let back = samples.to_bytes(quantize);
    assert_eq!(back.len(), one_sec.len());
}

#[test]
fn try_from_odd_bytes_fails() {
    assert!(Samples::try_from_bytes([0u8, 1, 2].as_slice(), normalize).is_err());
}

#[test]
fn try_from_even_bytes_succeeds() {
    let samples = Samples::try_from_bytes([0x00u8, 0x80].as_slice(), normalize).unwrap();
    assert_eq!(samples.len(), 1);
    assert!(floats(&samples)[0] < 0.0); // i16::MIN / 32767 is negative
}

#[test]
fn extend_accumulates() {
    let mut s = Samples::new();
    s.extend(bits(&[0.5f32, -0.5]));
    s.extend(bits(&[0.25f32]));
    assert_eq!(s.len(), 3);
}

#[test]
fn deref_coerces_to_slice() {
    let s = Samples::from(bits(&[1.0f32, 2.0, 3.0]));
    let sum: f32 = s.as_slice().iter().map(|&b| f32::from_bits(b)).sum();
    assert_eq!(sum, 6.0);
}

#[test]
fn into_iterator_yields_f32() {
    let s = Samples::from(bits(&[0.1f32, 0.2, 0.3]));
    let v: Vec<f32> = s.into_inner().into_iter().map(f32::from_bits).collect();
    assert_eq!(v, vec![0.1f32, 0.2, 0.3]);
}

#[test]
fn extend_with_another_samples() {
    let mut a = Samples::from(bits(&[0.1f32]));
    let b = Samples::from(bits(&[0.2f32, 0.3]));
    a.extend(b.into_inner());
    assert_eq!(a.len(), 3);
}

#[test]
fn test_pcm_serde() {
    let s = Samples::from(bits(&[0.1f32, 0.2, 0.3]));
    let serialized = s.to_b64();
    let deserialized = Samples::from_b64(&serialized).unwrap();
    assert_eq!(s, deserialized);
}

#[test]
fn test_conversion_correctness() {
    for len in 0..30 {
        let mut inputs = vec![];
        for i in 0..len {
            let val = match i % 6 {
                0 => 0.0,
                1 => 0.5,
                2 => -0.5,
                3 => 1.0,
                4 => -1.0,
                _ => 1.5 * ((i % 2) as f32 * 2.0 - 1.0),
            };
            inputs.push(val);
        }

        let samples = Samples::from(bits(&inputs));
        let pcm = samples.to_bytes(quantize);

        let mut expected_bytes = Vec::with_capacity(len * 2);
        for &s in &inputs {
            let val_i16 = sample_to_i16(s);
            expected_bytes.extend_from_slice(&val_i16.to_le_bytes());
        }

        assert_eq!(pcm, expected_bytes, "Float-to-PCM mismatch at length {}", len);

        let back_from_pcm = Samples::from_pcm_bytes(&pcm, normalize);
        let expected_floats: Vec<f32> = expected_bytes
            .chunks_exact(2)
            .map(|c| i16::from_le_bytes([c[0], c[1]]) as f32 / i16::MAX as f32)
            .collect();
        assert_eq!(
            floats(&back_from_pcm),
            expected_floats,
            "PCM-to-float From<&PCM> mismatch at length {}",
            len
        );

        let back_from_bytes = Samples::try_from_bytes(expected_bytes.as_slice(), normalize).unwrap();
        assert_eq!(
            floats(&back_from_bytes),
            expected_floats,
            "PCM-to-float TryFrom<&[u8]> mismatch at length {}",
            len
        );

        let written_bytes = samples.to_bytes(quantize);
        assert_eq!(written_bytes, expected_bytes, "write_to_pcm_bytes mismatch at length {}", len);
    }
}

#[test]
fn write_bytes_to_matches_to_bytes_and_reuses_capacity() {
    let samples = Samples::from(bits(&[-1.25f32, -1.0, -0.5, 0.0, 0.5, 1.0, 1.25]));
    let expected = samples.to_bytes(quantize);
    let mut out = Vec::with_capacity(expected.len() * 2);
    out.extend_from_slice(&[42; 5]);
    let capacity = out.capacity();

    samples.write_bytes_to(&mut out, quantize);

    assert_eq!(out, expected);
    assert_eq!(out.capacity(), capacity);
}

#[test]
fn try_from_bytes_into_matches_try_from_and_reuses_capacity() {
    let samples = Samples::from(bits(&[-1.25f32, -1.0, -0.5, 0.0, 0.5, 1.0, 1.25]));
    let bytes = samples.to_bytes(quantize);
    let expected = Samples::try_from_bytes(bytes.as_slice(), normalize).unwrap().into_inner();
    let mut out = Vec::with_capacity(expected.len() * 2);
    out.extend_from_slice(&[42.0f32.to_bits(); 5]);
    let capacity = out.capacity();

    Samples::try_from_bytes_into(bytes.as_slice(), &mut out, normalize).unwrap();

    assert_eq!(out, expected);
    assert_eq!(out.capacity(), capacity);
}

#[test]
fn try_from_bytes_into_rejects_odd_byte_lengths() {
    let mut out = bits(&[1.0f32, 2.0, 3.0]);

    let err = Samples::try_from_bytes_into([0u8, 1, 2].as_slice(), &mut out, normalize).unwrap_err();

    assert!(matches!(err, Error::ByteLengthNotEven));
    assert_eq!(out, bits(&[1.0f32, 2.0, 3.0]));
}
