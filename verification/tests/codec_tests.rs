use samples::b64::Base64Error;
use samples::l16::{read_le_pair, to_le_pair};
use samples::words::{word_from_le_bytes, word_to_le};
use samples::{Error, Samples};

#[test]
fn le_pair_of_negative_two() {
    assert_eq!(to_le_pair(-2), (0xFE, 0xFF));
    assert_eq!(to_le_pair(i16::MIN), (0x00, 0x80));
    assert_eq!(to_le_pair(0x1234), (0x34, 0x12));
}

#[test]
fn le_pair_read_back() {
    assert_eq!(read_le_pair(0x00, 0x80), i16::MIN);
    assert_eq!(read_le_pair(0xFF, 0x7F), i16::MAX);
    assert_eq!(read_le_pair(0x34, 0x12), 0x1234);
    for v in [i16::MIN, -1, 0, 1, 255, 256, i16::MAX] {
        let (lo, hi) = to_le_pair(v);
        assert_eq!(read_le_pair(lo, hi), v);
    }
}

#[test]
fn word_bytes_exact() {
    assert_eq!(word_to_le(1.0f32.to_bits()), [0x00, 0x00, 0x80, 0x3F]);
    assert_eq!(word_from_le_bytes(0x00, 0x00, 0x80, 0x3F), 0x3F80_0000);
    assert_eq!(word_to_le(0x0403_0201), [1, 2, 3, 4]);
}

#[test]
fn to_bytes_exact_layout() {
    let s = Samples::from(vec![7u32, 8, 9]);
    let bytes = s.to_bytes(|b: u32| match b {
        7 => -2,
        8 => 0x1234,
        _ => i16::MIN,
    });
    assert_eq!(bytes, vec![0xFE, 0xFF, 0x34, 0x12, 0x00, 0x80]);
}

#[test]
fn from_pcm_bytes_ignores_trailing_odd_byte() {
    let s = Samples::from_pcm_bytes(&[0xFE, 0xFF, 0x34, 0x12, 0x99], |v: i16| v as u16 as u32);
    assert_eq!(s.into_inner(), vec![0xFFFE, 0x1234]);
}

#[test]
fn try_from_bytes_odd_length_error() {
    let r = Samples::try_from_bytes(&[1u8], |v: i16| v as u16 as u32);
    assert_eq!(r, Err(Error::ByteLengthNotEven));
    let r = Samples::try_from_bytes(&[], |v: i16| v as u16 as u32).unwrap();
    assert!(r.is_empty());
}

#[test]
fn bytes_round_trip_with_inverse_maps() {
    let bytes = vec![0x00u8, 0x80, 0xFF, 0x7F, 0x01, 0x00, 0xFE, 0xFF];
    let s = Samples::try_from_bytes(&bytes, |v: i16| v as u16 as u32).unwrap();
    assert_eq!(s.to_bytes(|b: u32| b as u16 as i16), bytes);
}

#[test]
fn trim_tail_keeps_trailing() {
    let s = Samples::from(vec![1u32, 2, 3, 4]);
    assert_eq!(s.trim_tail(2).into_inner(), vec![3, 4]);
    assert_eq!(s.trim_tail(4).into_inner(), vec![1, 2, 3, 4]);
    assert_eq!(s.trim_tail(10).into_inner(), vec![1, 2, 3, 4]);
    assert!(s.trim_tail(0).is_empty());
}

#[test]
fn new_and_default_are_empty() {
    assert!(Samples::new().is_empty());
    assert_eq!(Samples::default().len(), 0);
    let v: Vec<u32> = Samples::from_slice(&[5, 6]).into();
    assert_eq!(v, vec![5, 6]);
}

#[test]
fn le_bytes_and_back() {
    let s = Samples::from(vec![0x0403_0201u32, 1.0f32.to_bits()]);
    assert_eq!(s.le_bytes(), vec![1, 2, 3, 4, 0x00, 0x00, 0x80, 0x3F]);
    let back = Samples::from_le_bytes(&[1, 2, 3, 4, 0x00, 0x00, 0x80, 0x3F, 9, 9]);
    assert_eq!(back.into_inner(), vec![0x0403_0201u32, 0x3F80_0000]);
}

#[test]
fn to_b64_exact() {
    let s = Samples::from(vec![1.0f32.to_bits()]);
    assert_eq!(s.to_b64(), "AACAPw==");
    assert_eq!(Samples::new().to_b64(), "");
}

#[test]
fn from_b64_exact() {
    let s = Samples::from_b64("AACAPw==").unwrap();
    assert_eq!(s.into_inner(), vec![0x3F80_0000]);
    // five bytes: the fifth is not part of a whole sample
    let s = Samples::from_b64("AQIDBAU=").unwrap();
    assert_eq!(s.into_inner(), vec![0x0403_0201]);
}

#[test]
fn from_b64_errors() {
    assert_eq!(Samples::from_b64("AA*A"), Err(Base64Error::InvalidByte(2, b'*')));
    assert_eq!(Samples::from_b64("AAAAA"), Err(Base64Error::InvalidLength(5)));
    assert_eq!(Samples::from_b64("AB=="), Err(Base64Error::InvalidLastSymbol(1, b'B')));
    assert_eq!(Samples::from_b64("AA"), Err(Base64Error::InvalidPadding));
}

#[test]
fn equality_follows_f32() {
    let nan = Samples::from(vec![f32::NAN.to_bits()]);
    assert!(nan != nan.clone());
    let pos = Samples::from(vec![0.0f32.to_bits()]);
    let neg = Samples::from(vec![(-0.0f32).to_bits()]);
    assert_eq!(pos, neg);
    assert_ne!(Samples::from(vec![1u32]), Samples::from(vec![1u32, 1]));
    assert_eq!(Samples::from(vec![0.5f32.to_bits()]), Samples::from(vec![0.5f32.to_bits()]));
    assert!(samples::samples::sample_eq(f32::INFINITY.to_bits(), f32::INFINITY.to_bits()));
}

#[test]
fn encoding_of_concatenation() {
    let q = |b: u32| b as u16 as i16;
    let a = Samples::from(vec![1u32, 0xFFFF]);
    let b = Samples::from(vec![0x8000u32]);
    let mut ab = a.clone();
    ab.extend(b.clone().into_inner());
    let mut expected = a.to_bytes(q);
    expected.extend(b.to_bytes(q));
    assert_eq!(ab.to_bytes(q), expected);
}

#[test]
fn decoding_of_concatenation() {
    let n = |v: i16| v as u16 as u32;
    let a = [0x01u8, 0x00, 0xFF, 0xFF];
    let b = [0x00u8, 0x80, 0x07];
    let mut ab = a.to_vec();
    ab.extend_from_slice(&b);
    let mut expected = Samples::from_pcm_bytes(&a, n).into_inner();
    expected.extend(Samples::from_pcm_bytes(&b, n).into_inner());
    assert_eq!(Samples::from_pcm_bytes(&ab, n).into_inner(), expected);
}

#[test]
fn clone_lists_same_samples() {
    let s = Samples::from(vec![f32::NAN.to_bits(), 3, 0x8000_0000]);
    let v: Vec<u32> = Vec::from(s.clone());
    assert_eq!(v, s.into_inner());
}

#[test]
fn from_b64_rejects_non_canonical_text() {
    assert!(Samples::from_b64("AB==").is_err());
    assert!(Samples::from_b64("AAAAAA").is_err());
    assert!(Samples::from_b64("").unwrap().is_empty());
}
