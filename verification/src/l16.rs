//! L16 mono PCM: each sample is a signed 16-bit integer stored as two bytes,
//! least significant byte first.
use vstd::prelude::*;

verus! {

/// First (least significant) byte of the two's-complement form of `v`.
pub open spec fn low_byte(v: i16) -> u8 {
    ((v as u16) % 256) as u8
}

/// Second (most significant) byte of the two's-complement form of `v`.
pub open spec fn high_byte(v: i16) -> u8 {
    ((v as u16) / 256) as u8
}

/// The signed 16-bit value whose little-endian bytes are `lo`, `hi`.
pub open spec fn from_le_pair(lo: u8, hi: u8) -> i16 {
    (hi * 256 + lo) as i16
}

/// The L16 byte stream of a sequence of 16-bit samples.
pub open spec fn l16_encode(values: Seq<i16>) -> Seq<u8> {
    Seq::new(
        2 * values.len(),
        |k: int|
            if k % 2 == 0 {
                low_byte(values[k / 2])
            } else {
                high_byte(values[k / 2])
            },
    )
}

/// The 16-bit samples of an L16 byte stream; a trailing odd byte is not part
/// of any sample.
pub open spec fn l16_decode(bytes: Seq<u8>) -> Seq<i16> {
    Seq::new(bytes.len() / 2, |i: int| from_le_pair(bytes[2 * i], bytes[2 * i + 1]))
}

/// The two little-endian bytes of `v`.
pub fn to_le_pair(v: i16) -> (r: (u8, u8))
    ensures
        r.0 == low_byte(v),
        r.1 == high_byte(v),
{
    let u: u16 = v as u16;
    assert((u & 0xff) as u8 == (u % 256) as u8) by (bit_vector);
    assert((u >> 8u16) as u8 == (u / 256) as u8) by (bit_vector);
    ((u & 0xff) as u8, (u >> 8u16) as u8)
}

/// The signed 16-bit value stored little-endian in `lo`, `hi`.
pub fn read_le_pair(lo: u8, hi: u8) -> (v: i16)
    ensures
        v == from_le_pair(lo, hi),
{
    let u: u16 = ((hi as u16) << 8u16) | (lo as u16);
    assert(((hi as u16) << 8u16) | (lo as u16) == hi * 256 + lo) by (bit_vector);
    u as i16
}

/// Splitting a value into its two bytes and joining them again gives it back.
pub proof fn lemma_le_pair_round_trip(v: i16)
    ensures
        from_le_pair(low_byte(v), high_byte(v)) == v,
{
    assert(((((v as u16) / 256) as u8) * 256 + (((v as u16) % 256) as u8)) as i16 == v)
        by (bit_vector);
}

/// Joining two bytes into a value and splitting it again gives them back.
pub proof fn lemma_le_pair_bytes_round_trip(lo: u8, hi: u8)
    ensures
        low_byte(from_le_pair(lo, hi)) == lo,
        high_byte(from_le_pair(lo, hi)) == hi,
{
    assert((((hi * 256 + lo) as i16) as u16 % 256) as u8 == lo) by (bit_vector);
    assert((((hi * 256 + lo) as i16) as u16 / 256) as u8 == hi) by (bit_vector);
}

/// Decoding the L16 encoding of any sequence of samples gives it back.
pub proof fn lemma_decode_encode(values: Seq<i16>)
    ensures
        l16_decode(l16_encode(values)) == values,
{
    let bytes = l16_encode(values);
    assert forall|i: int| 0 <= i < values.len() implies #[trigger] l16_decode(bytes)[i] == values[i] by {
        assert((2 * i) / 2 == i && (2 * i) % 2 == 0);
        assert((2 * i + 1) / 2 == i && (2 * i + 1) % 2 == 1);
        lemma_le_pair_round_trip(values[i]);
    }
    assert(l16_decode(bytes) =~= values);
}

/// Encoding the samples of an even-length byte stream gives the stream back.
pub proof fn lemma_encode_decode(bytes: Seq<u8>)
    requires
        bytes.len() % 2 == 0,
    ensures
        l16_encode(l16_decode(bytes)) == bytes,
{
    let values = l16_decode(bytes);
    assert forall|k: int| 0 <= k < bytes.len() implies #[trigger] l16_encode(values)[k] == bytes[k] by {
        let i = k / 2;
        assert(0 <= i < values.len());
        lemma_le_pair_bytes_round_trip(bytes[2 * i], bytes[2 * i + 1]);
        if k % 2 == 0 {
            assert(k == 2 * i);
        } else {
            assert(k == 2 * i + 1);
        }
    }
    assert(l16_encode(values) =~= bytes);
}

/// The L16 encoding of a concatenation is the concatenation of the encodings.
pub proof fn lemma_encode_concat(a: Seq<i16>, b: Seq<i16>)
    ensures
        l16_encode(a + b) == l16_encode(a) + l16_encode(b),
{
    let lhs = l16_encode(a + b);
    let rhs = l16_encode(a) + l16_encode(b);
    assert forall|k: int| 0 <= k < lhs.len() implies #[trigger] lhs[k] == rhs[k] by {
        if k < 2 * a.len() {
            assert(k / 2 < a.len());
        } else {
            let m = k - 2 * a.len();
            assert(m / 2 == k / 2 - a.len() && m % 2 == k % 2);
        }
    }
    assert(lhs =~= rhs);
}

/// Decoding an even-length stream followed by another gives the samples of
/// the first followed by those of the second.
pub proof fn lemma_decode_concat(a: Seq<u8>, b: Seq<u8>)
    requires
        a.len() % 2 == 0,
    ensures
        l16_decode(a + b) == l16_decode(a) + l16_decode(b),
{
    let lhs = l16_decode(a + b);
    let rhs = l16_decode(a) + l16_decode(b);
    assert(lhs.len() == rhs.len());
    assert forall|i: int| 0 <= i < lhs.len() implies #[trigger] lhs[i] == rhs[i] by {
        if i < a.len() / 2 {
            assert(2 * i + 1 < a.len());
        } else {
            let j = i - a.len() / 2;
            assert(2 * i == a.len() + 2 * j);
        }
    }
    assert(lhs =~= rhs);
}

/// The two bytes of `v` are the base-256 digits of its two's-complement
/// value (`v`, or `v + 65536` when negative), low digit first.
pub proof fn lemma_le_pair_digits(v: i16)
    ensures
        low_byte(v) + 256 * high_byte(v) == (if v < 0 { v + 65536 } else { v as int }),
{
    assert((((v as u16) % 256) as u8) + 256 * (((v as u16) / 256) as u8) == (if v < 0 {
        v + 65536
    } else {
        v as int
    })) by (bit_vector);
}

/// Two bytes read as a value give `lo + 256 * hi`, less 65536 when the top
/// bit of `hi` is set.
pub proof fn lemma_from_le_pair_digits(lo: u8, hi: u8)
    ensures
        from_le_pair(lo, hi) == (if hi < 128 { lo + 256 * hi } else { lo + 256 * hi - 65536 }),
{
    assert(((hi * 256 + lo) as i16) == (if hi < 128 { lo + 256 * hi } else { lo + 256 * hi - 65536 }))
        by (bit_vector);
}

/// The L16 encoding has two bytes per value, and the bytes at `2i`, `2i + 1`
/// are the low and high base-256 digits of value `i` in two's complement.
pub proof fn lemma_encode_layout(values: Seq<i16>)
    ensures
        l16_encode(values).len() == 2 * values.len(),
        forall|i: int|
            0 <= i < values.len() ==> l16_encode(values)[2 * i] + 256 * l16_encode(values)[2 * i + 1]
                == (if values[i] < 0 { values[i] + 65536 } else { values[i] as int }),
{
    assert forall|i: int| 0 <= i < values.len() implies l16_encode(values)[2 * i] + 256 * l16_encode(
        values,
    )[2 * i + 1] == (if values[i] < 0 { values[i] + 65536 } else { values[i] as int }) by {
        assert((2 * i) / 2 == i && (2 * i) % 2 == 0);
        assert((2 * i + 1) / 2 == i && (2 * i + 1) % 2 == 1);
        lemma_le_pair_digits(values[i]);
    }
}

/// Decoding gives one value per whole pair of bytes; value `i` is
/// `bytes[2i] + 256 * bytes[2i + 1]`, less 65536 when the top bit of
/// `bytes[2i + 1]` is set.
pub proof fn lemma_decode_layout(bytes: Seq<u8>)
    ensures
        l16_decode(bytes).len() == bytes.len() / 2,
        forall|i: int|
            0 <= i < bytes.len() / 2 ==> #[trigger] l16_decode(bytes)[i] == (if bytes[2 * i + 1] < 128 {
                bytes[2 * i] + 256 * bytes[2 * i + 1]
            } else {
                bytes[2 * i] + 256 * bytes[2 * i + 1] - 65536
            }),
{
    assert forall|i: int| 0 <= i < bytes.len() / 2 implies #[trigger] l16_decode(bytes)[i] == (if bytes[2
        * i + 1] < 128 {
        bytes[2 * i] + 256 * bytes[2 * i + 1]
    } else {
        bytes[2 * i] + 256 * bytes[2 * i + 1] - 65536
    }) by {
        lemma_from_le_pair_digits(bytes[2 * i], bytes[2 * i + 1]);
    }
}

} // verus!
