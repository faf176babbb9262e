//! The sample buffer. Each sample is held as the bit pattern of an IEEE-754
//! single-precision number (`f32::to_bits`), normalized mono audio in
//! `[-1.0, 1.0]`; the float arithmetic that maps a sample to and from a
//! 16-bit PCM value is supplied by the caller as a function.
use vstd::prelude::*;
use crate::b64::{base64_decode, base64_encode, standard_decode, standard_encode, Base64Error};
use crate::error::Error;
use crate::words::{
    le_bytes_to_words, lemma_le_bytes_to_words_layout, lemma_words_to_le_bytes_unique, lemma_words_round_trip, word_from_le_bytes, word_to_le, words_to_le_bytes,
};
use crate::l16::{from_le_pair, lemma_decode_concat, lemma_decode_layout, lemma_encode_decode, read_le_pair, l16_decode, lemma_le_pair_round_trip, to_le_pair};

verus! {

/// The samples that `Samples::from_b64` reads from `text`: the base64 bytes
/// taken four at a time as little-endian words.
pub open spec fn samples_from_base64(text: Seq<char>) -> Result<Seq<u32>, Base64Error> {
    match base64_decode(text) {
        Ok(bytes) => Ok(le_bytes_to_words(bytes)),
        Err(e) => Err(e),
    }
}

/// What `from_b64` reads: when the text decodes to `bytes`, one sample per
/// whole group of four bytes, and sample `i` is `bytes[4i] + 256 * bytes[4i
/// + 1] + 65536 * bytes[4i + 2] + 16777216 * bytes[4i + 3]`; otherwise the
/// decoding error.
pub proof fn lemma_samples_from_base64_layout(text: Seq<char>)
    ensures
        match base64_decode(text) {
            Ok(bytes) => samples_from_base64(text) is Ok && samples_from_base64(text)->Ok_0.len()
                == bytes.len() / 4 && forall|i: int|
                0 <= i < bytes.len() / 4 ==> #[trigger] samples_from_base64(text)->Ok_0[i] == bytes[4
                    * i] + 0x100 * bytes[4 * i + 1] + 0x10000 * bytes[4 * i + 2] + 0x1000000 * bytes[4
                    * i + 3],
            Err(e) => samples_from_base64(text) is Err && samples_from_base64(text)->Err_0 == e,
        },
{
    match base64_decode(text) {
        Ok(bytes) => {
            lemma_le_bytes_to_words_layout(bytes);
        },
        Err(e) => {},
    }
}

/// What `to_b64` encodes: the byte sequence with four bytes per sample, the
/// base-256 digits of the sample's bits, least significant first.
pub proof fn lemma_to_b64_bytes(samples: Seq<u32>, bytes: Seq<u8>)
    requires
        bytes.len() == 4 * samples.len(),
        forall|i: int|
            0 <= i < samples.len() ==> bytes[4 * i] + 0x100 * bytes[4 * i + 1] + 0x10000 * bytes[4 * i + 2]
                + 0x1000000 * bytes[4 * i + 3] == #[trigger] samples[i],
    ensures
        base64_encode(words_to_le_bytes(samples)) == base64_encode(bytes),
{
    lemma_words_to_le_bytes_unique(samples, bytes);
}

/// `values` are what `quantize` gives for each of `samples`, in order.
pub open spec fn quantized<F: Fn(u32) -> i16>(quantize: F, samples: Seq<u32>, values: Seq<i16>) -> bool {
    &&& values.len() == samples.len()
    &&& forall|i: int| 0 <= i < samples.len() ==> call_ensures(quantize, (samples[i],), #[trigger] values[i])
}

/// `bytes` is the L16 stream of `samples`, each quantized by `quantize`.
pub open spec fn encodes<F: Fn(u32) -> i16>(quantize: F, samples: Seq<u32>, bytes: Seq<u8>) -> bool {
    &&& bytes.len() == 2 * samples.len()
    &&& quantized(quantize, samples, l16_decode(bytes))
}

/// `quantize` accepts every one of `samples`.
pub open spec fn accepts_all<F: Fn(u32) -> i16>(quantize: F, samples: Seq<u32>) -> bool {
    forall|i: int| 0 <= i < samples.len() ==> call_requires(quantize, (#[trigger] samples[i],))
}

/// `samples` are what `normalize` gives for each of `values`, in order.
pub open spec fn normalized<F: Fn(i16) -> u32>(normalize: F, values: Seq<i16>, samples: Seq<u32>) -> bool {
    &&& samples.len() == values.len()
    &&& forall|i: int| 0 <= i < values.len() ==> call_ensures(normalize, (values[i],), #[trigger] samples[i])
}

/// `normalize` accepts every one of `values`.
pub open spec fn accepts_all_values<F: Fn(i16) -> u32>(normalize: F, values: Seq<i16>) -> bool {
    forall|i: int| 0 <= i < values.len() ==> call_requires(normalize, (#[trigger] values[i],))
}

/// `quantize` gives at most one result for each input.
pub open spec fn single_valued<F: Fn(u32) -> i16>(quantize: F) -> bool {
    forall|x: u32, a: i16, b: i16|
        call_ensures(quantize, (x,), a) && call_ensures(quantize, (x,), b) ==> a == b
}

/// With a single-valued quantizer, the L16 bytes of a buffer are determined
/// by the samples: `write_bytes_to` and `to_bytes` produce the same bytes.
pub proof fn lemma_encoding_unique<F: Fn(u32) -> i16>(
    quantize: F,
    samples: Seq<u32>,
    a: Seq<u8>,
    b: Seq<u8>,
)
    requires
        single_valued(quantize),
        encodes(quantize, samples, a),
        encodes(quantize, samples, b),
    ensures
        a == b,
{
    assert(l16_decode(a) =~= l16_decode(b)) by {
        assert forall|i: int| 0 <= i < samples.len() implies l16_decode(a)[i] == l16_decode(b)[i] by {
            assert(call_ensures(quantize, (samples[i],), l16_decode(a)[i]));
            assert(call_ensures(quantize, (samples[i],), l16_decode(b)[i]));
        }
    }
    lemma_encode_decode(a);
    lemma_encode_decode(b);
}

/// The bytes that `to_bytes` and `write_bytes_to` produce: two per sample,
/// and for sample `i` the pair `bytes[2i]`, `bytes[2i + 1]` holds, low byte
/// first, the two's-complement form of a value that `quantize` gives for it.
pub proof fn lemma_encodes_layout<F: Fn(u32) -> i16>(quantize: F, samples: Seq<u32>, bytes: Seq<u8>)
    requires
        encodes(quantize, samples, bytes),
    ensures
        bytes.len() == 2 * samples.len(),
        forall|i: int|
            0 <= i < samples.len() ==> call_ensures(
                quantize,
                (#[trigger] samples[i],),
                (if bytes[2 * i + 1] < 128 {
                    bytes[2 * i] + 256 * bytes[2 * i + 1]
                } else {
                    bytes[2 * i] + 256 * bytes[2 * i + 1] - 65536
                }) as i16,
            ),
{
    lemma_decode_layout(bytes);
    assert forall|i: int| 0 <= i < samples.len() implies call_ensures(
        quantize,
        (#[trigger] samples[i],),
        (if bytes[2 * i + 1] < 128 {
            bytes[2 * i] + 256 * bytes[2 * i + 1]
        } else {
            bytes[2 * i] + 256 * bytes[2 * i + 1] - 65536
        }) as i16,
    ) by {
        assert(call_ensures(quantize, (samples[i],), l16_decode(bytes)[i]));
    }
}

/// The samples read from an L16 stream: one per whole pair of bytes, and
/// sample `i` is what `normalize` gives for the value whose two's-complement
/// form is `bytes[2i] + 256 * bytes[2i + 1]`.
pub proof fn lemma_normalized_layout<F: Fn(i16) -> u32>(normalize: F, bytes: Seq<u8>, samples: Seq<u32>)
    requires
        normalized(normalize, l16_decode(bytes), samples),
    ensures
        samples.len() == bytes.len() / 2,
        forall|i: int|
            0 <= i < samples.len() ==> call_ensures(
                normalize,
                (
                    (if bytes[2 * i + 1] < 128 {
                        bytes[2 * i] + 256 * bytes[2 * i + 1]
                    } else {
                        bytes[2 * i] + 256 * bytes[2 * i + 1] - 65536
                    }) as i16,
                ),
                #[trigger] samples[i],
            ),
{
    lemma_decode_layout(bytes);
    assert forall|i: int| 0 <= i < samples.len() implies call_ensures(
        normalize,
        (
            (if bytes[2 * i + 1] < 128 {
                bytes[2 * i] + 256 * bytes[2 * i + 1]
            } else {
                bytes[2 * i] + 256 * bytes[2 * i + 1] - 65536
            }) as i16,
        ),
        #[trigger] samples[i],
    ) by {
        assert(call_ensures(normalize, (l16_decode(bytes)[i],), samples[i]));
    }
}

/// Some 16-bit value `v` has `quantize(x) == v` and `normalize(v) == y`.
pub open spec fn round_trips<Q: Fn(u32) -> i16, N: Fn(i16) -> u32>(
    quantize: Q,
    normalize: N,
    x: u32,
    y: u32,
) -> bool {
    exists|v: i16| call_ensures(quantize, (x,), v) && call_ensures(normalize, (v,), y)
}

/// Encoding samples as L16 and decoding the bytes again maps each sample `x`,
/// in order and one for one, to `normalize(quantize(x))`.
pub proof fn lemma_pcm_round_trip<Q: Fn(u32) -> i16, N: Fn(i16) -> u32>(
    quantize: Q,
    normalize: N,
    samples: Seq<u32>,
    bytes: Seq<u8>,
    back: Seq<u32>,
)
    requires
        encodes(quantize, samples, bytes),
        normalized(normalize, l16_decode(bytes), back),
    ensures
        back.len() == samples.len(),
        forall|i: int|
            0 <= i < samples.len() ==> #[trigger] round_trips(quantize, normalize, samples[i], back[i]),
{
    assert forall|i: int| 0 <= i < samples.len() implies #[trigger] round_trips(
        quantize,
        normalize,
        samples[i],
        back[i],
    ) by {
        let v = l16_decode(bytes)[i];
        assert(call_ensures(quantize, (samples[i],), v));
        assert(call_ensures(normalize, (v,), back[i]));
    }
}

/// The L16 bytes of two buffers placed one after the other are the bytes of
/// the concatenated buffer.
pub proof fn lemma_encodes_concat<F: Fn(u32) -> i16>(
    quantize: F,
    a: Seq<u32>,
    bytes_a: Seq<u8>,
    b: Seq<u32>,
    bytes_b: Seq<u8>,
)
    requires
        encodes(quantize, a, bytes_a),
        encodes(quantize, b, bytes_b),
    ensures
        encodes(quantize, a + b, bytes_a + bytes_b),
{
    lemma_decode_concat(bytes_a, bytes_b);
    let values = l16_decode(bytes_a + bytes_b);
    assert forall|i: int| 0 <= i < (a + b).len() implies call_ensures(
        quantize,
        ((a + b)[i],),
        #[trigger] values[i],
    ) by {
        if i < a.len() {
            assert(call_ensures(quantize, (a[i],), l16_decode(bytes_a)[i]));
        } else {
            assert(call_ensures(quantize, (b[i - a.len()],), l16_decode(bytes_b)[i - a.len()]));
        }
    }
}

/// Decoding an even-length L16 stream followed by another gives the samples
/// of the first followed by those of the second.
pub proof fn lemma_normalized_concat<F: Fn(i16) -> u32>(
    normalize: F,
    bytes_a: Seq<u8>,
    a: Seq<u32>,
    bytes_b: Seq<u8>,
    b: Seq<u32>,
)
    requires
        bytes_a.len() % 2 == 0,
        normalized(normalize, l16_decode(bytes_a), a),
        normalized(normalize, l16_decode(bytes_b), b),
    ensures
        normalized(normalize, l16_decode(bytes_a + bytes_b), a + b),
{
    lemma_decode_concat(bytes_a, bytes_b);
    let values = l16_decode(bytes_a + bytes_b);
    assert forall|i: int| 0 <= i < values.len() implies call_ensures(
        normalize,
        (values[i],),
        #[trigger] (a + b)[i],
    ) by {
        if i < a.len() {
            assert(call_ensures(normalize, (l16_decode(bytes_a)[i],), a[i]));
        } else {
            assert(call_ensures(normalize, (l16_decode(bytes_b)[i - a.len()],), b[i - a.len()]));
        }
    }
}

/// `normalize` gives at most one result for each input.
pub open spec fn single_valued_normalizer<F: Fn(i16) -> u32>(normalize: F) -> bool {
    forall|v: i16, a: u32, b: u32|
        call_ensures(normalize, (v,), a) && call_ensures(normalize, (v,), b) ==> a == b
}

/// With a single-valued normalizer, the samples read from an L16 stream are
/// determined by the stream: `try_from_bytes_into`, `try_from_bytes` and
/// `from_pcm_bytes` produce the same samples.
pub proof fn lemma_decoding_unique<F: Fn(i16) -> u32>(
    normalize: F,
    values: Seq<i16>,
    a: Seq<u32>,
    b: Seq<u32>,
)
    requires
        single_valued_normalizer(normalize),
        normalized(normalize, values, a),
        normalized(normalize, values, b),
    ensures
        a == b,
{
    assert forall|i: int| 0 <= i < a.len() implies a[i] == b[i] by {
        assert(call_ensures(normalize, (values[i],), a[i]));
        assert(call_ensures(normalize, (values[i],), b[i]));
    }
    assert(a =~= b);
}

/// Decoding an even-length L16 stream and encoding the samples again gives the
/// same bytes, when quantizing undoes normalizing.
pub proof fn lemma_pcm_bytes_round_trip<Q: Fn(u32) -> i16, N: Fn(i16) -> u32>(
    quantize: Q,
    normalize: N,
    bytes: Seq<u8>,
    samples: Seq<u32>,
    again: Seq<u8>,
)
    requires
        bytes.len() % 2 == 0,
        forall|v: i16, x: u32, w: i16|
            call_ensures(normalize, (v,), x) && call_ensures(quantize, (x,), w) ==> w == v,
        normalized(normalize, l16_decode(bytes), samples),
        encodes(quantize, samples, again),
    ensures
        again == bytes,
{
    assert(l16_decode(again) =~= l16_decode(bytes)) by {
        assert forall|i: int| 0 <= i < samples.len() implies l16_decode(again)[i] == l16_decode(bytes)[i] by {
            assert(call_ensures(normalize, (l16_decode(bytes)[i],), samples[i]));
            assert(call_ensures(quantize, (samples[i],), l16_decode(again)[i]));
        }
    }
    lemma_encode_decode(again);
    lemma_encode_decode(bytes);
}

/// Normalized f32 samples, mono, at the sample rate of the PCM they came from.
#[derive(Debug)]
pub struct Samples {
    bits: Vec<u32>,
}

impl Clone for Samples {
    fn clone(&self) -> (r: Self)
        ensures
            r@ == self@,
    {
        Samples { bits: vstd::slice::slice_to_vec(self.bits.as_slice()) }
    }
}

impl Default for Samples {
    fn default() -> (s: Self)
        ensures
            s@ == Seq::<u32>::empty(),
    {
        Samples::new()
    }
}

impl View for Samples {
    type V = Seq<u32>;

    closed spec fn view(&self) -> Seq<u32> {
        self.bits@
    }
}

/// Whether two samples, given by their bits, compare equal as `f32` values:
/// a NaN (all exponent bits set, nonzero fraction) equals nothing, `+0.0`
/// equals `-0.0`, and otherwise the bits must agree.
pub open spec fn same_sample(a: u32, b: u32) -> bool {
    let ma = a % 0x8000_0000;
    let mb = b % 0x8000_0000;
    &&& ma <= 0x7f80_0000
    &&& mb <= 0x7f80_0000
    &&& (a == b || (ma == 0 && mb == 0))
}

/// `f32` comparison of two samples, from the IEEE-754 single layout: a NaN
/// (exponent field all ones, fraction nonzero) equals nothing; zeros of
/// either sign are equal; any other two samples are equal exactly when their
/// bits are.
pub proof fn lemma_same_sample_is_f32_eq(a: u32, b: u32)
    ensures
        same_sample(a, b) == ({
            let a_nan = (a / 0x80_0000) % 0x100 == 0xff && a % 0x80_0000 != 0;
            let b_nan = (b / 0x80_0000) % 0x100 == 0xff && b % 0x80_0000 != 0;
            let a_zero = a == 0 || a == 0x8000_0000;
            let b_zero = b == 0 || b == 0x8000_0000;
            !a_nan && !b_nan && (a == b || (a_zero && b_zero))
        }),
{
    assert(((a / 0x80_0000) % 0x100 == 0xff && a % 0x80_0000 != 0) == (a % 0x8000_0000 > 0x7f80_0000))
        by (bit_vector);
    assert(((b / 0x80_0000) % 0x100 == 0xff && b % 0x80_0000 != 0) == (b % 0x8000_0000 > 0x7f80_0000))
        by (bit_vector);
    assert((a == 0 || a == 0x8000_0000) == (a % 0x8000_0000 == 0)) by (bit_vector);
    assert((b == 0 || b == 0x8000_0000) == (b % 0x8000_0000 == 0)) by (bit_vector);
}

/// `f32` equality of two samples given by their bits.
pub fn sample_eq(a: u32, b: u32) -> (r: bool)
    ensures
        r == same_sample(a, b),
{
    let ma = a & 0x7fff_ffff;
    let mb = b & 0x7fff_ffff;
    assert(a & 0x7fff_ffff == a % 0x8000_0000) by (bit_vector);
    assert(b & 0x7fff_ffff == b % 0x8000_0000) by (bit_vector);
    ma <= 0x7f80_0000 && mb <= 0x7f80_0000 && (a == b || (ma == 0 && mb == 0))
}

impl PartialEq for Samples {
    fn eq(&self, other: &Samples) -> (r: bool) {
        let n = self.bits.len();
        if n != other.bits.len() {
            return false;
        }
        let mut i: usize = 0;
        while i < n
            invariant
                n == self@.len(),
                n == other@.len(),
                i <= n,
                forall|j: int| 0 <= j < i ==> same_sample(#[trigger] self@[j], other@[j]),
            decreases n - i,
        {
            if !sample_eq(self.bits[i], other.bits[i]) {
                return false;
            }
            i = i + 1;
        }
        true
    }
}

impl vstd::std_specs::cmp::PartialEqSpecImpl for Samples {
    open spec fn obeys_eq_spec() -> bool {
        true
    }

    open spec fn eq_spec(&self, other: &Samples) -> bool {
        &&& self@.len() == other@.len()
        &&& forall|i: int| 0 <= i < self@.len() ==> same_sample(#[trigger] self@[i], other@[i])
    }
}

impl From<Vec<u32>> for Samples {
    fn from(v: Vec<u32>) -> (s: Self)
        ensures
            s@ == v@,
    {
        Samples { bits: v }
    }
}

impl From<Samples> for Vec<u32> {
    fn from(s: Samples) -> (v: Self)
        ensures
            v@ == s@,
    {
        s.bits
    }
}

impl vstd::std_specs::convert::FromSpecImpl<Samples> for Vec<u32> {
    open spec fn obeys_from_spec() -> bool {
        true
    }

    closed spec fn from_spec(s: Samples) -> Vec<u32> {
        s.bits
    }
}

impl vstd::std_specs::convert::FromSpecImpl<Vec<u32>> for Samples {
    open spec fn obeys_from_spec() -> bool {
        true
    }

    closed spec fn from_spec(v: Vec<u32>) -> Samples {
        Samples { bits: v }
    }
}

/// Replace the contents of `out` with the samples of the L16 stream `bytes`,
/// each mapped by `normalize`; a trailing odd byte is ignored.
fn pcm_bytes_to_samples_into<F: Fn(i16) -> u32>(bytes: &[u8], out: &mut Vec<u32>, normalize: F)
    requires
        accepts_all_values(normalize, l16_decode(bytes@)),
    ensures
        normalized(normalize, l16_decode(bytes@), final(out)@),
{
    let sample_count = bytes.len() / 2;
    out.clear();
    let ghost values = l16_decode(bytes@);
    let mut i: usize = 0;
    while i < sample_count
        invariant
            sample_count == values.len(),
            sample_count == bytes@.len() / 2,
            bytes@.len() == bytes.len(),
            values == l16_decode(bytes@),
            i <= sample_count,
            accepts_all_values(normalize, values),
            out@.len() == i,
            forall|j: int| 0 <= j < i ==> call_ensures(normalize, (values[j],), #[trigger] out@[j]),
        decreases sample_count - i,
    {
        assert(2 * i + 1 < bytes@.len());
        let v = read_le_pair(bytes[2 * i], bytes[2 * i + 1]);
        assert(v == values[i as int]);
        out.push(normalize(v));
        i = i + 1;
    }
}

/// The samples of the L16 stream `bytes`, each mapped by `normalize`; a
/// trailing odd byte is ignored.
fn pcm_bytes_to_samples<F: Fn(i16) -> u32>(bytes: &[u8], normalize: F) -> (floats: Vec<u32>)
    requires
        accepts_all_values(normalize, l16_decode(bytes@)),
    ensures
        normalized(normalize, l16_decode(bytes@), floats@),
{
    let mut floats = Vec::with_capacity(bytes.len() / 2);
    pcm_bytes_to_samples_into(bytes, &mut floats, normalize);
    floats
}

impl Samples {
    /// Create an empty sample buffer.
    pub fn new() -> (s: Self)
        ensures
            s@ == Seq::<u32>::empty(),
    {
        Samples { bits: Vec::new() }
    }

    /// A buffer holding a copy of `s`.
    pub fn from_slice(s: &[u32]) -> (r: Self)
        ensures
            r@ == s@,
    {
        Samples { bits: vstd::slice::slice_to_vec(s) }
    }

    /// Number of samples.
    pub fn len(&self) -> (n: usize)
        ensures
            n == self@.len(),
    {
        self.bits.len()
    }

    /// True when the buffer is empty.
    pub fn is_empty(&self) -> (b: bool)
        ensures
            b == (self@.len() == 0),
    {
        self.bits.len() == 0
    }

    /// Consume the wrapper and return the inner bit patterns.
    pub fn into_inner(self) -> (v: Vec<u32>)
        ensures
            v@ == self@,
    {
        self.bits
    }

    /// Return only the trailing `max_len` samples, discarding the head.
    ///
    /// If `self` is no longer than `max_len`, returns a copy unchanged.
    pub fn trim_tail(&self, max_len: usize) -> (t: Samples)
        ensures
            self@.len() > max_len ==> t@ == self@.skip(self@.len() - max_len),
            self@.len() <= max_len ==> t@ == self@,
    {
        let n = self.bits.len();
        if n > max_len {
            let tail = vstd::slice::slice_subrange(self.bits.as_slice(), n - max_len, n);
            Samples { bits: vstd::slice::slice_to_vec(tail) }
        } else {
            Samples { bits: vstd::slice::slice_to_vec(self.bits.as_slice()) }
        }
    }

    /// The samples as a slice of bit patterns.
    pub fn as_slice(&self) -> (s: &[u32])
        ensures
            s@ == self@,
    {
        self.bits.as_slice()
    }

    /// Append `items` after the existing samples.
    pub fn extend(&mut self, items: Vec<u32>)
        ensures
            final(self)@ == old(self)@ + items@,
    {
        let mut items = items;
        self.bits.append(&mut items);
    }

    /// Append the L16 bytes of every sample, quantized by `quantize`, to `out`.
    fn write_bytes_extend_to<F: Fn(u32) -> i16>(&self, out: &mut Vec<u8>, quantize: F)
        requires
            accepts_all(quantize, self@),
            old(out)@.len() + 2 * self@.len() <= usize::MAX,
        ensures
            final(out)@.len() == old(out)@.len() + 2 * self@.len(),
            final(out)@.take(old(out)@.len() as int) == old(out)@,
            encodes(quantize, self@, final(out)@.skip(old(out)@.len() as int)),
    {
        let ghost start = out@;
        let n = self.bits.len();
        let mut i: usize = 0;
        while i < n
            invariant
                n == self@.len(),
                i <= n,
                accepts_all(quantize, self@),
                out@.len() == start.len() + 2 * i,
                start.len() + 2 * n <= usize::MAX,
                out@.take(start.len() as int) == start,
                forall|j: int|
                    0 <= j < i ==> call_ensures(
                        quantize,
                        (self@[j],),
                        from_le_pair(
                            #[trigger] out@[start.len() + 2 * j],
                            out@[start.len() + 2 * j + 1],
                        ),
                    ),
            decreases n - i,
        {
            let v = quantize(self.bits[i]);
            let (lo, hi) = to_le_pair(v);
            proof {
                lemma_le_pair_round_trip(v);
            }
            out.push(lo);
            out.push(hi);
            i = i + 1;
        }
        let ghost tail = out@.skip(start.len() as int);
        assert forall|j: int| 0 <= j < self@.len() implies call_ensures(
            quantize,
            (self@[j],),
            #[trigger] l16_decode(tail)[j],
        ) by {
            assert(tail[2 * j] == out@[start.len() + 2 * j]);
            assert(tail[2 * j + 1] == out@[start.len() + 2 * j + 1]);
        }
    }

    /// Convert to L16 mono PCM bytes, reusing the provided output buffer.
    ///
    /// The buffer is cleared before writing; each sample is mapped by
    /// `quantize` to a signed 16-bit value written little-endian.
    pub fn write_bytes_to<F: Fn(u32) -> i16>(&self, out: &mut Vec<u8>, quantize: F)
        requires
            accepts_all(quantize, self@),
            2 * self@.len() <= usize::MAX,
        ensures
            encodes(quantize, self@, final(out)@),
    {
        out.clear();
        self.write_bytes_extend_to(out, quantize);
        assert(out@.skip(0) =~= out@);
    }

    /// Convert to L16 mono PCM bytes: each sample is mapped by `quantize` to
    /// a signed 16-bit value written little-endian.
    pub fn to_bytes<F: Fn(u32) -> i16>(&self, quantize: F) -> (bytes: Vec<u8>)
        requires
            accepts_all(quantize, self@),
            2 * self@.len() <= usize::MAX,
        ensures
            encodes(quantize, self@, bytes@),
    {
        let mut bytes = Vec::with_capacity(self.bits.len() * 2);
        self.write_bytes_to(&mut bytes, quantize);
        bytes
    }

    /// The samples of the L16 PCM stream `bytes`, each 16-bit value mapped by
    /// `normalize`; a trailing odd byte is ignored.
    pub fn from_pcm_bytes<F: Fn(i16) -> u32>(bytes: &[u8], normalize: F) -> (s: Samples)
        requires
            accepts_all_values(normalize, l16_decode(bytes@)),
        ensures
            normalized(normalize, l16_decode(bytes@), s@),
    {
        Samples { bits: pcm_bytes_to_samples(bytes, normalize) }
    }

    /// Convert raw i16 LE bytes to samples, validating even length.
    pub fn try_from_bytes<F: Fn(i16) -> u32>(bytes: &[u8], normalize: F) -> (r: Result<Samples, Error>)
        requires
            accepts_all_values(normalize, l16_decode(bytes@)),
        ensures
            bytes@.len() % 2 != 0 ==> r is Err && r->Err_0 == Error::ByteLengthNotEven,
            bytes@.len() % 2 == 0 ==> (r matches Ok(s) && normalized(normalize, l16_decode(bytes@), s@)),
    {
        if bytes.len() % 2 != 0 {
            return Err(Error::ByteLengthNotEven);
        }
        Ok(Samples { bits: pcm_bytes_to_samples(bytes, normalize) })
    }

    /// Convert raw i16 LE bytes into a reusable output buffer.
    ///
    /// The output buffer is cleared only after the input byte length is
    /// validated: on an odd length it is left as it was.
    pub fn try_from_bytes_into<F: Fn(i16) -> u32>(bytes: &[u8], out: &mut Vec<u32>, normalize: F) -> (r: Result<(), Error>)
        requires
            accepts_all_values(normalize, l16_decode(bytes@)),
        ensures
            bytes@.len() % 2 != 0 ==> r is Err && r->Err_0 == Error::ByteLengthNotEven && final(out)@ == old(out)@,
            bytes@.len() % 2 == 0 ==> r is Ok && normalized(normalize, l16_decode(bytes@), final(out)@),
    {
        if bytes.len() % 2 != 0 {
            return Err(Error::ByteLengthNotEven);
        }
        pcm_bytes_to_samples_into(bytes, out, normalize);
        Ok(())
    }

    /// The little-endian bytes of each sample's bit pattern, in order.
    pub fn le_bytes(&self) -> (bytes: Vec<u8>)
        requires
            4 * self@.len() <= usize::MAX,
        ensures
            bytes@ == words_to_le_bytes(self@),
    {
        let n = self.bits.len();
        let mut bytes: Vec<u8> = Vec::with_capacity(4 * n);
        let mut i: usize = 0;
        while i < n
            invariant
                n == self@.len(),
                i <= n,
                bytes@ == words_to_le_bytes(self@.take(i as int)),
            decreases n - i,
        {
            let w = word_to_le(self.bits[i]);
            let ghost before = bytes@;
            bytes.push(w[0]);
            bytes.push(w[1]);
            bytes.push(w[2]);
            bytes.push(w[3]);
            proof {
                let next = self@.take(i + 1);
                assert forall|k: int| 0 <= k < 4 * (i + 1) implies #[trigger] bytes@[k]
                    == words_to_le_bytes(next)[k] by {
                    if k < 4 * i {
                        assert(self@.take(i as int)[k / 4] == next[k / 4]);
                    } else {
                        assert(k / 4 == i);
                    }
                }
                assert(bytes@ =~= words_to_le_bytes(next));
            }
            i = i + 1;
        }
        assert(self@.take(n as int) =~= self@);
        bytes
    }

    /// Samples read from `bytes` four at a time as little-endian bit
    /// patterns; 1 to 3 bytes after the last whole group are ignored.
    pub fn from_le_bytes(bytes: &[u8]) -> (s: Samples)
        ensures
            s@ == le_bytes_to_words(bytes@),
    {
        let n = bytes.len() / 4;
        let mut bits: Vec<u32> = Vec::with_capacity(n);
        let mut i: usize = 0;
        while i < n
            invariant
                n == bytes@.len() / 4,
                bytes@.len() == bytes.len(),
                i <= n,
                bits@.len() == i,
                forall|j: int| 0 <= j < i ==> #[trigger] bits@[j] == le_bytes_to_words(bytes@)[j],
            decreases n - i,
        {
            assert(4 * i + 3 < bytes@.len());
            let w = word_from_le_bytes(bytes[4 * i], bytes[4 * i + 1], bytes[4 * i + 2], bytes[4 * i + 3]);
            bits.push(w);
            i = i + 1;
        }
        assert(bits@ =~= le_bytes_to_words(bytes@));
        Samples { bits }
    }

    /// Encode this buffer as a base64 string (standard alphabet, padded) of
    /// the samples' little-endian bytes. `Samples::from_b64` reads the
    /// samples back from it.
    pub fn to_b64(&self) -> (text: String)
        requires
            4 * ((4 * self@.len() + 2) / 3) <= usize::MAX,
        ensures
            text@ == base64_encode(words_to_le_bytes(self@)),
            text@.len() == 4 * ((4 * self@.len() + 2) / 3),
            samples_from_base64(text@) is Ok && samples_from_base64(text@)->Ok_0 == self@,
    {
        let bytes = self.le_bytes();
        let text = standard_encode(bytes.as_slice());
        proof {
            lemma_words_round_trip(self@);
        }
        text
    }

    /// Decode a base64 string (standard alphabet) into a sample buffer; the
    /// decoded bytes are read four at a time as little-endian bit patterns.
    /// Only the canonical padded encoding of some bytes is accepted.
    pub fn from_b64(s: &str) -> (r: Result<Samples, Base64Error>)
        ensures
            match r {
                Ok(x) => samples_from_base64(s@) is Ok && samples_from_base64(s@)->Ok_0 == x@,
                Err(e) => samples_from_base64(s@) is Err && samples_from_base64(s@)->Err_0 == e,
            },
            r is Ok ==> exists|bytes: Seq<u8>|
                #![trigger base64_encode(bytes)]
                base64_encode(bytes) == s@ && r->Ok_0@ == le_bytes_to_words(bytes),
    {
        match standard_decode(s) {
            Ok(bytes) => Ok(Samples::from_le_bytes(bytes.as_slice())),
            Err(e) => Err(e),
        }
    }
}

} // verus!
