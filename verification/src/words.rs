//! 32-bit words stored as four bytes, least significant byte first.
use vstd::prelude::*;

verus! {

/// The four little-endian bytes of `w`.
pub open spec fn word_le_bytes(w: u32) -> Seq<u8> {
    seq![
        (w % 0x100) as u8,
        ((w / 0x100) % 0x100) as u8,
        ((w / 0x10000) % 0x100) as u8,
        (w / 0x1000000) as u8,
    ]
}

/// The word whose little-endian bytes are `b0`, `b1`, `b2`, `b3`.
pub open spec fn word_from_le(b0: u8, b1: u8, b2: u8, b3: u8) -> u32 {
    (b0 + 0x100 * b1 + 0x10000 * b2 + 0x1000000 * b3) as u32
}

/// The little-endian bytes of each word in turn.
pub open spec fn words_to_le_bytes(words: Seq<u32>) -> Seq<u8> {
    Seq::new(4 * words.len(), |k: int| word_le_bytes(words[k / 4])[k % 4])
}

/// The words read from consecutive groups of four bytes; the 1 to 3 bytes
/// after the last whole group are not part of any word.
pub open spec fn le_bytes_to_words(bytes: Seq<u8>) -> Seq<u32> {
    Seq::new(
        bytes.len() / 4,
        |i: int| word_from_le(bytes[4 * i], bytes[4 * i + 1], bytes[4 * i + 2], bytes[4 * i + 3]),
    )
}

/// The four little-endian bytes of `w`.
pub fn word_to_le(w: u32) -> (r: [u8; 4])
    ensures
        r@ == word_le_bytes(w),
{
    assert((w & 0xff) as u8 == (w % 0x100) as u8) by (bit_vector);
    assert(((w >> 8u32) & 0xff) as u8 == ((w / 0x100) % 0x100) as u8) by (bit_vector);
    assert(((w >> 16u32) & 0xff) as u8 == ((w / 0x10000) % 0x100) as u8) by (bit_vector);
    assert((w >> 24u32) as u8 == (w / 0x1000000) as u8) by (bit_vector);
    let r = [(w & 0xff) as u8, ((w >> 8u32) & 0xff) as u8, ((w >> 16u32) & 0xff) as u8, (w >> 24u32) as u8];
    assert(r@ =~= word_le_bytes(w));
    r
}

/// The word stored little-endian in `b0`, `b1`, `b2`, `b3`.
pub fn word_from_le_bytes(b0: u8, b1: u8, b2: u8, b3: u8) -> (w: u32)
    ensures
        w == word_from_le(b0, b1, b2, b3),
{
    assert((b0 as u32) | ((b1 as u32) << 8u32) | ((b2 as u32) << 16u32) | ((b3 as u32) << 24u32)
        == b0 + 0x100 * b1 + 0x10000 * b2 + 0x1000000 * b3) by (bit_vector);
    (b0 as u32) | ((b1 as u32) << 8u32) | ((b2 as u32) << 16u32) | ((b3 as u32) << 24u32)
}

/// Splitting a word into bytes and reading them back gives the word.
pub proof fn lemma_word_round_trip(w: u32)
    ensures
        word_from_le(
            word_le_bytes(w)[0],
            word_le_bytes(w)[1],
            word_le_bytes(w)[2],
            word_le_bytes(w)[3],
        ) == w,
{
    assert(((w % 0x100) as u8 + 0x100 * (((w / 0x100) % 0x100) as u8) + 0x10000 * (((w / 0x10000)
        % 0x100) as u8) + 0x1000000 * ((w / 0x1000000) as u8)) as u32 == w) by (bit_vector);
}

/// Reading a word from four bytes and splitting it again gives the bytes.
pub proof fn lemma_word_bytes_round_trip(b0: u8, b1: u8, b2: u8, b3: u8)
    ensures
        word_le_bytes(word_from_le(b0, b1, b2, b3)) == seq![b0, b1, b2, b3],
{
    let w = word_from_le(b0, b1, b2, b3);
    assert(((b0 + 0x100 * b1 + 0x10000 * b2 + 0x1000000 * b3) as u32) % 0x100 == b0) by (bit_vector);
    assert((((b0 + 0x100 * b1 + 0x10000 * b2 + 0x1000000 * b3) as u32) / 0x100) % 0x100 == b1)
        by (bit_vector);
    assert((((b0 + 0x100 * b1 + 0x10000 * b2 + 0x1000000 * b3) as u32) / 0x10000) % 0x100 == b2)
        by (bit_vector);
    assert(((b0 + 0x100 * b1 + 0x10000 * b2 + 0x1000000 * b3) as u32) / 0x1000000 == b3)
        by (bit_vector);
    assert(word_le_bytes(w) =~= seq![b0, b1, b2, b3]);
}

/// Reading words back from the bytes of any word sequence gives it back.
pub proof fn lemma_words_round_trip(words: Seq<u32>)
    ensures
        le_bytes_to_words(words_to_le_bytes(words)) == words,
{
    let bytes = words_to_le_bytes(words);
    assert forall|i: int| 0 <= i < words.len() implies #[trigger] le_bytes_to_words(bytes)[i]
        == words[i] by {
        assert((4 * i) / 4 == i && (4 * i) % 4 == 0);
        assert((4 * i + 1) / 4 == i && (4 * i + 1) % 4 == 1);
        assert((4 * i + 2) / 4 == i && (4 * i + 2) % 4 == 2);
        assert((4 * i + 3) / 4 == i && (4 * i + 3) % 4 == 3);
        lemma_word_round_trip(words[i]);
    }
    assert(le_bytes_to_words(bytes) =~= words);
}

/// Splitting the words of a byte stream whose length is a multiple of four
/// gives the stream back.
pub proof fn lemma_bytes_words_round_trip(bytes: Seq<u8>)
    requires
        bytes.len() % 4 == 0,
    ensures
        words_to_le_bytes(le_bytes_to_words(bytes)) == bytes,
{
    let words = le_bytes_to_words(bytes);
    assert forall|k: int| 0 <= k < bytes.len() implies #[trigger] words_to_le_bytes(words)[k]
        == bytes[k] by {
        let i = k / 4;
        assert(0 <= i < words.len());
        lemma_word_bytes_round_trip(bytes[4 * i], bytes[4 * i + 1], bytes[4 * i + 2], bytes[4 * i + 3]);
        assert(k == 4 * i + k % 4);
    }
    assert(words_to_le_bytes(words) =~= bytes);
}

/// The bytes of a word sequence: four per word, and the four bytes of word
/// `i` are its base-256 digits, least significant first.
pub proof fn lemma_words_to_le_bytes_layout(words: Seq<u32>)
    ensures
        words_to_le_bytes(words).len() == 4 * words.len(),
        forall|i: int|
            0 <= i < words.len() ==> words_to_le_bytes(words)[4 * i] + 0x100 * words_to_le_bytes(words)[4
                * i + 1] + 0x10000 * words_to_le_bytes(words)[4 * i + 2] + 0x1000000
                * words_to_le_bytes(words)[4 * i + 3] == #[trigger] words[i],
{
    let bytes = words_to_le_bytes(words);
    assert forall|i: int| 0 <= i < words.len() implies bytes[4 * i] + 0x100 * bytes[4 * i + 1]
        + 0x10000 * bytes[4 * i + 2] + 0x1000000 * bytes[4 * i + 3] == #[trigger] words[i] by {
        assert((4 * i) / 4 == i && (4 * i) % 4 == 0);
        assert((4 * i + 1) / 4 == i && (4 * i + 1) % 4 == 1);
        assert((4 * i + 2) / 4 == i && (4 * i + 2) % 4 == 2);
        assert((4 * i + 3) / 4 == i && (4 * i + 3) % 4 == 3);
        let w = words[i];
        assert((w % 0x100) as u8 + 0x100 * (((w / 0x100) % 0x100) as u8) + 0x10000 * (((w / 0x10000)
            % 0x100) as u8) + 0x1000000 * ((w / 0x1000000) as u8) == w) by (bit_vector);
    }
}

/// The words read from a byte stream: one per whole group of four bytes, and
/// word `i` is `bytes[4i] + 256 * bytes[4i + 1] + 65536 * bytes[4i + 2] +
/// 16777216 * bytes[4i + 3]`.
pub proof fn lemma_le_bytes_to_words_layout(bytes: Seq<u8>)
    ensures
        le_bytes_to_words(bytes).len() == bytes.len() / 4,
        forall|i: int|
            0 <= i < bytes.len() / 4 ==> #[trigger] le_bytes_to_words(bytes)[i] == bytes[4 * i] + 0x100
                * bytes[4 * i + 1] + 0x10000 * bytes[4 * i + 2] + 0x1000000 * bytes[4 * i + 3],
{
    assert forall|i: int| 0 <= i < bytes.len() / 4 implies #[trigger] le_bytes_to_words(bytes)[i]
        == bytes[4 * i] + 0x100 * bytes[4 * i + 1] + 0x10000 * bytes[4 * i + 2] + 0x1000000 * bytes[4
        * i + 3] by {
        let (b0, b1, b2, b3) = (bytes[4 * i], bytes[4 * i + 1], bytes[4 * i + 2], bytes[4 * i + 3]);
        assert(((b0 + 0x100 * b1 + 0x10000 * b2 + 0x1000000 * b3) as u32) == b0 + 0x100 * b1 + 0x10000
            * b2 + 0x1000000 * b3) by (bit_vector);
    }
}

proof fn lemma_digits_unique(b0: u8, b1: u8, b2: u8, b3: u8, c0: u8, c1: u8, c2: u8, c3: u8)
    requires
        b0 + 0x100 * b1 + 0x10000 * b2 + 0x1000000 * b3 == c0 + 0x100 * c1 + 0x10000 * c2 + 0x1000000
            * c3,
    ensures
        b0 == c0 && b1 == c1 && b2 == c2 && b3 == c3,
{
    assert(b0 + 0x100 * b1 + 0x10000 * b2 + 0x1000000 * b3 == c0 + 0x100 * c1 + 0x10000 * c2
        + 0x1000000 * c3 ==> b0 == c0 && b1 == c1 && b2 == c2 && b3 == c3) by (bit_vector);
}

/// Any byte sequence whose groups of four are the base-256 digits of the
/// words, least significant first, is their byte form.
pub proof fn lemma_words_to_le_bytes_unique(words: Seq<u32>, bytes: Seq<u8>)
    requires
        bytes.len() == 4 * words.len(),
        forall|i: int|
            0 <= i < words.len() ==> bytes[4 * i] + 0x100 * bytes[4 * i + 1] + 0x10000 * bytes[4 * i + 2]
                + 0x1000000 * bytes[4 * i + 3] == #[trigger] words[i],
    ensures
        words_to_le_bytes(words) == bytes,
{
    let ours = words_to_le_bytes(words);
    lemma_words_to_le_bytes_layout(words);
    assert forall|i: int| #![trigger words[i]] 0 <= i < words.len() implies ours[4 * i] == bytes[4 * i] && ours[4 * i + 1]
        == bytes[4 * i + 1] && ours[4 * i + 2] == bytes[4 * i + 2] && ours[4 * i + 3] == bytes[4 * i
        + 3] by {
        let w = words[i];
        lemma_digits_unique(
            bytes[4 * i],
            bytes[4 * i + 1],
            bytes[4 * i + 2],
            bytes[4 * i + 3],
            ours[4 * i],
            ours[4 * i + 1],
            ours[4 * i + 2],
            ours[4 * i + 3],
        );
    }
    assert forall|k: int| 0 <= k < bytes.len() implies #[trigger] ours[k] == bytes[k] by {
        let i = k / 4;
        assert(0 <= i < words.len());
        assert(k == 4 * i || k == 4 * i + 1 || k == 4 * i + 2 || k == 4 * i + 3);
    }
    assert(ours =~= bytes);
}

} // verus!
