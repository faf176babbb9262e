//! Standard base64 (RFC 4648 alphabet, with `=` padding) through the
//! `base64` crate.
use vstd::prelude::*;

verus! {

/// Why a text is not standard base64; the variants and their fields are
/// those of `base64::DecodeError`.
#[derive(Debug, Clone, Copy, PartialEq, Eq, Structural)]
pub enum Base64Error {
    /// A byte that is not in the alphabet, with its offset.
    InvalidByte(usize, u8),
    /// The number of base64 symbols is not a valid length.
    InvalidLength(usize),
    /// The last symbol has nonzero bits that decoding would discard, with its
    /// offset.
    InvalidLastSymbol(usize, u8),
    /// The padding is absent or not canonical.
    InvalidPadding,
}

/// The symbol of the standard base64 alphabet (RFC 4648, table 1) for a
/// 6-bit value.
pub open spec fn base64_symbol(v: int) -> char {
    if v < 26 {
        (65 + v) as char  // 'A' ..= 'Z'
    } else if v < 52 {
        (97 + (v - 26)) as char  // 'a' ..= 'z'
    } else if v < 62 {
        (48 + (v - 52)) as char  // '0' ..= '9'
    } else if v == 62 {
        '+'
    } else {
        '/'
    }
}

/// The four symbols for a group of 1 to 3 bytes: the group's bits, most
/// significant first and zero-filled, read six at a time, with `=` for each
/// missing byte.
pub open spec fn base64_group(group: Seq<u8>) -> Seq<char> {
    let b0 = group[0] as int;
    let b1 = if group.len() > 1 { group[1] as int } else { 0 };
    let b2 = if group.len() > 2 { group[2] as int } else { 0 };
    let n = b0 * 0x10000 + b1 * 0x100 + b2;
    seq![
        base64_symbol(n / 0x40000),
        base64_symbol((n / 0x1000) % 64),
        if group.len() > 1 { base64_symbol((n / 64) % 64) } else { '=' },
        if group.len() > 2 { base64_symbol(n % 64) } else { '=' },
    ]
}

/// Standard padded base64 (RFC 4648, section 4) of `bytes`: one group of
/// four symbols for every three bytes, the last group padded.
pub open spec fn base64_encode(bytes: Seq<u8>) -> Seq<char>
    decreases bytes.len(),
{
    if bytes.len() == 0 {
        seq![]
    } else if bytes.len() <= 3 {
        base64_group(bytes)
    } else {
        base64_group(bytes.take(3)) + base64_encode(bytes.skip(3))
    }
}

/// What `STANDARD.decode` gives for `text`: the bytes, or why it fails.
pub uninterp spec fn base64_decode(text: Seq<char>) -> Result<Seq<u8>, Base64Error>;

/// Calls `base64::Engine::encode` on the `STANDARD` engine. Trusted: the
/// result is the RFC 4648 padded encoding `base64_encode` (the `STANDARD`
/// alphabet and `PAD` configuration), 4 symbols for each started group of 3
/// bytes, and `STANDARD.decode` gives the bytes back from it (which the crate's
/// round-trip tests check). The call panics when the encoded length overflows `usize`,
/// which `requires` rules out.
#[verifier::external_body]
pub(crate) fn standard_encode(bytes: &[u8]) -> (text: String)
    requires
        4 * ((bytes@.len() + 2) / 3) <= usize::MAX,
    ensures
        text@ == base64_encode(bytes@),
        text@.len() == 4 * ((bytes@.len() + 2) / 3),
        base64_decode(text@) is Ok && base64_decode(text@)->Ok_0 == bytes@,
{
    ::base64::Engine::encode(&::base64::engine::general_purpose::STANDARD, bytes)
}

/// Calls `base64::Engine::decode` on the `STANDARD` engine and carries each
/// `base64::DecodeError` variant over to `Base64Error` with its fields.
/// Trusted: the result is named `base64_decode`, and a text is accepted only
/// when it is the canonical padded encoding of the bytes returned (the
/// `STANDARD` engine requires canonical padding and zero trailing bits);
/// which error, at which offset, is not stated beyond the name.
#[verifier::external_body]
pub(crate) fn standard_decode(text: &str) -> (r: Result<Vec<u8>, Base64Error>)
    ensures
        match r {
            Ok(bytes) => base64_decode(text@) is Ok && base64_decode(text@)->Ok_0 == bytes@
                && base64_encode(bytes@) == text@,
            Err(e) => base64_decode(text@) is Err && base64_decode(text@)->Err_0 == e,
        },
{
    match ::base64::Engine::decode(&::base64::engine::general_purpose::STANDARD, text) {
        Ok(bytes) => Ok(bytes),
        Err(::base64::DecodeError::InvalidByte(at, b)) => Err(Base64Error::InvalidByte(at, b)),
        Err(::base64::DecodeError::InvalidLength(n)) => Err(Base64Error::InvalidLength(n)),
        Err(::base64::DecodeError::InvalidLastSymbol(at, b)) => Err(Base64Error::InvalidLastSymbol(at, b)),
        Err(::base64::DecodeError::InvalidPadding) => Err(Base64Error::InvalidPadding),
    }
}

} // verus!
