//! Normalized mono audio samples and their byte encodings: L16 PCM (signed
//! 16-bit little-endian) and base64 of the samples' 32-bit little-endian words.

pub mod b64;
pub mod error;
pub mod l16;
pub mod samples;
pub mod words;

pub use error::Error;
pub use samples::Samples;
