# samples

Normalized mono audio samples and their byte encodings, verified with Verus.

- `src/l16.rs`: L16 PCM (signed 16-bit, little-endian) encoding and decoding
  of sample values, with round-trip lemmas.
- `src/words.rs`: 32-bit little-endian words, with round-trip lemmas.
- `src/samples.rs`: the `Samples` buffer. Each sample is held as the bit
  pattern of an `f32`; conversions to and from PCM take the per-sample float
  mapping as a function argument. Base64 transport of the samples.
- `src/b64.rs`: the calls into the `base64` crate and what is assumed of them.
- `src/error.rs`: the error type.
- `app/`: the `f32` face of the library: the float mapping (clamp, scale,
  normalize), serde support and `Display` for the error.

The registry's `pcm` crate is an unrelated placeholder without a `PCM` type,
so the conversions between `Samples` and `pcm::PCM` are offered over byte
slices: `Samples::from_pcm_bytes` reads a PCM byte stream and
`Samples::to_bytes` writes one.
