# nalcore

Verified parsing foundations for H.264/AVC bitstreams, written in Verus.

- `src/bitstream.rs`: a most-significant-bit-first bit reader with fixed-width,
  signed and Exp-Golomb reads, specified against a model of the input as a
  sequence of bits.
- `src/nal.rs`: Annex B framing of NAL units and removal of
  emulation-prevention bytes.
- `src/h264.rs`: NAL unit headers and types.
- `src/h264/sps.rs`, `src/h264/pps.rs`: sequence and picture parameter sets.
  Each parser is proved to return exactly what a syntax model of the RBSP
  gives, and laws state what every accepted parameter set satisfies.
- `src/text.rs`: decimal and hexadecimal rendering for error descriptions.
- `tests/`: tests of the library on concrete inputs.
- `app/`: `Display`, `std::error::Error` and `Iterator` over the library's
  types, which the verified crate cannot implement itself.

Every function in `src/` is verified by Verus; none of them panics, and no
contract is trusted without proof.
