use nalcore::bitstream::{BitReader, BitReaderError};

fn bits_to_bytes(bits: &str) -> Vec<u8> {
    let mut bytes = Vec::with_capacity(bits.len().div_ceil(8));
    for chunk in bits.as_bytes().chunks(8) {
        let mut byte = 0_u8;
        for (index, bit) in chunk.iter().enumerate() {
            assert!(matches!(bit, b'0' | b'1'));
            if *bit == b'1' {
                byte |= 0x80 >> index;
            }
        }
        bytes.push(byte);
    }
    bytes
}

fn reference_bits(input: &[u8], start: usize, width: usize) -> u64 {
    (0..width).fold(0_u64, |value, offset| {
        let position = start + offset;
        let bit = (input[position / 8] >> (7 - position % 8)) & 1;
        (value << 1) | u64::from(bit)
    })
}

fn assert_failed_read_preserves_position<'a, T>(
    input: &'a [u8],
    start: usize,
    operation: impl FnOnce(&mut BitReader<'a>) -> Result<T, BitReaderError>,
) {
    let mut reader = BitReader::new(input);
    reader.skip_bits(start).unwrap();
    let before = reader.remaining_bits();
    if operation(&mut reader).is_err() {
        assert_eq!(reader.remaining_bits(), before);
    }
}

#[test]
fn reads_bits_most_significant_bit_first() {
    let mut reader = BitReader::new(&[0b1011_0010, 0b0110_1101]);

    assert_eq!(reader.read_bit(), Ok(true));
    assert_eq!(reader.read_bits(3), Ok(0b011));
    assert_eq!(reader.read_bits(6), Ok(0b001001));
    assert_eq!(reader.read_bits(6), Ok(0b101101));
    assert_eq!(reader.remaining_bits(), 0);
}

#[test]
fn reads_all_widths_at_all_bit_alignments() {
    let input = [0x00, 0xff, 0xa5, 0x3c, 0x81, 0x7e, 0x42, 0x99, 0x13, 0x57];

    for start in 0..=16 {
        for width in 0..=64 {
            let mut reader = BitReader::new(&input);
            reader.skip_bits(start).unwrap();
            assert_eq!(
                reader.read_bits(width),
                Ok(reference_bits(&input, start, width)),
                "start={start}, width={width}"
            );
            assert_eq!(reader.remaining_bits(), input.len() * 8 - start - width);
        }
    }
}

#[test]
fn reads_signed_twos_complement_fields() {
    let cases = [
        ("0", 1, 0),
        ("1", 1, -1),
        ("0111", 4, 7),
        ("1000", 4, -8),
        ("1111", 4, -1),
        ("10000000", 8, -128),
        ("01111111", 8, 127),
    ];

    for (bits, width, expected) in cases {
        let bytes = bits_to_bytes(bits);
        assert_eq!(
            BitReader::new(&bytes).read_signed_bits(width),
            Ok(expected),
            "bits={bits}"
        );
    }

    assert_eq!(
        BitReader::new(&i64::MIN.to_be_bytes()).read_signed_bits(64),
        Ok(i64::MIN)
    );
    assert_eq!(
        BitReader::new(&i64::MAX.to_be_bytes()).read_signed_bits(64),
        Ok(i64::MAX)
    );
}

#[test]
fn rejects_invalid_widths_without_advancing() {
    let mut reader = BitReader::new(&[0xff]);

    assert_eq!(
        reader.read_bits(65),
        Err(BitReaderError::InvalidWidth {
            width: 65,
            maximum: 64,
        })
    );
    assert_eq!(
        reader.read_signed_bits(0),
        Err(BitReaderError::InvalidWidth {
            width: 0,
            maximum: 64,
        })
    );
    assert_eq!(
        reader.read_signed_bits(65),
        Err(BitReaderError::InvalidWidth {
            width: 65,
            maximum: 64,
        })
    );
    assert_eq!(reader.remaining_bits(), 8);
    assert_eq!(reader.read_bits(0), Ok(0));
    assert_eq!(reader.remaining_bits(), 8);
}

#[test]
fn reports_eof_and_keeps_position_for_fixed_width_operations() {
    let mut reader = BitReader::new(&[0b1010_0000]);
    reader.skip_bits(5).unwrap();

    assert_eq!(
        reader.read_bits(4),
        Err(BitReaderError::UnexpectedEof {
            requested: 4,
            remaining: 3,
        })
    );
    assert_eq!(reader.remaining_bits(), 3);
    assert_eq!(
        reader.skip_bits(4),
        Err(BitReaderError::UnexpectedEof {
            requested: 4,
            remaining: 3,
        })
    );
    assert_eq!(reader.read_bits(3), Ok(0));
    assert_eq!(
        reader.read_bit(),
        Err(BitReaderError::UnexpectedEof {
            requested: 1,
            remaining: 0,
        })
    );
}

#[test]
fn skips_across_byte_boundaries() {
    let mut reader = BitReader::new(&[0xaa, 0x55, 0xf0]);

    reader.skip_bits(0).unwrap();
    reader.skip_bits(7).unwrap();
    assert_eq!(reader.read_bits(2), Ok(0));
    reader.skip_bits(8).unwrap();
    assert_eq!(reader.remaining_bits(), 7);
    assert_eq!(reader.read_bits(7), Ok(0x70));
}

#[test]
fn decodes_unsigned_exp_golomb_values() {
    let codes = [
        ("1", 0),
        ("010", 1),
        ("011", 2),
        ("00100", 3),
        ("00101", 4),
        ("00110", 5),
        ("00111", 6),
        ("0001000", 7),
        ("0001011", 10),
        ("000010001", 16),
    ];

    for (bits, expected) in codes {
        let bytes = bits_to_bytes(bits);
        let mut reader = BitReader::new(&bytes);
        assert_eq!(reader.read_ue(), Ok(expected), "bits={bits}");
        assert_eq!(reader.remaining_bits(), bytes.len() * 8 - bits.len());
    }
}

#[test]
fn decodes_signed_exp_golomb_values() {
    let codes = [
        ("1", 0),
        ("010", 1),
        ("011", -1),
        ("00100", 2),
        ("00101", -2),
        ("00110", 3),
        ("00111", -3),
    ];

    for (bits, expected) in codes {
        let bytes = bits_to_bytes(bits);
        assert_eq!(
            BitReader::new(&bytes).read_se(),
            Ok(expected),
            "bits={bits}"
        );
    }
}

#[test]
fn decodes_exp_golomb_values_at_every_bit_alignment() {
    for alignment in 0..8 {
        let prefix = "1".repeat(alignment);
        let encoded = format!("{prefix}0001011");
        let bytes = bits_to_bytes(&encoded);
        let mut reader = BitReader::new(&bytes);
        reader.skip_bits(alignment).unwrap();

        assert_eq!(reader.read_ue(), Ok(10), "alignment={alignment}");
    }
}

#[test]
fn handles_exp_golomb_boundaries_and_overflow() {
    let maximum = format!("{}1{}", "0".repeat(64), "0".repeat(64));
    let bytes = bits_to_bytes(&maximum);
    assert_eq!(BitReader::new(&bytes).read_ue(), Ok(u64::MAX));

    let unsigned_overflow = format!("{}1{}1", "0".repeat(64), "0".repeat(63));
    let bytes = bits_to_bytes(&unsigned_overflow);
    let mut reader = BitReader::new(&bytes);
    assert_eq!(reader.read_ue(), Err(BitReaderError::Overflow));
    assert_eq!(reader.remaining_bits(), bytes.len() * 8);

    let prefix_overflow = format!("{}1", "0".repeat(65));
    let bytes = bits_to_bytes(&prefix_overflow);
    assert_eq!(
        BitReader::new(&bytes).read_ue(),
        Err(BitReaderError::Overflow)
    );

    let signed_overflow = maximum;
    let bytes = bits_to_bytes(&signed_overflow);
    let mut reader = BitReader::new(&bytes);
    assert_eq!(reader.read_se(), Err(BitReaderError::Overflow));
    assert_eq!(reader.remaining_bits(), bytes.len() * 8);
}

#[test]
fn reports_truncated_exp_golomb_codes_without_advancing() {
    for bits in ["", "0", "00", "00000000", "001", "00010"] {
        let padding_bits = (8 - bits.len() % 8) % 8;
        let encoded = format!("{}{bits}", "0".repeat(padding_bits));
        let bytes = bits_to_bytes(&encoded);
        let mut reader = BitReader::new(&bytes);
        reader.skip_bits(padding_bits).unwrap();
        let remaining = reader.remaining_bits();

        assert!(
            matches!(reader.read_ue(), Err(BitReaderError::UnexpectedEof { .. })),
            "bits={bits}"
        );
        assert_eq!(reader.remaining_bits(), remaining, "bits={bits}");
    }
}

#[test]
fn all_short_inputs_and_operation_widths_are_panic_free() {
    for value in 0_u16..=u16::MAX {
        let input = value.to_be_bytes();
        for start in 0..=input.len() * 8 {
            for width in [0, 1, 7, 8, 9, 15, 16, 17, 63, 64, 65, usize::MAX] {
                let mut reader = BitReader::new(&input);
                reader.skip_bits(start).unwrap();
                let before = reader.remaining_bits();
                let result = reader.read_bits(width);
                if result.is_err() {
                    assert_eq!(reader.remaining_bits(), before);
                }
            }

            assert_failed_read_preserves_position(&input, start, BitReader::read_bit);
            assert_failed_read_preserves_position(&input, start, BitReader::read_ue);
            assert_failed_read_preserves_position(&input, start, BitReader::read_se);

            for count in [0, 1, 8, 16, 17, usize::MAX] {
                let mut reader = BitReader::new(&input);
                reader.skip_bits(start).unwrap();
                let before = reader.remaining_bits();
                if reader.skip_bits(count).is_err() {
                    assert_eq!(reader.remaining_bits(), before);
                }
            }
        }
    }
}
