use nalcore::bitstream::{BitReader, BitReaderError};
use nalcore::h264::pps::{
    PictureParameterSetError, SliceGroups, parse_picture_parameter_set,
};
use nalcore::h264::{
    ChromaFormat, NalUnitType, SequenceParameterSet, SequenceParameterSetError, parse_nal_unit,
    parse_sequence_parameter_set,
};
use nalcore::nal::{annex_b_nal_units, rbsp_from_ebsp};
use std::borrow::Cow;
use std::collections::{BTreeMap, HashMap};

#[derive(Default)]
struct BitWriter {
    bits: Vec<bool>,
}

impl BitWriter {
    fn bit(&mut self, value: bool) {
        self.bits.push(value);
    }

    fn bits(&mut self, value: u64, width: usize) {
        for shift in (0..width).rev() {
            self.bit((value >> shift) & 1 != 0);
        }
    }

    fn ue(&mut self, value: u64) {
        let code_num = value.checked_add(1).unwrap();
        let width = (u64::BITS - code_num.leading_zeros()) as usize;
        self.bits.extend(std::iter::repeat_n(false, width - 1));
        self.bits(code_num, width);
    }

    fn se(&mut self, value: i64) {
        let code_num = if value <= 0 {
            value.unsigned_abs() * 2
        } else {
            value as u64 * 2 - 1
        };
        self.ue(code_num);
    }

    fn finish_rbsp(mut self) -> Vec<u8> {
        self.bit(true);
        while !self.bits.len().is_multiple_of(8) {
            self.bit(false);
        }
        self.bits
            .chunks(8)
            .map(|chunk| {
                chunk.iter().enumerate().fold(0_u8, |byte, (index, bit)| {
                    byte | (u8::from(*bit) << (7 - index))
                })
            })
            .collect()
    }
}

fn baseline_sps(width_minus1: u64, height_minus1: u64) -> SequenceParameterSet {
    let mut writer = BitWriter::default();
    writer.bits(66, 8);
    writer.bits(0, 8);
    writer.bits(30, 8);
    writer.ue(0);
    writer.ue(0);
    writer.ue(0);
    writer.ue(0);
    writer.ue(1);
    writer.bit(false);
    writer.ue(width_minus1);
    writer.ue(height_minus1);
    writer.bit(true);
    writer.bit(true);
    writer.bit(false);
    writer.bit(false);
    parse_sequence_parameter_set(&writer.finish_rbsp()).unwrap()
}

#[test]
fn split_reads_concatenate_to_one_wide_read() {
    let input = [0b1011_0110, 0b0101_1100, 0xa5];
    for first in 0..=12 {
        let second = 20 - first;
        let mut split = BitReader::new(&input);
        let high = split.read_bits(first).unwrap();
        let low = split.read_bits(second).unwrap();
        let mut whole = BitReader::new(&input);
        assert_eq!(whole.read_bits(20).unwrap(), (high << second) | low, "first={first}");
        assert_eq!(whole.remaining_bits(), split.remaining_bits());
    }
}

#[test]
fn zero_width_reads_and_skips_consume_nothing() {
    let input = [0xff, 0x00];
    let mut reader = BitReader::new(&input);
    reader.skip_bits(3).unwrap();
    assert_eq!(reader.read_bits(0), Ok(0));
    assert_eq!(reader.skip_bits(0), Ok(()));
    assert_eq!(reader.remaining_bits(), 13);
    assert_eq!(reader.read_bits(5), Ok(0b11111));
}

#[test]
fn signed_reads_stay_within_their_width() {
    for value in 0_u8..=255 {
        for width in 1..=8 {
            let signed = BitReader::new(&[value]).read_signed_bits(width).unwrap();
            let bound = 1_i64 << (width - 1);
            assert!(-bound <= signed && signed < bound, "value={value}, width={width}");
            let unsigned = BitReader::new(&[value]).read_bits(width).unwrap() as i64;
            assert!(signed == unsigned || signed == unsigned - 2 * bound);
        }
    }
}

#[test]
fn exp_golomb_codes_map_to_alternating_signed_values() {
    let mut writer = BitWriter::default();
    for code in 0..20 {
        writer.ue(code);
    }
    let bytes = writer.finish_rbsp();
    let mut unsigned = BitReader::new(&bytes);
    let mut signed = BitReader::new(&bytes);
    for code in 0..20_u64 {
        assert_eq!(unsigned.read_ue(), Ok(code));
        let expected = if code % 2 == 0 {
            -((code / 2) as i64)
        } else {
            code.div_ceil(2) as i64
        };
        assert_eq!(signed.read_se(), Ok(expected));
    }
}

#[test]
fn truncated_suffix_reports_the_suffix_width() {
    let bytes = [0b0000_0001];
    let mut reader = BitReader::new(&bytes);
    reader.skip_bits(4).unwrap();
    assert_eq!(
        reader.read_ue(),
        Err(BitReaderError::UnexpectedEof {
            requested: 3,
            remaining: 0,
        })
    );
    assert_eq!(reader.remaining_bits(), 4);
    assert_eq!(
        BitReader::new(&bytes).read_bits(9).unwrap_err().to_string(),
        "unexpected end of input: requested 9 bits, 8 remain"
    );
}

#[test]
fn bit_reader_errors_have_stable_descriptions() {
    assert_eq!(
        BitReaderError::InvalidWidth {
            width: 65,
            maximum: 64
        }
        .to_string(),
        "invalid bit width 65; maximum is 64"
    );
    assert_eq!(
        BitReaderError::Overflow.to_string(),
        "decoded value overflows its return type"
    );
    assert_eq!(
        BitReaderError::UnexpectedEof {
            requested: 12,
            remaining: 0
        }
        .to_string(),
        "unexpected end of input: requested 12 bits, 0 remain"
    );
}

#[test]
fn framed_units_hold_no_start_code_and_no_trailing_zero() {
    let input = [
        0, 0, 0, 1, 0x67, 0, 0, 3, 1, 0, 0, 1, 0x68, 0xee, 0, 0, 0, 0, 1, 0x65, 0, 0,
    ];
    let mut units = annex_b_nal_units(&input);
    let mut collected = Vec::new();
    while let Some(unit) = units.next() {
        collected.push(unit.to_vec());
    }
    assert_eq!(
        collected,
        vec![vec![0x67, 0, 0, 3, 1], vec![0x68, 0xee], vec![0x65]]
    );
    for unit in &collected {
        assert!(unit.windows(3).all(|w| w != [0, 0, 1]));
        assert_ne!(unit.last(), Some(&0));
    }
    assert_eq!(units.next(), None);
}

#[test]
fn rbsp_keeps_every_byte_that_is_not_an_emulation_prevention_byte() {
    let ebsp = [0x25, 0, 0, 3, 0, 0, 3, 1, 0x7f];
    let rbsp = rbsp_from_ebsp(&ebsp).unwrap();
    assert!(matches!(rbsp, Cow::Owned(_)));
    assert_eq!(rbsp.as_ref(), [0x25, 0, 0, 0, 0, 1, 0x7f]);
    assert_eq!(rbsp.len() + 2, ebsp.len());

    let plain = [0, 0, 4, 0, 0x80];
    let rbsp = rbsp_from_ebsp(&plain).unwrap();
    assert!(matches!(rbsp, Cow::Borrowed(_)));
    assert_eq!(rbsp.as_ref(), plain);
}

#[test]
fn rbsp_error_descriptions_render_offsets_in_decimal() {
    let mut ebsp = vec![0xaa; 12];
    ebsp.extend_from_slice(&[0, 0, 2]);
    let error = rbsp_from_ebsp(&ebsp).unwrap_err();
    assert_eq!(
        error.to_string(),
        "forbidden unescaped sequence ending in 0x02 at byte offset 14"
    );
}

#[test]
fn nal_header_bits_are_all_kept() {
    for header in 0_u8..0x80 {
        let input = [header];
        let unit = parse_nal_unit(&input).unwrap();
        let rebuilt =
            (unit.header().nal_ref_idc() << 5) | unit.header().nal_unit_type().raw_value();
        assert_eq!(rebuilt, header);
    }
}

#[test]
fn nal_unit_type_values_round_trip() {
    for value in 0_u8..=31 {
        let kind = NalUnitType::from_raw(value).unwrap();
        assert_eq!(kind.raw_value(), value);
        assert_eq!(NalUnitType::from_raw(kind.raw_value()), Some(kind));
    }
}

#[test]
fn chroma_format_idc_values() {
    assert_eq!(ChromaFormat::Monochrome.idc(), 0);
    assert_eq!(ChromaFormat::Yuv420.idc(), 1);
    assert_eq!(ChromaFormat::Yuv422.idc(), 2);
    assert_eq!(ChromaFormat::Yuv444.idc(), 3);
}

#[test]
fn accepted_sps_dimensions_follow_from_macroblock_counts() {
    for (width_minus1, height_minus1) in [(0, 0), (10, 7), (119, 67)] {
        let sps = baseline_sps(width_minus1, height_minus1);
        assert_eq!(sps.pic_width_in_mbs as u64, width_minus1 + 1);
        assert_eq!(sps.coded_width, 16 * sps.pic_width_in_mbs);
        assert_eq!(sps.coded_height, 16 * sps.pic_height_in_map_units);
        assert_eq!((sps.display_width, sps.display_height), (sps.coded_width, sps.coded_height));
        assert_eq!(sps.constraint_set_flags, [false; 6]);
    }
}

#[test]
fn sps_reports_each_error_variant() {
    assert_eq!(
        parse_sequence_parameter_set(&[]),
        Err(SequenceParameterSetError::Bitstream(
            BitReaderError::UnexpectedEof {
                requested: 8,
                remaining: 0
            }
        ))
    );

    let mut writer = BitWriter::default();
    writer.bits(66, 8);
    writer.bits(0, 8);
    writer.bits(30, 8);
    writer.ue(0);
    writer.ue(0);
    writer.ue(0);
    writer.ue(0);
    writer.ue(1);
    writer.bit(false);
    writer.ue(u64::from(u32::MAX) / 16);
    writer.ue(0);
    writer.bit(true);
    writer.bit(true);
    assert_eq!(
        parse_sequence_parameter_set(&writer.finish_rbsp()),
        Err(SequenceParameterSetError::ArithmeticOverflow {
            field: "coded_width"
        })
    );

    let mut writer = BitWriter::default();
    writer.bits(100, 8);
    writer.bits(0, 8);
    writer.bits(30, 8);
    writer.ue(0);
    writer.ue(1);
    writer.ue(0);
    writer.ue(0);
    writer.bit(false);
    writer.bit(true);
    writer.bit(true);
    writer.se(-129);
    assert_eq!(
        parse_sequence_parameter_set(&writer.finish_rbsp()),
        Err(SequenceParameterSetError::SignedValueOutOfRange {
            field: "delta_scale",
            value: -129,
            minimum: -128,
            maximum: 127,
        })
    );

    let mut writer = BitWriter::default();
    writer.bits(66, 8);
    writer.bits(0, 8);
    writer.bits(30, 8);
    writer.ue(0);
    writer.ue(0);
    writer.ue(0);
    writer.ue(0);
    writer.ue(1);
    writer.bit(false);
    writer.ue(0);
    writer.ue(0);
    writer.bit(true);
    writer.bit(true);
    writer.bit(false);
    writer.bit(true);
    for _ in 0..4 {
        writer.bit(false);
    }
    writer.bit(true);
    writer.bits(0, 32);
    writer.bits(1, 32);
    assert_eq!(
        parse_sequence_parameter_set(&writer.finish_rbsp()),
        Err(SequenceParameterSetError::ZeroValue {
            field: "num_units_in_tick"
        })
    );
}

#[test]
fn sps_error_descriptions_render_values() {
    assert_eq!(
        SequenceParameterSetError::ValueOutOfRange {
            field: "seq_parameter_set_id",
            value: 32,
            minimum: 0,
            maximum: 31
        }
        .to_string(),
        "SPS field seq_parameter_set_id has value 32, expected 0..=31"
    );
    assert_eq!(
        SequenceParameterSetError::SignedValueOutOfRange {
            field: "delta_scale",
            value: i64::MIN,
            minimum: -128,
            maximum: 127
        }
        .to_string(),
        "SPS field delta_scale has value -9223372036854775808, expected -128..=127"
    );
    assert_eq!(
        SequenceParameterSetError::Bitstream(BitReaderError::Overflow).to_string(),
        "invalid SPS bitstream: decoded value overflows its return type"
    );
    assert_eq!(
        SequenceParameterSetError::ReservedBitsNonZero { value: 2 }.to_string(),
        "SPS reserved_zero_2bits is 2, expected zero"
    );
    assert_eq!(
        SequenceParameterSetError::ArithmeticOverflow {
            field: "coded_width"
        }
        .to_string(),
        "SPS coded_width arithmetic overflow"
    );
    assert_eq!(
        SequenceParameterSetError::ZeroValue { field: "sar_width" }.to_string(),
        "SPS field sar_width must not be zero"
    );
    assert_eq!(
        SequenceParameterSetError::ReservedAspectRatio {
            aspect_ratio_idc: 200
        }
        .to_string(),
        "SPS uses reserved aspect_ratio_idc 200"
    );
    assert_eq!(
        SequenceParameterSetError::from(BitReaderError::Overflow),
        SequenceParameterSetError::Bitstream(BitReaderError::Overflow)
    );
}

fn pps_with_groups(groups_minus1: u64, map_type: u64, write_map: impl Fn(&mut BitWriter)) -> Vec<u8> {
    let mut writer = BitWriter::default();
    writer.ue(0);
    writer.ue(0);
    writer.bit(false);
    writer.bit(false);
    writer.ue(groups_minus1);
    writer.ue(map_type);
    write_map(&mut writer);
    writer.ue(0);
    writer.ue(0);
    writer.bit(false);
    writer.bits(0, 2);
    writer.se(0);
    writer.se(0);
    writer.se(0);
    writer.bit(false);
    writer.bit(false);
    writer.bit(false);
    writer.finish_rbsp()
}

#[test]
fn slice_group_counts_match_the_declared_count() {
    let mut lookup = BTreeMap::new();
    lookup.insert(0_u8, baseline_sps(3, 2));
    for groups_minus1 in 1..=7_u64 {
        let rbsp = pps_with_groups(groups_minus1, 0, |writer| {
            for _ in 0..=groups_minus1 {
                writer.ue(0);
            }
        });
        let pps = parse_picture_parameter_set(&rbsp, &lookup).unwrap();
        let groups = pps.slice_groups.unwrap();
        assert_eq!(u64::from(groups.group_count()), groups_minus1 + 1);
        assert!(matches!(groups, SliceGroups::Interleaved { .. }));

        let rbsp = pps_with_groups(groups_minus1, 2, |writer| {
            for _ in 0..groups_minus1 {
                writer.ue(0);
                writer.ue(0);
            }
        });
        let groups = parse_picture_parameter_set(&rbsp, &lookup)
            .unwrap()
            .slice_groups
            .unwrap();
        assert_eq!(u64::from(groups.group_count()), groups_minus1 + 1);
    }
}

#[test]
fn pps_lookups_agree_across_storage_models() {
    let sps = baseline_sps(3, 2);
    let mut array: [Option<SequenceParameterSet>; 32] = std::array::from_fn(|_| None);
    array[5] = Some(sps.clone());
    let mut tree = BTreeMap::new();
    tree.insert(5_u8, sps.clone());
    let mut hash = HashMap::new();
    hash.insert(5_u8, sps);

    let mut writer = BitWriter::default();
    writer.ue(9);
    writer.ue(5);
    writer.bit(false);
    writer.bit(false);
    writer.ue(0);
    writer.ue(0);
    writer.ue(0);
    writer.bit(false);
    writer.bits(0, 2);
    writer.se(0);
    writer.se(0);
    writer.se(0);
    writer.bit(false);
    writer.bit(false);
    writer.bit(false);
    let rbsp = writer.finish_rbsp();

    let from_array = parse_picture_parameter_set(&rbsp, &array).unwrap();
    assert_eq!(parse_picture_parameter_set(&rbsp, &tree).unwrap(), from_array);
    assert_eq!(parse_picture_parameter_set(&rbsp, &hash).unwrap(), from_array);
    assert_eq!(from_array.pic_parameter_set_id, 9);
    assert_eq!(from_array.seq_parameter_set_id, 5);
    assert_eq!(from_array.pic_init_qp, 26);

    let empty: HashMap<u8, SequenceParameterSet> = HashMap::new();
    assert_eq!(
        parse_picture_parameter_set(&rbsp, &empty),
        Err(PictureParameterSetError::MissingSequenceParameterSet {
            seq_parameter_set_id: 5
        })
    );
}

#[test]
fn pps_error_descriptions_render_values() {
    assert_eq!(
        PictureParameterSetError::InvalidSliceGroupRectangle {
            index: 0,
            top_left: 7,
            bottom_right: 4
        }
        .to_string(),
        "PPS slice-group rectangle 0 is invalid: 7..=4"
    );
    assert_eq!(
        PictureParameterSetError::SignedValueOutOfRange {
            field: "pic_init_qs_minus26",
            value: 26,
            minimum: -26,
            maximum: 25
        }
        .to_string(),
        "PPS field pic_init_qs_minus26 has value 26, expected -26..=25"
    );
    assert_eq!(
        PictureParameterSetError::ValueOutOfRange {
            field: "weighted_bipred_idc",
            value: 3,
            minimum: 0,
            maximum: 2
        }
        .to_string(),
        "PPS field weighted_bipred_idc has value 3, expected 0..=2"
    );
    assert_eq!(
        PictureParameterSetError::Bitstream(BitReaderError::InvalidWidth {
            width: 70,
            maximum: 64
        })
        .to_string(),
        "invalid PPS bitstream: invalid bit width 70; maximum is 64"
    );
    assert_eq!(
        PictureParameterSetError::from(BitReaderError::Overflow),
        PictureParameterSetError::Bitstream(BitReaderError::Overflow)
    );
}

#[test]
fn pps_rejects_out_of_range_quantization() {
    let mut lookup = BTreeMap::new();
    lookup.insert(0_u8, baseline_sps(3, 2));
    let mut writer = BitWriter::default();
    writer.ue(0);
    writer.ue(0);
    writer.bit(false);
    writer.bit(false);
    writer.ue(0);
    writer.ue(0);
    writer.ue(0);
    writer.bit(false);
    writer.bits(0, 2);
    writer.se(0);
    writer.se(26);
    assert_eq!(
        parse_picture_parameter_set(&writer.finish_rbsp(), &lookup),
        Err(PictureParameterSetError::SignedValueOutOfRange {
            field: "pic_init_qs_minus26",
            value: 26,
            minimum: -26,
            maximum: 25
        })
    );
}

#[test]
fn truncated_sps_is_rejected_at_every_length() {
    let mut writer = BitWriter::default();
    writer.bits(66, 8);
    writer.bits(0, 8);
    writer.bits(30, 8);
    writer.ue(0);
    writer.ue(0);
    writer.ue(0);
    writer.ue(0);
    writer.ue(1);
    writer.bit(false);
    writer.ue(10);
    writer.ue(7);
    writer.bit(true);
    writer.bit(true);
    writer.bit(false);
    writer.bit(false);
    let rbsp = writer.finish_rbsp();
    assert!(parse_sequence_parameter_set(&rbsp).is_ok());
    for len in 0..rbsp.len() {
        assert!(parse_sequence_parameter_set(&rbsp[..len]).is_err(), "len={len}");
    }
}

#[test]
fn truncated_pps_keeps_only_the_fields_every_pps_carries() {
    let mut lookup = BTreeMap::new();
    lookup.insert(0_u8, baseline_sps(3, 2));

    // The fields every PPS carries take 20 bits here.
    let mut writer = BitWriter::default();
    writer.ue(1);
    writer.ue(0);
    writer.bit(false);
    writer.bit(false);
    writer.ue(0);
    writer.ue(1);
    writer.ue(0);
    writer.bit(false);
    writer.bits(0, 2);
    writer.se(0);
    writer.se(0);
    writer.se(0);
    writer.bit(false);
    writer.bit(false);
    writer.bit(false);
    let core_only = writer.finish_rbsp();
    for len in 0..core_only.len() {
        assert!(parse_picture_parameter_set(&core_only[..len], &lookup).is_err(), "len={len}");
    }

    // The optional fields begin with the bits 1 0 0 0 up to the third byte's
    // end, so cutting after three bytes leaves a PPS without them.
    let mut writer = BitWriter::default();
    writer.ue(1);
    writer.ue(0);
    writer.bit(false);
    writer.bit(false);
    writer.ue(0);
    writer.ue(1);
    writer.ue(0);
    writer.bit(false);
    writer.bits(0, 2);
    writer.se(0);
    writer.se(0);
    writer.se(0);
    writer.bit(false);
    writer.bit(false);
    writer.bit(false);
    writer.bit(true);
    writer.bit(false);
    writer.se(2);
    let whole = writer.finish_rbsp();
    assert_eq!(whole.len(), 4);

    let pps = parse_picture_parameter_set(&whole, &lookup).unwrap();
    assert!(pps.transform_8x8_mode);
    assert_eq!(pps.second_chroma_qp_index_offset, 2);

    let cut = parse_picture_parameter_set(&whole[..3], &lookup).unwrap();
    assert!(!cut.transform_8x8_mode);
    assert!(cut.scaling_matrices.is_none());
    assert_eq!(cut.second_chroma_qp_index_offset, cut.chroma_qp_index_offset);
    assert_eq!(cut.pic_parameter_set_id, pps.pic_parameter_set_id);
    assert_eq!(cut.num_ref_idx_l0_default_active, 2);
    for len in 0..3 {
        assert!(parse_picture_parameter_set(&whole[..len], &lookup).is_err(), "len={len}");
    }
}

#[test]
fn framing_ends_after_finitely_many_units() {
    let streams: [&[u8]; 4] = [
        &[0, 0, 1, 0, 0, 1, 0, 0, 1],
        &[0, 0, 0, 1, 0x67, 0, 0, 1],
        &[0, 0, 1],
        &[0x11, 0x22, 0, 0],
    ];
    let expected_units = [3, 2, 1, 0];
    for (stream, expected) in streams.iter().zip(expected_units) {
        let mut units = annex_b_nal_units(stream);
        let mut count = 0;
        while units.next().is_some() {
            count += 1;
            assert!(count <= stream.len() + 1);
        }
        assert_eq!(count, expected);
        assert!(units.next().is_none());
    }
}
