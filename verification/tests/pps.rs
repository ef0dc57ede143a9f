use nalcore::h264::pps::{
    MAX_EXPLICIT_SLICE_GROUP_MAP_UNITS, PictureParameterSetError, SliceGroupChangeType,
    SliceGroups, parse_picture_parameter_set,
};
use nalcore::h264::{SequenceParameterSet, parse_sequence_parameter_set};

type SliceGroupCase = (u8, Box<dyn Fn(&mut BitWriter)>, Box<dyn Fn(&SliceGroups)>);

#[derive(Default)]
struct BitWriter {
    bits: Vec<bool>,
}

impl BitWriter {
    fn bit(&mut self, value: bool) {
        self.bits.push(value);
    }

    fn bits(&mut self, value: u64, width: usize) {
        for shift in (0..width).rev() {
            self.bit((value >> shift) & 1 != 0);
        }
    }

    fn ue(&mut self, value: u64) {
        let code_num = value.checked_add(1).unwrap();
        let width = (u64::BITS - code_num.leading_zeros()) as usize;
        self.bits.extend(std::iter::repeat_n(false, width - 1));
        self.bits(code_num, width);
    }

    fn se(&mut self, value: i64) {
        let code_num = if value <= 0 {
            value.unsigned_abs() * 2
        } else {
            value as u64 * 2 - 1
        };
        self.ue(code_num);
    }

    fn finish_rbsp(mut self) -> Vec<u8> {
        self.bit(true);
        while !self.bits.len().is_multiple_of(8) {
            self.bit(false);
        }
        self.into_bytes()
    }

    fn into_bytes(self) -> Vec<u8> {
        self.bits
            .chunks(8)
            .map(|chunk| {
                chunk.iter().enumerate().fold(0_u8, |byte, (index, bit)| {
                    byte | (u8::from(*bit) << (7 - index))
                })
            })
            .collect()
    }
}

fn make_sps(
    profile_idc: u8,
    chroma_format_idc: u8,
    width: u32,
    height: u32,
) -> SequenceParameterSet {
    let mut writer = BitWriter::default();
    writer.bits(u64::from(profile_idc), 8);
    writer.bits(0, 8);
    writer.bits(30, 8);
    writer.ue(0);
    if matches!(profile_idc, 44 | 100 | 110 | 122 | 244) {
        writer.ue(u64::from(chroma_format_idc));
        if chroma_format_idc == 3 {
            writer.bit(false);
        }
        writer.ue(0);
        writer.ue(0);
        writer.bit(false);
        writer.bit(false);
    }
    writer.ue(0);
    writer.ue(0);
    writer.ue(0);
    writer.ue(1);
    writer.bit(false);
    writer.ue(u64::from(width - 1));
    writer.ue(u64::from(height - 1));
    writer.bit(true);
    writer.bit(true);
    writer.bit(false);
    writer.bit(false);
    parse_sequence_parameter_set(&writer.finish_rbsp()).unwrap()
}

fn lookup_with(sps: SequenceParameterSet) -> [Option<SequenceParameterSet>; 32] {
    let mut lookup = std::array::from_fn(|_| None);
    let id = usize::from(sps.seq_parameter_set_id);
    lookup[id] = Some(sps);
    lookup
}

fn write_pps_prefix(writer: &mut BitWriter, pps_id: u64, sps_id: u64) {
    writer.ue(pps_id);
    writer.ue(sps_id);
    writer.bit(false);
    writer.bit(false);
}

fn write_pps_suffix(writer: &mut BitWriter) {
    writer.ue(0);
    writer.ue(0);
    writer.bit(false);
    writer.bits(0, 2);
    writer.se(0);
    writer.se(0);
    writer.se(0);
    writer.bit(true);
    writer.bit(false);
    writer.bit(false);
}

fn make_minimal_pps() -> Vec<u8> {
    let mut writer = BitWriter::default();
    write_pps_prefix(&mut writer, 0, 0);
    writer.ue(0);
    write_pps_suffix(&mut writer);
    writer.finish_rbsp()
}

#[test]
fn parses_representative_baseline_fields_and_defaults() {
    let lookup = lookup_with(make_sps(66, 1, 40, 30));
    let mut writer = BitWriter::default();
    writer.ue(17);
    writer.ue(0);
    writer.bit(true);
    writer.bit(true);
    writer.ue(0);
    writer.ue(2);
    writer.ue(3);
    writer.bit(true);
    writer.bits(2, 2);
    writer.se(-4);
    writer.se(3);
    writer.se(-2);
    writer.bit(true);
    writer.bit(true);
    writer.bit(true);

    let pps = parse_picture_parameter_set(&writer.finish_rbsp(), &lookup).unwrap();
    assert_eq!(pps.pic_parameter_set_id, 17);
    assert!(pps.entropy_coding_mode);
    assert!(pps.bottom_field_pic_order_in_frame_present);
    assert_eq!(pps.num_ref_idx_l0_default_active, 3);
    assert_eq!(pps.num_ref_idx_l1_default_active, 4);
    assert!(pps.weighted_pred);
    assert_eq!(pps.weighted_bipred_idc, 2);
    assert_eq!(pps.pic_init_qp, 22);
    assert_eq!(pps.pic_init_qs, 29);
    assert_eq!(pps.chroma_qp_index_offset, -2);
    assert_eq!(pps.second_chroma_qp_index_offset, -2);
    assert!(!pps.transform_8x8_mode);
}

#[test]
fn parses_all_slice_group_map_types() {
    let lookup = lookup_with(make_sps(66, 1, 4, 3));

    let cases: Vec<SliceGroupCase> = vec![
        (
            0,
            Box::new(|writer| {
                writer.ue(1);
                writer.ue(2);
            }),
            Box::new(|groups| {
                assert_eq!(
                    groups,
                    &SliceGroups::Interleaved {
                        run_lengths: vec![2, 3]
                    }
                );
            }),
        ),
        (
            1,
            Box::new(|_| {}),
            Box::new(|groups| {
                assert_eq!(groups, &SliceGroups::Dispersed { group_count: 2 });
            }),
        ),
        (
            2,
            Box::new(|writer| {
                writer.ue(1);
                writer.ue(6);
            }),
            Box::new(|groups| {
                assert!(matches!(
                    groups,
                    SliceGroups::Foreground { rectangles }
                        if rectangles[0].top_left == 1 && rectangles[0].bottom_right == 6
                ));
            }),
        ),
        (
            3,
            Box::new(|writer| {
                writer.bit(true);
                writer.ue(3);
            }),
            Box::new(|groups| {
                assert_eq!(
                    groups,
                    &SliceGroups::Changing {
                        change_type: SliceGroupChangeType::BoxOut,
                        direction: true,
                        change_rate: 4
                    }
                );
            }),
        ),
        (
            4,
            Box::new(|writer| {
                writer.bit(false);
                writer.ue(0);
            }),
            Box::new(|groups| {
                assert!(matches!(
                    groups,
                    SliceGroups::Changing {
                        change_type: SliceGroupChangeType::RasterScan,
                        ..
                    }
                ));
            }),
        ),
        (
            5,
            Box::new(|writer| {
                writer.bit(false);
                writer.ue(11);
            }),
            Box::new(|groups| {
                assert!(matches!(
                    groups,
                    SliceGroups::Changing {
                        change_type: SliceGroupChangeType::Wipe,
                        change_rate: 12,
                        ..
                    }
                ));
            }),
        ),
        (
            6,
            Box::new(|writer| {
                writer.ue(11);
                for index in 0..12 {
                    writer.bits(index % 2, 1);
                }
            }),
            Box::new(|groups| {
                assert!(matches!(
                    groups,
                    SliceGroups::Explicit {
                        group_count: 2,
                        slice_group_ids
                    }
                        if slice_group_ids == &[0, 1, 0, 1, 0, 1, 0, 1, 0, 1, 0, 1]
                ));
            }),
        ),
    ];

    for (map_type, write_map, check) in cases {
        let mut writer = BitWriter::default();
        write_pps_prefix(&mut writer, u64::from(map_type), 0);
        writer.ue(1);
        writer.ue(u64::from(map_type));
        write_map(&mut writer);
        write_pps_suffix(&mut writer);
        let pps = parse_picture_parameter_set(&writer.finish_rbsp(), &lookup)
            .unwrap_or_else(|error| panic!("map_type={map_type}: {error:?}"));
        check(pps.slice_groups.as_ref().unwrap());
    }
}

#[test]
fn parses_high_profile_transform_and_scaling_matrices() {
    let lookup = lookup_with(make_sps(100, 1, 4, 3));
    let mut writer = BitWriter::default();
    write_pps_prefix(&mut writer, 0, 0);
    writer.ue(0);
    write_pps_suffix(&mut writer);
    writer.bit(true);
    writer.bit(true);
    writer.bit(true);
    writer.se(-8);
    for _ in 1..6 {
        writer.bit(false);
    }
    writer.bit(true);
    for _ in 0..64 {
        writer.se(0);
    }
    writer.bit(false);
    writer.se(7);

    let pps = parse_picture_parameter_set(&writer.finish_rbsp(), &lookup).unwrap();
    assert!(pps.transform_8x8_mode);
    assert_eq!(pps.second_chroma_qp_index_offset, 7);
    let matrices = pps.scaling_matrices.unwrap();
    assert!(matrices.lists_4x4[0].unwrap().use_default);
    assert_eq!(matrices.lists_8x8[0].unwrap().values, [8; 64]);
    assert!(matrices.lists_8x8[1].is_none());
}

#[test]
fn uses_sps_chroma_format_for_yuv444_scaling_list_count() {
    let lookup = lookup_with(make_sps(100, 3, 1, 1));
    let mut writer = BitWriter::default();
    write_pps_prefix(&mut writer, 0, 0);
    writer.ue(0);
    write_pps_suffix(&mut writer);
    writer.bit(true);
    writer.bit(true);
    for _ in 0..11 {
        writer.bit(false);
    }
    writer.bit(true);
    writer.se(-8);
    writer.se(-12);

    let pps = parse_picture_parameter_set(&writer.finish_rbsp(), &lookup).unwrap();
    assert!(
        pps.scaling_matrices.unwrap().lists_8x8[5]
            .unwrap()
            .use_default
    );
    assert_eq!(pps.second_chroma_qp_index_offset, -12);
}

#[test]
fn rejects_missing_sps_and_identifier_ranges() {
    let empty: [Option<SequenceParameterSet>; 32] = std::array::from_fn(|_| None);
    assert_eq!(
        parse_picture_parameter_set(&make_minimal_pps(), &empty),
        Err(PictureParameterSetError::MissingSequenceParameterSet {
            seq_parameter_set_id: 0
        })
    );

    let lookup = lookup_with(make_sps(66, 1, 1, 1));
    let mut writer = BitWriter::default();
    writer.ue(256);
    assert!(matches!(
        parse_picture_parameter_set(&writer.finish_rbsp(), &lookup),
        Err(PictureParameterSetError::ValueOutOfRange {
            field: "pic_parameter_set_id",
            ..
        })
    ));

    let mut writer = BitWriter::default();
    writer.ue(0);
    writer.ue(32);
    assert!(matches!(
        parse_picture_parameter_set(&writer.finish_rbsp(), &lookup),
        Err(PictureParameterSetError::ValueOutOfRange {
            field: "seq_parameter_set_id",
            ..
        })
    ));
}

#[test]
fn rejects_invalid_field_ranges() {
    let lookup = lookup_with(make_sps(66, 1, 4, 3));

    for (field, write_invalid) in [
        (
            "num_slice_groups_minus1",
            Box::new(|writer: &mut BitWriter| writer.ue(8)) as Box<dyn Fn(&mut BitWriter)>,
        ),
        (
            "weighted_bipred_idc",
            Box::new(|writer: &mut BitWriter| {
                writer.ue(0);
                writer.ue(0);
                writer.ue(0);
                writer.bit(false);
                writer.bits(3, 2);
            }),
        ),
        (
            "pic_init_qp_minus26",
            Box::new(|writer: &mut BitWriter| {
                writer.ue(0);
                writer.ue(0);
                writer.ue(0);
                writer.bit(false);
                writer.bits(0, 2);
                writer.se(26);
            }),
        ),
    ] {
        let mut writer = BitWriter::default();
        write_pps_prefix(&mut writer, 0, 0);
        write_invalid(&mut writer);
        let result = parse_picture_parameter_set(&writer.finish_rbsp(), &lookup);
        assert!(
            matches!(
                result,
                Err(PictureParameterSetError::ValueOutOfRange {
                    field: actual,
                    ..
                }) if actual == field
            ) || matches!(
                result,
                Err(PictureParameterSetError::SignedValueOutOfRange {
                    field: actual,
                    ..
                }) if actual == field
            ),
            "field={field}"
        );
    }
}

#[test]
fn distinguishes_unsupported_and_malformed_slice_groups() {
    let lookup = lookup_with(make_sps(66, 1, 4, 3));

    let mut writer = BitWriter::default();
    write_pps_prefix(&mut writer, 0, 0);
    writer.ue(2);
    writer.ue(3);
    assert!(matches!(
        parse_picture_parameter_set(&writer.finish_rbsp(), &lookup),
        Err(PictureParameterSetError::ValueOutOfRange {
            field: "num_slice_groups_minus1",
            ..
        })
    ));

    let mut writer = BitWriter::default();
    write_pps_prefix(&mut writer, 0, 0);
    writer.ue(1);
    writer.ue(2);
    writer.ue(7);
    writer.ue(4);
    assert_eq!(
        parse_picture_parameter_set(&writer.finish_rbsp(), &lookup),
        Err(PictureParameterSetError::InvalidSliceGroupRectangle {
            index: 0,
            top_left: 7,
            bottom_right: 4
        })
    );

    let large_lookup = lookup_with(make_sps(
        66,
        1,
        MAX_EXPLICIT_SLICE_GROUP_MAP_UNITS + 1,
        1,
    ));
    let mut writer = BitWriter::default();
    write_pps_prefix(&mut writer, 0, 0);
    writer.ue(1);
    writer.ue(6);
    assert_eq!(
        parse_picture_parameter_set(&writer.finish_rbsp(), &large_lookup),
        Err(PictureParameterSetError::Unsupported {
            feature: "explicit slice-group map exceeding 1048576 map units"
        })
    );
}

#[test]
fn validates_explicit_slice_group_map_size_and_ids() {
    let lookup = lookup_with(make_sps(66, 1, 2, 2));

    let mut wrong_size = BitWriter::default();
    write_pps_prefix(&mut wrong_size, 0, 0);
    wrong_size.ue(2);
    wrong_size.ue(6);
    wrong_size.ue(2);
    assert!(matches!(
        parse_picture_parameter_set(&wrong_size.finish_rbsp(), &lookup),
        Err(PictureParameterSetError::ValueOutOfRange {
            field: "pic_size_in_map_units_minus1",
            ..
        })
    ));

    let mut invalid_id = BitWriter::default();
    write_pps_prefix(&mut invalid_id, 0, 0);
    invalid_id.ue(2);
    invalid_id.ue(6);
    invalid_id.ue(3);
    invalid_id.bits(3, 2);
    assert!(matches!(
        parse_picture_parameter_set(&invalid_id.finish_rbsp(), &lookup),
        Err(PictureParameterSetError::ValueOutOfRange {
            field: "slice_group_id",
            ..
        })
    ));
}

#[test]
fn rejects_bad_trailing_bits_and_every_truncation() {
    let lookup = lookup_with(make_sps(66, 1, 40, 30));
    let valid = make_minimal_pps();
    for length in 0..valid.len() {
        assert!(
            parse_picture_parameter_set(&valid[..length], &lookup).is_err(),
            "length={length}"
        );
    }
    assert!(parse_picture_parameter_set(&valid, &lookup).is_ok());

    let mut extra = valid.clone();
    extra.push(0);
    assert!(parse_picture_parameter_set(&extra, &lookup).is_err());

    let mut missing_stop = valid;
    *missing_stop.last_mut().unwrap() = 0;
    assert!(parse_picture_parameter_set(&missing_stop, &lookup).is_err());
}

#[test]
fn exhaustive_short_and_structured_inputs_are_panic_free() {
    let lookup = lookup_with(make_sps(100, 3, 4, 3));
    let _ = parse_picture_parameter_set(&[], &lookup);
    for value in u8::MIN..=u8::MAX {
        let _ = parse_picture_parameter_set(&[value], &lookup);
    }
    for value in u16::MIN..=u16::MAX {
        let _ = parse_picture_parameter_set(&value.to_be_bytes(), &lookup);
    }

    const ALPHABET: [u8; 6] = [0, 1, 0x40, 0x80, 0xfe, 0xff];
    for length in 3..=6 {
        let combinations = ALPHABET.len().pow(length as u32);
        for mut value in 0..combinations {
            let mut input = vec![0; length];
            for byte in &mut input {
                *byte = ALPHABET[value % ALPHABET.len()];
                value /= ALPHABET.len();
            }
            let _ = parse_picture_parameter_set(&input, &lookup);
        }
    }
}

#[test]
fn pps_errors_have_stable_descriptions() {
    assert_eq!(
        PictureParameterSetError::MissingSequenceParameterSet {
            seq_parameter_set_id: 7
        }
        .to_string(),
        "PPS references missing sequence parameter set 7"
    );
    assert_eq!(
        PictureParameterSetError::Unsupported {
            feature: "test feature"
        }
        .to_string(),
        "PPS uses unsupported test feature"
    );
    assert_eq!(
        PictureParameterSetError::InvalidRbspTrailingBits.to_string(),
        "PPS has invalid rbsp_trailing_bits"
    );
}
