use nalcore::h264::{
    ChromaFormat, PictureOrderCount, SequenceParameterSetError, parse_sequence_parameter_set,
};

const MAX_SEQUENCE_PARAMETER_SET_ID: u64 = 31;
const MAX_CPB_COUNT_MINUS_1: u64 = 31;
const MAX_DPB_FRAMES: u64 = 16;

fn has_high_profile_syntax(profile_idc: u8) -> bool {
    matches!(profile_idc, 44 | 100 | 110 | 122 | 244)
}

#[derive(Default)]
struct BitWriter {
    bits: Vec<bool>,
}

impl BitWriter {
    fn bit(&mut self, value: bool) {
        self.bits.push(value);
    }

    fn bits(&mut self, value: u64, width: usize) {
        for shift in (0..width).rev() {
            self.bit((value >> shift) & 1 != 0);
        }
    }

    fn ue(&mut self, value: u64) {
        let code_num = value.checked_add(1).unwrap();
        let width = (u64::BITS - code_num.leading_zeros()) as usize;
        self.bits.extend(std::iter::repeat_n(false, width - 1));
        self.bits(code_num, width);
    }

    fn se(&mut self, value: i64) {
        let code_num = if value <= 0 {
            value.unsigned_abs() * 2
        } else {
            value as u64 * 2 - 1
        };
        self.ue(code_num);
    }

    fn finish_rbsp(mut self) -> Vec<u8> {
        self.bit(true);
        while !self.bits.len().is_multiple_of(8) {
            self.bit(false);
        }
        self.into_bytes()
    }

    fn into_bytes(self) -> Vec<u8> {
        self.bits
            .chunks(8)
            .map(|chunk| {
                chunk.iter().enumerate().fold(0_u8, |byte, (index, bit)| {
                    byte | (u8::from(*bit) << (7 - index))
                })
            })
            .collect()
    }
}

#[derive(Clone, Copy)]
struct Fixture {
    profile_idc: u8,
    chroma_format_idc: u8,
    separate_colour_plane: bool,
    width_in_mbs: u32,
    height_in_map_units: u32,
    frame_mbs_only: bool,
    max_num_ref_frames: u32,
    crop: Option<(u32, u32, u32, u32)>,
    vui: bool,
}

impl Default for Fixture {
    fn default() -> Self {
        Self {
            profile_idc: 66,
            chroma_format_idc: 1,
            separate_colour_plane: false,
            width_in_mbs: 40,
            height_in_map_units: 30,
            frame_mbs_only: true,
            max_num_ref_frames: 1,
            crop: None,
            vui: false,
        }
    }
}

fn write_sps_prefix(writer: &mut BitWriter, fixture: Fixture) {
    writer.bits(u64::from(fixture.profile_idc), 8);
    writer.bits(0, 8);
    writer.bits(30, 8);
    writer.ue(0);
    if has_high_profile_syntax(fixture.profile_idc) {
        writer.ue(u64::from(fixture.chroma_format_idc));
        if fixture.chroma_format_idc == 3 {
            writer.bit(fixture.separate_colour_plane);
        }
        writer.ue(0);
        writer.ue(0);
        writer.bit(false);
        writer.bit(false);
    }
    writer.ue(0);
    writer.ue(0);
    writer.ue(0);
    writer.ue(u64::from(fixture.max_num_ref_frames));
    writer.bit(false);
    writer.ue(u64::from(fixture.width_in_mbs - 1));
    writer.ue(u64::from(fixture.height_in_map_units - 1));
    writer.bit(fixture.frame_mbs_only);
    if !fixture.frame_mbs_only {
        writer.bit(false);
    }
    writer.bit(true);
    if let Some((left, right, top, bottom)) = fixture.crop {
        writer.bit(true);
        writer.ue(u64::from(left));
        writer.ue(u64::from(right));
        writer.ue(u64::from(top));
        writer.ue(u64::from(bottom));
    } else {
        writer.bit(false);
    }
    writer.bit(fixture.vui);
}

fn make_sps(fixture: Fixture) -> Vec<u8> {
    let mut writer = BitWriter::default();
    write_sps_prefix(&mut writer, fixture);
    if fixture.vui {
        write_minimal_vui(&mut writer);
    }
    writer.finish_rbsp()
}

fn write_minimal_vui(writer: &mut BitWriter) {
    for _ in 0..5 {
        writer.bit(false);
    }
    writer.bit(false);
    writer.bit(false);
    writer.bit(false);
    writer.bit(false);
}

#[test]
fn parses_representative_baseline_main_and_high_profiles() {
    for profile_idc in [66, 77, 100] {
        let fixture = Fixture {
            profile_idc,
            ..Fixture::default()
        };
        let sps = parse_sequence_parameter_set(&make_sps(fixture)).unwrap();

        assert_eq!(sps.profile_idc, profile_idc);
        assert_eq!(sps.chroma_format, ChromaFormat::Yuv420);
        assert_eq!(sps.bit_depth_luma, 8);
        assert_eq!(sps.bit_depth_chroma, 8);
        assert_eq!(sps.log2_max_frame_num, 4);
        assert_eq!(
            sps.picture_order_count,
            PictureOrderCount::TypeZero {
                log2_max_pic_order_cnt_lsb: 4
            }
        );
        assert_eq!((sps.coded_width, sps.coded_height), (640, 480));
        assert_eq!((sps.display_width, sps.display_height), (640, 480));
    }
}

#[test]
fn derives_coded_and_cropped_1080p_dimensions() {
    let fixture = Fixture {
        profile_idc: 100,
        width_in_mbs: 120,
        height_in_map_units: 68,
        crop: Some((0, 0, 0, 4)),
        ..Fixture::default()
    };
    let sps = parse_sequence_parameter_set(&make_sps(fixture)).unwrap();

    assert_eq!((sps.coded_width, sps.coded_height), (1920, 1088));
    assert_eq!((sps.display_width, sps.display_height), (1920, 1080));
    assert_eq!(sps.frame_crop.unwrap().unit_x, 2);
    assert_eq!(sps.frame_crop.unwrap().unit_y, 2);
}

#[test]
fn uses_correct_crop_units_for_all_chroma_and_frame_modes() {
    let cases = [
        (0, false, true, (1, 1)),
        (1, false, true, (2, 2)),
        (2, false, true, (2, 1)),
        (3, false, true, (1, 1)),
        (3, true, true, (1, 1)),
        (0, false, false, (1, 2)),
        (1, false, false, (2, 4)),
        (2, false, false, (2, 2)),
        (3, false, false, (1, 2)),
        (3, true, false, (1, 2)),
    ];

    for (chroma_format_idc, separate_colour_plane, frame_mbs_only, expected) in cases {
        let fixture = Fixture {
            profile_idc: 100,
            chroma_format_idc,
            separate_colour_plane,
            frame_mbs_only,
            crop: Some((1, 1, 1, 1)),
            ..Fixture::default()
        };
        let sps = parse_sequence_parameter_set(&make_sps(fixture)).unwrap();
        let crop = sps.frame_crop.unwrap();
        assert_eq!(
            (crop.unit_x, crop.unit_y),
            expected,
            "chroma={chroma_format_idc}, separate={separate_colour_plane}, frame={frame_mbs_only}"
        );
        assert_eq!(
            sps.display_width,
            sps.coded_width - 2 * u32::from(expected.0)
        );
        assert_eq!(
            sps.display_height,
            sps.coded_height - 2 * u32::from(expected.1)
        );
    }
}

#[test]
fn parses_type_one_picture_order_count_and_scaling_lists() {
    let mut writer = BitWriter::default();
    writer.bits(100, 8);
    writer.bits(0, 8);
    writer.bits(40, 8);
    writer.ue(3);
    writer.ue(3);
    writer.bit(false);
    writer.ue(2);
    writer.ue(2);
    writer.bit(true);
    writer.bit(true);
    writer.bit(true);
    writer.se(-8);
    for _ in 1..6 {
        writer.bit(false);
    }
    writer.bit(true);
    for _ in 0..64 {
        writer.se(0);
    }
    for _ in 7..12 {
        writer.bit(false);
    }
    writer.ue(12);
    writer.ue(1);
    writer.bit(true);
    writer.se(-2);
    writer.se(3);
    writer.ue(3);
    writer.se(-1);
    writer.se(0);
    writer.se(2);
    writer.ue(4);
    writer.bit(true);
    writer.ue(0);
    writer.ue(0);
    writer.bit(true);
    writer.bit(true);
    writer.bit(false);
    writer.bit(false);
    let rbsp = writer.finish_rbsp();

    let sps = parse_sequence_parameter_set(&rbsp).unwrap();
    assert_eq!(sps.seq_parameter_set_id, 3);
    assert_eq!(sps.chroma_format, ChromaFormat::Yuv444);
    assert_eq!(sps.bit_depth_luma, 10);
    assert_eq!(sps.bit_depth_chroma, 10);
    assert!(sps.qpprime_y_zero_transform_bypass);
    let matrices = sps.scaling_matrices.unwrap();
    assert!(matrices.lists_4x4[0].unwrap().use_default);
    assert_eq!(matrices.lists_8x8[0].unwrap().values, [8; 64]);
    assert_eq!(sps.log2_max_frame_num, 16);
    assert_eq!(
        sps.picture_order_count,
        PictureOrderCount::TypeOne {
            delta_pic_order_always_zero: true,
            offset_for_non_ref_pic: -2,
            offset_for_top_to_bottom_field: 3,
            offsets_for_ref_frame: vec![-1, 0, 2],
        }
    );
}

#[test]
fn parses_comprehensive_vui_and_hrd_syntax() {
    let fixture = Fixture {
        profile_idc: 100,
        vui: true,
        ..Fixture::default()
    };
    let mut writer = BitWriter::default();
    write_sps_prefix(&mut writer, fixture);
    writer.bit(true);
    writer.bits(255, 8);
    writer.bits(4, 16);
    writer.bits(3, 16);
    writer.bit(true);
    writer.bit(false);
    writer.bit(true);
    writer.bits(5, 3);
    writer.bit(true);
    writer.bit(true);
    writer.bits(1, 8);
    writer.bits(13, 8);
    writer.bits(6, 8);
    writer.bit(true);
    writer.ue(2);
    writer.ue(3);
    writer.bit(true);
    writer.bits(1001, 32);
    writer.bits(60000, 32);
    writer.bit(true);
    writer.bit(true);
    writer.ue(0);
    writer.bits(2, 4);
    writer.bits(3, 4);
    writer.ue(99);
    writer.ue(199);
    writer.bit(true);
    writer.bits(23, 5);
    writer.bits(23, 5);
    writer.bits(23, 5);
    writer.bits(24, 5);
    writer.bit(false);
    writer.bit(false);
    writer.bit(true);
    writer.bit(true);
    writer.bit(true);
    writer.ue(2);
    writer.ue(1);
    writer.ue(16);
    writer.ue(15);
    writer.ue(2);
    writer.ue(4);
    let rbsp = writer.finish_rbsp();

    let sps = parse_sequence_parameter_set(&rbsp).unwrap();
    let vui = sps.vui_parameters.unwrap();
    let aspect_ratio = vui.aspect_ratio.unwrap();
    assert_eq!(
        (aspect_ratio.sar_width, aspect_ratio.sar_height),
        (Some(4), Some(3))
    );
    assert_eq!(vui.overscan_appropriate, Some(false));
    assert_eq!(vui.video_signal_type.unwrap().matrix_coefficients, Some(6));
    assert_eq!(vui.chroma_location.unwrap().bottom_field, 3);
    assert_eq!(vui.timing_info.unwrap().time_scale, 60000);
    let hrd = vui.nal_hrd_parameters.unwrap();
    assert_eq!(hrd.cpb_entries.len(), 1);
    assert_eq!(hrd.cpb_entries[0].bit_rate_value_minus1, 99);
    assert_eq!(hrd.initial_cpb_removal_delay_length, 24);
    assert_eq!(vui.low_delay_hrd, Some(false));
    assert!(vui.pic_struct_present);
    assert_eq!(
        vui.bitstream_restrictions.unwrap().max_dec_frame_buffering,
        4
    );
}

#[test]
fn rejects_unsupported_profiles_reserved_bits_and_bounded_values() {
    let mut unsupported = make_sps(Fixture::default());
    unsupported[0] = 1;
    assert_eq!(
        parse_sequence_parameter_set(&unsupported),
        Err(SequenceParameterSetError::UnsupportedProfile { profile_idc: 1 })
    );

    let mut reserved = make_sps(Fixture::default());
    reserved[1] = 1;
    assert_eq!(
        parse_sequence_parameter_set(&reserved),
        Err(SequenceParameterSetError::ReservedBitsNonZero { value: 1 })
    );

    let mut writer = BitWriter::default();
    writer.bits(66, 8);
    writer.bits(0, 8);
    writer.bits(30, 8);
    writer.ue(MAX_SEQUENCE_PARAMETER_SET_ID + 1);
    assert!(matches!(
        parse_sequence_parameter_set(&writer.finish_rbsp()),
        Err(SequenceParameterSetError::ValueOutOfRange {
            field: "seq_parameter_set_id",
            ..
        })
    ));

    let extension_profile = make_sps(Fixture {
        profile_idc: 83,
        ..Fixture::default()
    });
    assert_eq!(
        parse_sequence_parameter_set(&extension_profile),
        Err(SequenceParameterSetError::UnsupportedProfile { profile_idc: 83 })
    );
}

#[test]
fn rejects_crop_overflow_zero_dimensions_and_invalid_trailing_bits() {
    let fixture = Fixture {
        profile_idc: 100,
        width_in_mbs: 1,
        height_in_map_units: 1,
        crop: Some((4, 4, 0, 0)),
        ..Fixture::default()
    };
    assert_eq!(
        parse_sequence_parameter_set(&make_sps(fixture)),
        Err(SequenceParameterSetError::InvalidFrameCrop)
    );

    let mut rbsp = make_sps(Fixture::default());
    rbsp.push(0);
    assert_eq!(
        parse_sequence_parameter_set(&rbsp),
        Err(SequenceParameterSetError::InvalidRbspTrailingBits)
    );

    let mut rbsp = make_sps(Fixture::default());
    *rbsp.last_mut().unwrap() = 0;
    assert_eq!(
        parse_sequence_parameter_set(&rbsp),
        Err(SequenceParameterSetError::InvalidRbspTrailingBits)
    );
}

#[test]
fn parses_type_two_and_rejects_reference_and_dimension_overflow() {
    let mut writer = BitWriter::default();
    writer.bits(66, 8);
    writer.bits(0, 8);
    writer.bits(30, 8);
    writer.ue(0);
    writer.ue(0);
    writer.ue(2);
    writer.ue(MAX_DPB_FRAMES);
    writer.bit(false);
    writer.ue(0);
    writer.ue(0);
    writer.bit(true);
    writer.bit(true);
    writer.bit(false);
    writer.bit(false);
    let sps = parse_sequence_parameter_set(&writer.finish_rbsp()).unwrap();
    assert_eq!(sps.picture_order_count, PictureOrderCount::TypeTwo);
    assert_eq!(sps.max_num_ref_frames, 16);

    let too_many_references = make_sps(Fixture {
        max_num_ref_frames: 17,
        ..Fixture::default()
    });
    assert!(matches!(
        parse_sequence_parameter_set(&too_many_references),
        Err(SequenceParameterSetError::ValueOutOfRange {
            field: "max_num_ref_frames",
            ..
        })
    ));

    let mut writer = BitWriter::default();
    writer.bits(66, 8);
    writer.bits(0, 8);
    writer.bits(30, 8);
    writer.ue(0);
    writer.ue(0);
    writer.ue(2);
    writer.ue(0);
    writer.bit(false);
    writer.ue(u64::from(u32::MAX));
    writer.ue(0);
    assert_eq!(
        parse_sequence_parameter_set(&writer.finish_rbsp()),
        Err(SequenceParameterSetError::ArithmeticOverflow {
            field: "pic_width_in_mbs"
        })
    );
}

#[test]
fn rejects_invalid_high_profile_and_vui_constraints() {
    let mut writer = BitWriter::default();
    writer.bits(100, 8);
    writer.bits(0, 8);
    writer.bits(30, 8);
    writer.ue(0);
    writer.ue(1);
    writer.ue(0);
    writer.ue(1);
    assert!(matches!(
        parse_sequence_parameter_set(&writer.finish_rbsp()),
        Err(SequenceParameterSetError::ValueOutOfRange {
            field: "bit_depth_chroma_minus8",
            ..
        })
    ));

    let fixture = Fixture {
        vui: true,
        ..Fixture::default()
    };
    let mut writer = BitWriter::default();
    write_sps_prefix(&mut writer, fixture);
    writer.bit(true);
    writer.bits(17, 8);
    assert_eq!(
        parse_sequence_parameter_set(&writer.finish_rbsp()),
        Err(SequenceParameterSetError::ReservedAspectRatio {
            aspect_ratio_idc: 17
        })
    );

    let mut writer = BitWriter::default();
    write_sps_prefix(&mut writer, fixture);
    writer.bit(false);
    writer.bit(false);
    writer.bit(true);
    writer.bits(6, 3);
    assert!(matches!(
        parse_sequence_parameter_set(&writer.finish_rbsp()),
        Err(SequenceParameterSetError::ValueOutOfRange {
            field: "video_format",
            ..
        })
    ));

    let mut writer = BitWriter::default();
    write_sps_prefix(&mut writer, fixture);
    for _ in 0..5 {
        writer.bit(false);
    }
    writer.bit(true);
    writer.ue(MAX_CPB_COUNT_MINUS_1 + 1);
    assert!(matches!(
        parse_sequence_parameter_set(&writer.finish_rbsp()),
        Err(SequenceParameterSetError::ValueOutOfRange {
            field: "cpb_cnt_minus1",
            ..
        })
    ));
}

#[test]
fn validates_vui_decoded_buffer_limits_against_reference_count() {
    let fixture = Fixture {
        max_num_ref_frames: 5,
        vui: true,
        ..Fixture::default()
    };
    let mut writer = BitWriter::default();
    write_sps_prefix(&mut writer, fixture);
    for _ in 0..5 {
        writer.bit(false);
    }
    writer.bit(false);
    writer.bit(false);
    writer.bit(false);
    writer.bit(true);
    writer.bit(true);
    writer.ue(0);
    writer.ue(0);
    writer.ue(0);
    writer.ue(0);
    writer.ue(0);
    writer.ue(4);

    assert!(matches!(
        parse_sequence_parameter_set(&writer.finish_rbsp()),
        Err(SequenceParameterSetError::ValueOutOfRange {
            field: "max_dec_frame_buffering",
            ..
        })
    ));
}

#[test]
fn every_truncation_of_valid_sps_is_an_error() {
    let valid = make_sps(Fixture {
        profile_idc: 100,
        width_in_mbs: 120,
        height_in_map_units: 68,
        crop: Some((0, 0, 0, 4)),
        vui: true,
        ..Fixture::default()
    });

    for length in 0..valid.len() {
        assert!(
            parse_sequence_parameter_set(&valid[..length]).is_err(),
            "length={length}"
        );
    }
    assert!(parse_sequence_parameter_set(&valid).is_ok());
}

#[test]
fn exhaustive_short_inputs_and_broad_structured_inputs_are_panic_free() {
    let _ = parse_sequence_parameter_set(&[]);
    for value in u8::MIN..=u8::MAX {
        let _ = parse_sequence_parameter_set(&[value]);
    }
    for value in u16::MIN..=u16::MAX {
        let _ = parse_sequence_parameter_set(&value.to_be_bytes());
    }

    const ALPHABET: [u8; 7] = [0, 1, 0x42, 0x64, 0x80, 0xfe, 0xff];
    for length in 3..=6 {
        let combinations = ALPHABET.len().pow(length as u32);
        for mut value in 0..combinations {
            let mut input = vec![0; length];
            for byte in &mut input {
                *byte = ALPHABET[value % ALPHABET.len()];
                value /= ALPHABET.len();
            }
            let _ = parse_sequence_parameter_set(&input);
        }
    }
}

#[test]
fn sps_errors_have_stable_descriptions() {
    assert_eq!(
        SequenceParameterSetError::UnsupportedProfile { profile_idc: 1 }.to_string(),
        "unsupported H.264 profile_idc 1"
    );
    assert_eq!(
        SequenceParameterSetError::InvalidFrameCrop.to_string(),
        "SPS frame crop removes the entire coded picture"
    );
    assert_eq!(
        SequenceParameterSetError::InvalidRbspTrailingBits.to_string(),
        "SPS has invalid rbsp_trailing_bits"
    );
}
