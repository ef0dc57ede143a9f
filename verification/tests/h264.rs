use nalcore::h264::{NalUnitError, NalUnitType, parse_nal_unit};
use nalcore::nal::{annex_b_nal_units, rbsp_from_ebsp};
use std::borrow::Cow;

#[test]
fn parses_common_vcl_and_non_vcl_types() {
    let cases = [
        (0x01, NalUnitType::CodedSliceNonIdr),
        (0x05, NalUnitType::CodedSliceIdr),
        (0x06, NalUnitType::SupplementalEnhancementInformation),
        (0x07, NalUnitType::SequenceParameterSet),
        (0x08, NalUnitType::PictureParameterSet),
        (0x09, NalUnitType::AccessUnitDelimiter),
    ];

    for (type_value, expected) in cases {
        for nal_ref_idc in 0..=3 {
            let input = [(nal_ref_idc << 5) | type_value, 0xaa, 0xbb];
            let unit = parse_nal_unit(&input).unwrap();

            assert_eq!(unit.header().nal_ref_idc(), nal_ref_idc);
            assert_eq!(unit.header().nal_unit_type(), expected);
            assert_eq!(unit.payload(), [0xaa, 0xbb]);
        }
    }
}

#[test]
fn preserves_every_reserved_and_unspecified_type_value() {
    for value in [0, 24, 25, 26, 27, 28, 29, 30, 31] {
        let input = [value];
        let unit = parse_nal_unit(&input).unwrap();
        assert_eq!(
            unit.header().nal_unit_type(),
            NalUnitType::Unspecified(value)
        );
    }

    for value in [17, 18, 22, 23] {
        let input = [value];
        let unit = parse_nal_unit(&input).unwrap();
        assert_eq!(unit.header().nal_unit_type(), NalUnitType::Reserved(value));
    }
}

#[test]
fn maps_all_defined_type_values() {
    let expected = [
        NalUnitType::Unspecified(0),
        NalUnitType::CodedSliceNonIdr,
        NalUnitType::CodedSliceDataPartitionA,
        NalUnitType::CodedSliceDataPartitionB,
        NalUnitType::CodedSliceDataPartitionC,
        NalUnitType::CodedSliceIdr,
        NalUnitType::SupplementalEnhancementInformation,
        NalUnitType::SequenceParameterSet,
        NalUnitType::PictureParameterSet,
        NalUnitType::AccessUnitDelimiter,
        NalUnitType::EndOfSequence,
        NalUnitType::EndOfStream,
        NalUnitType::FillerData,
        NalUnitType::SequenceParameterSetExtension,
        NalUnitType::Prefix,
        NalUnitType::SubsetSequenceParameterSet,
        NalUnitType::DepthParameterSet,
        NalUnitType::Reserved(17),
        NalUnitType::Reserved(18),
        NalUnitType::CodedSliceAuxiliary,
        NalUnitType::CodedSliceExtension,
        NalUnitType::CodedSliceExtensionDepthView,
        NalUnitType::Reserved(22),
        NalUnitType::Reserved(23),
        NalUnitType::Unspecified(24),
        NalUnitType::Unspecified(25),
        NalUnitType::Unspecified(26),
        NalUnitType::Unspecified(27),
        NalUnitType::Unspecified(28),
        NalUnitType::Unspecified(29),
        NalUnitType::Unspecified(30),
        NalUnitType::Unspecified(31),
    ];

    for (value, expected) in expected.into_iter().enumerate() {
        let value = value as u8;
        assert_eq!(NalUnitType::from_raw(value), Some(expected));
        assert_eq!(expected.raw_value(), value);
    }
    for value in 32..=u8::MAX {
        assert_eq!(NalUnitType::from_raw(value), None);
    }
}

#[test]
fn rejects_missing_and_forbidden_headers() {
    assert_eq!(parse_nal_unit(&[]), Err(NalUnitError::MissingHeader));

    for header in 0x80..=u8::MAX {
        assert_eq!(
            parse_nal_unit(&[header, 0xaa]),
            Err(NalUnitError::ForbiddenZeroBit { header })
        );
    }
}

#[test]
fn all_header_bytes_are_parsed_without_panicking() {
    for header in u8::MIN..=u8::MAX {
        let input = [header, 0xaa, 0xbb, 0xcc];
        let result = parse_nal_unit(&input);

        if header & 0x80 != 0 {
            assert_eq!(result, Err(NalUnitError::ForbiddenZeroBit { header }));
            continue;
        }

        let unit = result.unwrap();
        assert_eq!(unit.header().nal_ref_idc(), (header >> 5) & 0x03);
        assert_eq!(unit.header().nal_unit_type().raw_value(), header & 0x1f);
        assert_eq!(unit.payload(), &input[1..]);
        assert_eq!(unit.payload().as_ptr(), input[1..].as_ptr());
    }
}

#[test]
fn accepts_an_empty_payload() {
    let unit = parse_nal_unit(&[0x65]).unwrap();

    assert_eq!(unit.header().nal_ref_idc(), 3);
    assert_eq!(unit.header().nal_unit_type(), NalUnitType::CodedSliceIdr);
    assert!(unit.payload().is_empty());
}

#[test]
fn composes_with_annex_b_framing_and_rbsp_extraction() {
    let stream = [0, 0, 1, 0x67, 0x42, 0, 0, 3, 1, 0x80];
    let framed = annex_b_nal_units(&stream).next().unwrap();
    let unit = parse_nal_unit(framed).unwrap();
    let rbsp = rbsp_from_ebsp(unit.payload()).unwrap();

    assert_eq!(
        unit.header().nal_unit_type(),
        NalUnitType::SequenceParameterSet
    );
    assert!(matches!(rbsp, Cow::Owned(_)));
    assert_eq!(rbsp.as_ref(), [0x42, 0, 0, 1, 0x80]);
}

#[test]
fn extension_headers_remain_in_the_payload() {
    for type_value in [14, 20, 21] {
        let input = [type_value, 0xde, 0xad, 0xbe, 0xef];
        let unit = parse_nal_unit(&input).unwrap();

        assert_eq!(unit.header().nal_unit_type().raw_value(), type_value);
        assert_eq!(unit.payload(), [0xde, 0xad, 0xbe, 0xef]);
    }
}

#[test]
fn h264_errors_have_stable_descriptions() {
    assert_eq!(
        NalUnitError::MissingHeader.to_string(),
        "H.264 NAL unit is missing its header"
    );
    assert_eq!(
        NalUnitError::ForbiddenZeroBit { header: 0xe5 }.to_string(),
        "H.264 NAL header 0xe5 has forbidden_zero_bit set"
    );
}

#[test]
fn crate_bootstraps() {
    let reader = nalcore::bitstream::BitReader::new(&[]);
    assert_eq!(reader.remaining_bits(), 0);
}
