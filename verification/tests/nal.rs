use nalcore::nal::{AnnexBNalUnits, RbspError, annex_b_nal_units, rbsp_from_ebsp};
use std::borrow::Cow;

fn collect_units(input: &[u8]) -> Vec<Vec<u8>> {
    borrowed_units(input).into_iter().map(<[u8]>::to_vec).collect()
}

fn borrowed_units(input: &[u8]) -> Vec<&[u8]> {
    let mut units = annex_b_nal_units(input);
    let mut collected = Vec::new();
    while let Some(unit) = units.next() {
        collected.push(unit);
    }
    collected
}

#[test]
fn extracts_units_after_three_and_four_byte_start_codes() {
    let input = [0, 0, 1, 0x65, 0xaa, 0, 0, 0, 1, 0x41, 0xbb, 0xcc];

    assert_eq!(
        collect_units(&input),
        vec![vec![0x65, 0xaa], vec![0x41, 0xbb, 0xcc]]
    );
}

#[test]
fn ignores_preamble_and_discards_leading_and_trailing_zeros() {
    let input = [
        0xff, 0x80, 0, 0, 0, 0, 1, 0x67, 0x12, 0, 0, 0, 0, 1, 0x68, 0, 0, 0,
    ];

    assert_eq!(collect_units(&input), vec![vec![0x67, 0x12], vec![0x68]]);
}

#[test]
fn yields_empty_units_for_consecutive_and_terminal_start_codes() {
    let input = [0, 0, 1, 0, 0, 0, 1, 0x09, 0, 0, 1];

    assert_eq!(
        collect_units(&input),
        vec![Vec::<u8>::new(), vec![0x09], Vec::new()]
    );
}

#[test]
fn empty_input_and_input_without_start_codes_have_no_units() {
    assert!(collect_units(&[]).is_empty());
    assert!(collect_units(&[0]).is_empty());
    assert!(collect_units(&[0, 0]).is_empty());
    assert!(collect_units(&[1, 2, 3, 4]).is_empty());
}

#[test]
fn start_code_like_escaped_data_remains_in_the_unit() {
    let input = [0, 0, 1, 0x65, 0, 0, 3, 1, 0x80];

    assert_eq!(collect_units(&input), vec![vec![0x65, 0, 0, 3, 1, 0x80]]);
}

#[test]
fn returned_units_borrow_the_input() {
    let input = [0, 0, 1, 0x65, 0xaa];
    let unit = annex_b_nal_units(&input).next().unwrap();

    assert_eq!(unit.as_ptr(), input[3..].as_ptr());
}

#[test]
fn annex_b_iterator_is_fused() {
    let mut units = AnnexBNalUnits::new(&[0, 0, 1, 0x65]);

    assert_eq!(units.next(), Some([0x65].as_slice()));
    assert_eq!(units.next(), None);
    assert_eq!(units.next(), None);
}

#[test]
fn rbsp_borrows_payloads_without_emulation_prevention_bytes() {
    let input = [0x67, 0x42, 0, 0, 4, 0xff];
    let rbsp = rbsp_from_ebsp(&input).unwrap();

    assert!(matches!(rbsp, Cow::Borrowed(_)));
    assert_eq!(rbsp.as_ref(), input);
}

#[test]
fn removes_all_valid_emulation_prevention_sequences() {
    let cases: &[(&[u8], &[u8])] = &[
        (&[0, 0, 3, 0], &[0, 0, 0]),
        (&[0, 0, 3, 1], &[0, 0, 1]),
        (&[0, 0, 3, 2], &[0, 0, 2]),
        (&[0, 0, 3, 3], &[0, 0, 3]),
        (&[0, 0, 3], &[0, 0]),
        (
            &[0x11, 0, 0, 3, 0, 0x22, 0, 0, 3, 3, 0x33],
            &[0x11, 0, 0, 0, 0x22, 0, 0, 3, 0x33],
        ),
    ];

    for &(ebsp, expected) in cases {
        let rbsp = rbsp_from_ebsp(ebsp).unwrap();
        assert!(matches!(rbsp, Cow::Owned(_)), "ebsp={ebsp:?}");
        assert_eq!(rbsp.as_ref(), expected, "ebsp={ebsp:?}");
    }
}

#[test]
fn rejects_each_forbidden_unescaped_sequence_at_any_offset() {
    for prefix_length in 0..=4 {
        for byte in 0..=2 {
            let mut ebsp = vec![0xaa; prefix_length];
            ebsp.extend_from_slice(&[0, 0, byte]);

            assert_eq!(
                rbsp_from_ebsp(&ebsp),
                Err(RbspError::ForbiddenSequence {
                    offset: prefix_length + 2,
                    byte,
                })
            );
        }
    }
}

#[test]
fn validates_every_byte_after_two_zeros() {
    for following in u8::MIN..=u8::MAX {
        let ebsp = [0, 0, following];
        let result = rbsp_from_ebsp(&ebsp);

        match following {
            0..=2 => assert_eq!(
                result,
                Err(RbspError::ForbiddenSequence {
                    offset: 2,
                    byte: following,
                })
            ),
            3 => assert_eq!(result.unwrap().as_ref(), [0, 0]),
            _ => assert_eq!(result.unwrap().as_ref(), ebsp),
        }
    }
}

#[test]
fn rejects_invalid_bytes_after_emulation_prevention() {
    for following in 4..=u8::MAX {
        let ebsp = [0xaa, 0, 0, 3, following];

        assert_eq!(
            rbsp_from_ebsp(&ebsp),
            Err(RbspError::InvalidEmulationPrevention {
                offset: 3,
                following,
            })
        );
    }
}

#[test]
fn nal_errors_have_stable_descriptions() {
    assert_eq!(
        RbspError::ForbiddenSequence { offset: 7, byte: 1 }.to_string(),
        "forbidden unescaped sequence ending in 0x01 at byte offset 7"
    );
    assert_eq!(
        RbspError::InvalidEmulationPrevention {
            offset: 4,
            following: 0xff
        }
        .to_string(),
        "emulation-prevention byte at offset 4 is followed by invalid byte 0xff"
    );
}

#[test]
fn broad_short_input_set_is_panic_free() {
    const ALPHABET: [u8; 7] = [0, 1, 2, 3, 4, 0x80, 0xff];

    for length in 0..=6 {
        let combinations = ALPHABET.len().pow(length as u32);
        for mut value in 0..combinations {
            let mut input = vec![0; length];
            for byte in &mut input {
                *byte = ALPHABET[value % ALPHABET.len()];
                value /= ALPHABET.len();
            }

            let units = borrowed_units(&input);
            for unit in units {
                let input_start = input.as_ptr() as usize;
                let input_end = input_start + input.len();
                let unit_start = unit.as_ptr() as usize;
                assert!(unit_start >= input_start && unit_start <= input_end);
                assert!(unit.len() <= input_end.saturating_sub(unit_start));
            }
            let _ = rbsp_from_ebsp(&input);
        }
    }
}
