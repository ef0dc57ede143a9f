//! H.264/AVC syntax parsing and decoding.
use vstd::prelude::*;
use vstd::slice::slice_subrange;
use crate::text::{hex_byte, push_hex_byte};

pub mod pps;
pub mod sps;

pub use sps::{
    AspectRatio,
    BitstreamRestrictions,
    ChromaFormat,
    ChromaLocation,
    CpbEntry,
    FrameCrop,
    HrdParameters,
    PictureOrderCount,
    ScalingList4x4,
    ScalingList8x8,
    SequenceParameterSet,
    SequenceParameterSetError,
    SequenceScalingMatrices,
    TimingInfo,
    VideoSignalType,
    VuiParameters,
    parse_sequence_parameter_set,
};

verus! {

/// The five-bit `nal_unit_type` field from an H.264 NAL unit header.
#[derive(Clone, Copy, Debug, Eq, Hash, PartialEq, Structural)]
pub enum NalUnitType {
    /// A type value whose meaning is unspecified by H.264.
    Unspecified(u8),
    /// A coded slice of a non-IDR picture.
    CodedSliceNonIdr,
    /// A coded slice data partition A.
    CodedSliceDataPartitionA,
    /// A coded slice data partition B.
    CodedSliceDataPartitionB,
    /// A coded slice data partition C.
    CodedSliceDataPartitionC,
    /// A coded slice of an IDR picture.
    CodedSliceIdr,
    /// Supplemental enhancement information.
    SupplementalEnhancementInformation,
    /// A sequence parameter set.
    SequenceParameterSet,
    /// A picture parameter set.
    PictureParameterSet,
    /// An access unit delimiter.
    AccessUnitDelimiter,
    /// The end of a sequence.
    EndOfSequence,
    /// The end of the stream.
    EndOfStream,
    /// Filler data.
    FillerData,
    /// A sequence parameter set extension.
    SequenceParameterSetExtension,
    /// A prefix NAL unit.
    Prefix,
    /// A subset sequence parameter set.
    SubsetSequenceParameterSet,
    /// A depth parameter set.
    DepthParameterSet,
    /// A type value reserved by H.264.
    Reserved(u8),
    /// A coded slice of an auxiliary coded picture.
    CodedSliceAuxiliary,
    /// A coded slice extension.
    CodedSliceExtension,
    /// A coded slice extension for a depth view component.
    CodedSliceExtensionDepthView,
}

impl NalUnitType {
    /// The raw five-bit value of each type.
    pub open spec fn spec_raw_value(self) -> u8 {
        match self {
            NalUnitType::Unspecified(value) => value,
            NalUnitType::Reserved(value) => value,
            NalUnitType::CodedSliceNonIdr => 1,
            NalUnitType::CodedSliceDataPartitionA => 2,
            NalUnitType::CodedSliceDataPartitionB => 3,
            NalUnitType::CodedSliceDataPartitionC => 4,
            NalUnitType::CodedSliceIdr => 5,
            NalUnitType::SupplementalEnhancementInformation => 6,
            NalUnitType::SequenceParameterSet => 7,
            NalUnitType::PictureParameterSet => 8,
            NalUnitType::AccessUnitDelimiter => 9,
            NalUnitType::EndOfSequence => 10,
            NalUnitType::EndOfStream => 11,
            NalUnitType::FillerData => 12,
            NalUnitType::SequenceParameterSetExtension => 13,
            NalUnitType::Prefix => 14,
            NalUnitType::SubsetSequenceParameterSet => 15,
            NalUnitType::DepthParameterSet => 16,
            NalUnitType::CodedSliceAuxiliary => 19,
            NalUnitType::CodedSliceExtension => 20,
            NalUnitType::CodedSliceExtensionDepthView => 21,
        }
    }

    /// The type is one that a header can carry: `Unspecified` holds 0 or a
    /// value from 24 through 31, and `Reserved` holds 17, 18, 22 or 23.
    pub open spec fn wf(self) -> bool {
        match self {
            NalUnitType::Unspecified(value) => value == 0 || (24 <= value <= 31),
            NalUnitType::Reserved(value) => value == 17 || value == 18 || value == 22 || value
                == 23,
            _ => true,
        }
    }

    /// Converts a raw five-bit value to its H.264 NAL unit type.
    ///
    /// Values greater than 31 do not fit in the header field and return `None`.
    pub fn from_raw(value: u8) -> (r: Option<Self>)
        ensures
            r is Some <==> value <= 31,
            r matches Some(t) ==> t.wf() && t.spec_raw_value() == value,
    {
        Some(
            match value {
                1 => NalUnitType::CodedSliceNonIdr,
                2 => NalUnitType::CodedSliceDataPartitionA,
                3 => NalUnitType::CodedSliceDataPartitionB,
                4 => NalUnitType::CodedSliceDataPartitionC,
                5 => NalUnitType::CodedSliceIdr,
                6 => NalUnitType::SupplementalEnhancementInformation,
                7 => NalUnitType::SequenceParameterSet,
                8 => NalUnitType::PictureParameterSet,
                9 => NalUnitType::AccessUnitDelimiter,
                10 => NalUnitType::EndOfSequence,
                11 => NalUnitType::EndOfStream,
                12 => NalUnitType::FillerData,
                13 => NalUnitType::SequenceParameterSetExtension,
                14 => NalUnitType::Prefix,
                15 => NalUnitType::SubsetSequenceParameterSet,
                16 => NalUnitType::DepthParameterSet,
                17 | 18 | 22 | 23 => NalUnitType::Reserved(value),
                19 => NalUnitType::CodedSliceAuxiliary,
                20 => NalUnitType::CodedSliceExtension,
                21 => NalUnitType::CodedSliceExtensionDepthView,
                0 | 24..=31 => NalUnitType::Unspecified(value),
                _ => return None,
            },
        )
    }

    /// Returns the raw five-bit value stored in the NAL unit header.
    pub fn raw_value(self) -> (r: u8)
        ensures
            r == self.spec_raw_value(),
    {
        match self {
            NalUnitType::Unspecified(value) => value,
            NalUnitType::Reserved(value) => value,
            NalUnitType::CodedSliceNonIdr => 1,
            NalUnitType::CodedSliceDataPartitionA => 2,
            NalUnitType::CodedSliceDataPartitionB => 3,
            NalUnitType::CodedSliceDataPartitionC => 4,
            NalUnitType::CodedSliceIdr => 5,
            NalUnitType::SupplementalEnhancementInformation => 6,
            NalUnitType::SequenceParameterSet => 7,
            NalUnitType::PictureParameterSet => 8,
            NalUnitType::AccessUnitDelimiter => 9,
            NalUnitType::EndOfSequence => 10,
            NalUnitType::EndOfStream => 11,
            NalUnitType::FillerData => 12,
            NalUnitType::SequenceParameterSetExtension => 13,
            NalUnitType::Prefix => 14,
            NalUnitType::SubsetSequenceParameterSet => 15,
            NalUnitType::DepthParameterSet => 16,
            NalUnitType::CodedSliceAuxiliary => 19,
            NalUnitType::CodedSliceExtension => 20,
            NalUnitType::CodedSliceExtensionDepthView => 21,
        }
    }
}

/// Law: a header-carried type is determined by its raw value, and every raw
/// value of such a type fits in five bits.
pub proof fn lemma_nal_unit_type_raw_value_is_injective(a: NalUnitType, b: NalUnitType)
    requires
        a.wf(),
        b.wf(),
    ensures
        a.spec_raw_value() <= 31,
        a.spec_raw_value() == b.spec_raw_value() ==> a == b,
{
}

/// A validated one-byte H.264 NAL unit header.
#[derive(Clone, Copy, Debug, Eq, Hash, PartialEq, Structural)]
pub struct NalHeader {
    nal_ref_idc: u8,
    nal_unit_type: NalUnitType,
}

impl NalHeader {
    /// The nal ref idc field.
    pub closed spec fn spec_nal_ref_idc(self) -> u8 {
        self.nal_ref_idc
    }

    /// Returns the two-bit reference priority field.
    pub fn nal_ref_idc(self) -> (r: u8)
        ensures
            r == self.spec_nal_ref_idc(),
    {
        self.nal_ref_idc
    }

    /// The nal unit type field.
    pub closed spec fn spec_nal_unit_type(self) -> NalUnitType {
        self.nal_unit_type
    }

    /// Returns the NAL unit type.
    pub fn nal_unit_type(self) -> (r: NalUnitType)
        ensures
            r == self.spec_nal_unit_type(),
    {
        self.nal_unit_type
    }
}

/// A parsed H.264 NAL unit that borrows its encoded payload.
#[derive(Clone, Copy, Debug, Eq, PartialEq)]
pub struct NalUnit<'a> {
    header: NalHeader,
    payload: &'a [u8],
}

impl<'a> NalUnit<'a> {
    /// The header field.
    pub closed spec fn spec_header(self) -> NalHeader {
        self.header
    }

    /// Returns the validated NAL unit header.
    pub fn header(self) -> (r: NalHeader)
        ensures
            r == self.spec_header(),
    {
        self.header
    }

    /// The payload field.
    pub closed spec fn spec_payload(self) -> &'a [u8] {
        self.payload
    }

    /// Returns the encoded byte sequence payload after the one-byte header.
    ///
    /// Extension headers, when present, remain in this payload.
    pub fn payload(self) -> (r: &'a [u8])
        ensures
            r == self.spec_payload(),
    {
        self.payload
    }
}

/// An error returned while parsing an H.264 NAL unit.
#[derive(Clone, Copy, Debug, Eq, PartialEq, Structural)]
pub enum NalUnitError {
    /// The framed NAL unit did not contain its one-byte header.
    MissingHeader,
    /// The header's required-zero `forbidden_zero_bit` was asserted.
    ForbiddenZeroBit {
        /// The invalid header byte.
        header: u8,
    },
}

impl NalUnitError {
    /// The human-readable description of the error.
    pub open spec fn description(&self) -> Seq<char> {
        match *self {
            NalUnitError::MissingHeader => "H.264 NAL unit is missing its header"@,
            NalUnitError::ForbiddenZeroBit { header } => "H.264 NAL header 0x"@ + hex_byte(header)
                + " has forbidden_zero_bit set"@,
        }
    }

    /// Renders the human-readable description of the error.
    pub fn to_string(&self) -> (text: String)
        ensures
            text@ == self.description(),
    {
        match *self {
            NalUnitError::MissingHeader => String::from_str("H.264 NAL unit is missing its header"),
            NalUnitError::ForbiddenZeroBit { header } => {
                let mut text = String::from_str("H.264 NAL header 0x");
                push_hex_byte(&mut text, header);
                text.append(" has forbidden_zero_bit set");
                text
            },
        }
    }
}

/// Parses an H.264 NAL unit from the bytes returned by Annex B framing.
///
/// The one-byte header is validated and separated from the borrowed EBSP
/// payload. Extension NAL headers are not parsed.
pub fn parse_nal_unit(input: &[u8]) -> (r: Result<NalUnit<'_>, NalUnitError>)
    ensures
        input@.len() == 0 ==> r == Err::<NalUnit<'_>, NalUnitError>(NalUnitError::MissingHeader),
        input@.len() > 0 && input@[0] & 0x80 != 0 ==> r == Err::<NalUnit<'_>, NalUnitError>(
            NalUnitError::ForbiddenZeroBit { header: input@[0] },
        ),
        input@.len() > 0 && input@[0] & 0x80 == 0 ==> (r matches Ok(unit) && {
            &&& unit.spec_header().spec_nal_ref_idc() == (input@[0] >> 5) & 0x03
            &&& unit.spec_header().spec_nal_unit_type().wf()
            &&& unit.spec_header().spec_nal_unit_type().spec_raw_value() == input@[0] & 0x1f
            &&& unit.spec_payload()@ == input@.subrange(1, input@.len() as int)
        }),
{
    if input.len() == 0 {
        return Err(NalUnitError::MissingHeader);
    }
    let header = input[0];
    if header & 0x80 != 0 {
        return Err(NalUnitError::ForbiddenZeroBit { header });
    }
    let type_value = header & 0x1f;
    assert(type_value <= 31) by (bit_vector)
        requires
            type_value == header & 0x1f,
    ;
    let nal_unit_type = match NalUnitType::from_raw(type_value) {
        Some(nal_unit_type) => nal_unit_type,
        None => NalUnitType::Unspecified(type_value),
    };
    Ok(
        NalUnit {
            header: NalHeader { nal_ref_idc: (header >> 5) & 0x03, nal_unit_type },
            payload: slice_subrange(input, 1, input.len()),
        },
    )
}

/// Law: a valid header byte is exactly the reference priority shifted above
/// the five type bits, so parsing keeps every bit of it.
pub proof fn lemma_nal_header_roundtrip(header: u8)
    requires
        header & 0x80 == 0,
    ensures
        header == ((((header >> 5) & 0x03) << 5) | (header & 0x1f)),
{
    assert(header & 0x80 == 0 ==> header == ((((header >> 5) & 0x03) << 5) | (header & 0x1f)))
        by (bit_vector);
}

} // verus!
