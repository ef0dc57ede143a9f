//! H.264 sequence parameter set syntax.
use vstd::prelude::*;
use vstd::arithmetic::power2::lemma2_to64;
use crate::bitstream::{
    BitReader,
    BitReaderError,
    parsed,
    spec_read_bit,
    spec_read_bits,
    spec_read_se,
    spec_read_ue,
    spec_repeat,
    lemma_repeat_error_persists,
    bits_value,
    lemma_bits_value_within,
    spec_rbsp_trailing_bits,
    lemma_repeat_len,
    extends,
    bit_at,
    spec_read_ues,
    spec_read_ses,
    lemma_reads_extend,
    lemma_repeat_extends,
};
use crate::text::{decimal, signed_decimal, push_decimal, push_signed_decimal};

verus! {

// ---------------------------------------------------------------------------
// Syntax structures.
// ---------------------------------------------------------------------------

/// The chroma sampling format signaled by an H.264 sequence parameter set.
#[derive(Clone, Copy, Debug, Eq, Hash, PartialEq, Structural)]
pub enum ChromaFormat {
    /// Monochrome samples only.
    Monochrome,
    /// 4:2:0 chroma sampling.
    Yuv420,
    /// 4:2:2 chroma sampling.
    Yuv422,
    /// 4:4:4 chroma sampling.
    Yuv444,
}

impl ChromaFormat {
    /// The raw `chroma_format_idc` value of each format.
    pub open spec fn spec_idc(self) -> u8 {
        match self {
            ChromaFormat::Monochrome => 0,
            ChromaFormat::Yuv420 => 1,
            ChromaFormat::Yuv422 => 2,
            ChromaFormat::Yuv444 => 3,
        }
    }

    /// The format signaled by a raw `chroma_format_idc` value, if any.
    pub open spec fn spec_from_idc(value: u64) -> Option<ChromaFormat> {
        if value == 0 {
            Some(ChromaFormat::Monochrome)
        } else if value == 1 {
            Some(ChromaFormat::Yuv420)
        } else if value == 2 {
            Some(ChromaFormat::Yuv422)
        } else if value == 3 {
            Some(ChromaFormat::Yuv444)
        } else {
            None
        }
    }

    fn from_idc(value: u64) -> (r: Result<Self, SequenceParameterSetError>)
        ensures
            match ChromaFormat::spec_from_idc(value) {
                Some(format) => r == Ok::<ChromaFormat, SequenceParameterSetError>(format),
                None => r == Err::<ChromaFormat, SequenceParameterSetError>(
                    spec_out_of_range("chroma_format_idc", value, 0, 3),
                ),
            },
    {
        match value {
            0 => Ok(ChromaFormat::Monochrome),
            1 => Ok(ChromaFormat::Yuv420),
            2 => Ok(ChromaFormat::Yuv422),
            3 => Ok(ChromaFormat::Yuv444),
            _ => Err(out_of_range("chroma_format_idc", value, 0, 3)),
        }
    }

    /// Returns the raw `chroma_format_idc` value.
    pub fn idc(self) -> (r: u8)
        ensures
            r == self.spec_idc(),
    {
        match self {
            ChromaFormat::Monochrome => 0,
            ChromaFormat::Yuv420 => 1,
            ChromaFormat::Yuv422 => 2,
            ChromaFormat::Yuv444 => 3,
        }
    }
}

/// Law: the raw `chroma_format_idc` value and the format determine each
/// other.
pub proof fn lemma_chroma_format_idc_roundtrip(format: ChromaFormat, value: u64)
    ensures
        ChromaFormat::spec_from_idc(format.spec_idc() as u64) == Some(format),
        ChromaFormat::spec_from_idc(value) matches Some(f) ==> f.spec_idc() == value,
        ChromaFormat::spec_from_idc(value) is Some <==> value <= 3,
{
}

/// A parsed 4x4 sequence scaling list.
#[derive(Clone, Copy, Debug, Eq, PartialEq)]
pub struct ScalingList4x4 {
    /// The decoded scaling-list values.
    pub values: [u8; 16],
    /// Whether the syntax selects the standard default matrix.
    pub use_default: bool,
}

/// A parsed 8x8 sequence scaling list.
#[derive(Clone, Copy, Debug, Eq, PartialEq)]
pub struct ScalingList8x8 {
    /// The decoded scaling-list values.
    pub values: [u8; 64],
    /// Whether the syntax selects the standard default matrix.
    pub use_default: bool,
}

/// The model of a scaling list: its values and whether it selects the
/// default matrix.
pub struct ScalingListView {
    pub values: Seq<u8>,
    pub use_default: bool,
}

impl View for ScalingList4x4 {
    type V = ScalingListView;

    open spec fn view(&self) -> ScalingListView {
        ScalingListView { values: self.values@, use_default: self.use_default }
    }
}

impl View for ScalingList8x8 {
    type V = ScalingListView;

    open spec fn view(&self) -> ScalingListView {
        ScalingListView { values: self.values@, use_default: self.use_default }
    }
}

/// The model of an optional scaling list.
pub open spec fn optional_list_view<T: View<V = ScalingListView>>(list: Option<T>) -> Option<
    ScalingListView,
> {
    match list {
        Some(l) => Some(l@),
        None => None,
    }
}

/// The model of the six optional 4x4 lists and the six optional 8x8 lists.
pub open spec fn lists_view(
    lists_4x4: [Option<ScalingList4x4>; 6],
    lists_8x8: [Option<ScalingList8x8>; 6],
) -> ScalingMatricesView {
    ScalingMatricesView {
        lists_4x4: lists_4x4@.map_values(|l: Option<ScalingList4x4>| optional_list_view(l)),
        lists_8x8: lists_8x8@.map_values(|l: Option<ScalingList8x8>| optional_list_view(l)),
    }
}

/// Scaling matrices explicitly present in a sequence parameter set.
#[derive(Clone, Debug, Eq, PartialEq)]
pub struct SequenceScalingMatrices {
    /// The six possible 4x4 scaling lists.
    pub lists_4x4: [Option<ScalingList4x4>; 6],
    /// The six possible 8x8 scaling lists. Non-4:4:4 streams use only the
    /// first two entries.
    pub lists_8x8: [Option<ScalingList8x8>; 6],
}

/// The model of a set of scaling matrices.
pub struct ScalingMatricesView {
    pub lists_4x4: Seq<Option<ScalingListView>>,
    pub lists_8x8: Seq<Option<ScalingListView>>,
}

impl View for SequenceScalingMatrices {
    type V = ScalingMatricesView;

    open spec fn view(&self) -> ScalingMatricesView {
        lists_view(self.lists_4x4, self.lists_8x8)
    }
}

// ---------------------------------------------------------------------------
// Errors.
// ---------------------------------------------------------------------------

/// An error returned while parsing an H.264 sequence parameter set.
#[derive(Clone, Debug, Eq, PartialEq)]
pub enum SequenceParameterSetError {
    /// A bitstream primitive could not be read.
    Bitstream(BitReaderError),
    /// The profile uses SPS syntax not supported by this parser.
    UnsupportedProfile {
        /// Unsupported `profile_idc`.
        profile_idc: u8,
    },
    /// Reserved SPS header bits were nonzero.
    ReservedBitsNonZero {
        /// The invalid two-bit value.
        value: u8,
    },
    /// An unsigned syntax value was outside its allowed range.
    ValueOutOfRange {
        /// Syntax field name.
        field: &'static str,
        /// Invalid value.
        value: u64,
        /// Smallest accepted value.
        minimum: u64,
        /// Largest accepted value.
        maximum: u64,
    },
    /// A signed syntax value was outside its allowed range.
    SignedValueOutOfRange {
        /// Syntax field name.
        field: &'static str,
        /// Invalid value.
        value: i64,
        /// Smallest accepted value.
        minimum: i64,
        /// Largest accepted value.
        maximum: i64,
    },
    /// A derived value did not fit its public representation.
    ArithmeticOverflow {
        /// Value being derived.
        field: &'static str,
    },
    /// Frame crop offsets remove the entire coded width or height.
    InvalidFrameCrop,
    /// A field required by the specification to be nonzero was zero.
    ZeroValue {
        /// Syntax field name.
        field: &'static str,
    },
    /// A reserved VUI aspect-ratio identifier was used.
    ReservedAspectRatio {
        /// Reserved `aspect_ratio_idc`.
        aspect_ratio_idc: u8,
    },
    /// The RBSP stop bit or its alignment bits were malformed.
    InvalidRbspTrailingBits,
}

impl SequenceParameterSetError {
    /// The human-readable description of the error.
    pub open spec fn description(&self) -> Seq<char> {
        match *self {
            SequenceParameterSetError::Bitstream(error) => "invalid SPS bitstream: "@
                + error.description(),
            SequenceParameterSetError::UnsupportedProfile { profile_idc } => "unsupported H.264 profile_idc "@
                + decimal(profile_idc as nat),
            SequenceParameterSetError::ReservedBitsNonZero { value } => "SPS reserved_zero_2bits is "@
                + decimal(value as nat) + ", expected zero"@,
            SequenceParameterSetError::ValueOutOfRange { field, value, minimum, maximum } => "SPS field "@
                + field@ + " has value "@ + decimal(value as nat) + ", expected "@ + decimal(
                minimum as nat,
            ) + "..="@ + decimal(maximum as nat),
            SequenceParameterSetError::SignedValueOutOfRange {
                field,
                value,
                minimum,
                maximum,
            } => "SPS field "@ + field@ + " has value "@ + signed_decimal(value as int)
                + ", expected "@ + signed_decimal(minimum as int) + "..="@ + signed_decimal(
                maximum as int,
            ),
            SequenceParameterSetError::ArithmeticOverflow { field } => "SPS "@ + field@
                + " arithmetic overflow"@,
            SequenceParameterSetError::InvalidFrameCrop => "SPS frame crop removes the entire coded picture"@,
            SequenceParameterSetError::ZeroValue { field } => "SPS field "@ + field@
                + " must not be zero"@,
            SequenceParameterSetError::ReservedAspectRatio { aspect_ratio_idc } => "SPS uses reserved aspect_ratio_idc "@
                + decimal(aspect_ratio_idc as nat),
            SequenceParameterSetError::InvalidRbspTrailingBits => "SPS has invalid rbsp_trailing_bits"@,
        }
    }

    /// Renders the human-readable description of the error.
    pub fn to_string(&self) -> (text: String)
        ensures
            text@ == self.description(),
    {
        match *self {
            SequenceParameterSetError::Bitstream(error) => {
                let mut text = String::from_str("invalid SPS bitstream: ");
                let inner = error.to_string();
                text.append(inner.as_str());
                text
            },
            SequenceParameterSetError::UnsupportedProfile { profile_idc } => {
                let mut text = String::from_str("unsupported H.264 profile_idc ");
                push_decimal(&mut text, profile_idc as u64);
                text
            },
            SequenceParameterSetError::ReservedBitsNonZero { value } => {
                let mut text = String::from_str("SPS reserved_zero_2bits is ");
                push_decimal(&mut text, value as u64);
                text.append(", expected zero");
                text
            },
            SequenceParameterSetError::ValueOutOfRange { field, value, minimum, maximum } => {
                let mut text = String::from_str("SPS field ");
                text.append(field);
                text.append(" has value ");
                push_decimal(&mut text, value);
                text.append(", expected ");
                push_decimal(&mut text, minimum);
                text.append("..=");
                push_decimal(&mut text, maximum);
                text
            },
            SequenceParameterSetError::SignedValueOutOfRange { field, value, minimum, maximum } => {
                let mut text = String::from_str("SPS field ");
                text.append(field);
                text.append(" has value ");
                push_signed_decimal(&mut text, value);
                text.append(", expected ");
                push_signed_decimal(&mut text, minimum);
                text.append("..=");
                push_signed_decimal(&mut text, maximum);
                text
            },
            SequenceParameterSetError::ArithmeticOverflow { field } => {
                let mut text = String::from_str("SPS ");
                text.append(field);
                text.append(" arithmetic overflow");
                text
            },
            SequenceParameterSetError::InvalidFrameCrop => String::from_str(
                "SPS frame crop removes the entire coded picture",
            ),
            SequenceParameterSetError::ZeroValue { field } => {
                let mut text = String::from_str("SPS field ");
                text.append(field);
                text.append(" must not be zero");
                text
            },
            SequenceParameterSetError::ReservedAspectRatio { aspect_ratio_idc } => {
                let mut text = String::from_str("SPS uses reserved aspect_ratio_idc ");
                push_decimal(&mut text, aspect_ratio_idc as u64);
                text
            },
            SequenceParameterSetError::InvalidRbspTrailingBits => String::from_str(
                "SPS has invalid rbsp_trailing_bits",
            ),
        }
    }
}

impl From<BitReaderError> for SequenceParameterSetError {
    fn from(error: BitReaderError) -> (r: Self) {
        SequenceParameterSetError::Bitstream(error)
    }
}

impl vstd::std_specs::convert::FromSpecImpl<BitReaderError> for SequenceParameterSetError {
    open spec fn obeys_from_spec() -> bool {
        true
    }

    open spec fn from_spec(v: BitReaderError) -> Self {
        SequenceParameterSetError::Bitstream(v)
    }
}

/// The range error for an unsigned syntax value.
pub open spec fn spec_out_of_range(field: &'static str, value: u64, minimum: u64, maximum: u64) -> SequenceParameterSetError {
    SequenceParameterSetError::ValueOutOfRange { field, value, minimum, maximum }
}

fn out_of_range(field: &'static str, value: u64, minimum: u64, maximum: u64) -> (e: SequenceParameterSetError)
    ensures
        e == spec_out_of_range(field, value, minimum, maximum),
{
    SequenceParameterSetError::ValueOutOfRange { field, value, minimum, maximum }
}

// ---------------------------------------------------------------------------
// Syntax model of the primitive reads.
// ---------------------------------------------------------------------------

/// A bitstream read whose error is reported as an SPS error.
pub open spec fn from_bits<T>(r: Result<(T, int), BitReaderError>) -> Result<
    (T, int),
    SequenceParameterSetError,
> {
    match r {
        Ok(x) => Ok(x),
        Err(e) => Err(SequenceParameterSetError::Bitstream(e)),
    }
}

/// A flag.
pub open spec fn sps_bit(d: Seq<u8>, p: int) -> Result<(bool, int), SequenceParameterSetError> {
    from_bits(spec_read_bit(d, p))
}

/// An unsigned fixed-width field.
pub open spec fn sps_bits(d: Seq<u8>, p: int, width: usize) -> Result<
    (u64, int),
    SequenceParameterSetError,
> {
    from_bits(spec_read_bits(d, p, width))
}

/// An unsigned Exp-Golomb value within `minimum..=maximum`.
pub open spec fn sps_bounded(
    d: Seq<u8>,
    p: int,
    field: &'static str,
    minimum: u64,
    maximum: u64,
) -> Result<(u64, int), SequenceParameterSetError> {
    match from_bits(spec_read_ue(d, p)) {
        Err(e) => Err(e),
        Ok((value, end)) => if minimum <= value && value <= maximum {
            Ok((value, end))
        } else {
            Err(spec_out_of_range(field, value, minimum, maximum))
        },
    }
}

/// An unsigned Exp-Golomb value that must fit in `u32`.
pub open spec fn sps_u32_ue(d: Seq<u8>, p: int, field: &'static str) -> Result<
    (u32, int),
    SequenceParameterSetError,
> {
    match from_bits(spec_read_ue(d, p)) {
        Err(e) => Err(e),
        Ok((value, end)) => if value <= u32::MAX {
            Ok((value as u32, end))
        } else {
            Err(spec_out_of_range(field, value, 0, u32::MAX as u64))
        },
    }
}

/// A signed Exp-Golomb value within the symmetric `i32` range.
pub open spec fn sps_i32_se(d: Seq<u8>, p: int, field: &'static str) -> Result<
    (i32, int),
    SequenceParameterSetError,
> {
    match from_bits(spec_read_se(d, p)) {
        Err(e) => Err(e),
        Ok((value, end)) => if i32::MIN + 1 <= value && value <= i32::MAX {
            Ok((value as i32, end))
        } else {
            Err(
                SequenceParameterSetError::SignedValueOutOfRange {
                    field,
                    value,
                    minimum: (i32::MIN + 1) as i64,
                    maximum: i32::MAX as i64,
                },
            )
        },
    }
}

fn read_bit(reader: &mut BitReader) -> (r: Result<bool, SequenceParameterSetError>)
    requires
        old(reader).wf(),
    ensures
        final(reader).wf(),
        final(reader).data() == old(reader).data(),
        parsed(sps_bit(old(reader).data(), old(reader).pos()), r, final(reader).pos()),
{
    match reader.read_bit() {
        Ok(b) => Ok(b),
        Err(e) => Err(SequenceParameterSetError::Bitstream(e)),
    }
}

fn read_bits(reader: &mut BitReader, width: usize) -> (r: Result<u64, SequenceParameterSetError>)
    requires
        old(reader).wf(),
    ensures
        final(reader).wf(),
        final(reader).data() == old(reader).data(),
        parsed(sps_bits(old(reader).data(), old(reader).pos(), width), r, final(reader).pos()),
        r matches Ok(v) ==> width <= 64 && v == bits_value(old(reader).data(), old(reader).pos(), width as nat),
{
    match reader.read_bits(width) {
        Ok(v) => {
            proof {
                lemma_bits_value_within(old(reader).data(), old(reader).pos(), width as nat, 64);
                vstd::arithmetic::power2::lemma2_to64();
            }
            Ok(v)
        },
        Err(e) => Err(SequenceParameterSetError::Bitstream(e)),
    }
}

fn read_u8(reader: &mut BitReader, width: usize) -> (r: Result<u8, SequenceParameterSetError>)
    requires
        old(reader).wf(),
        width <= 8,
    ensures
        final(reader).wf(),
        final(reader).data() == old(reader).data(),
        match r {
            Ok(v) => sps_bits(old(reader).data(), old(reader).pos(), width) == Ok::<
                (u64, int),
                SequenceParameterSetError,
            >((v as u64, final(reader).pos())),
            Err(e) => sps_bits(old(reader).data(), old(reader).pos(), width) == Err::<
                (u64, int),
                SequenceParameterSetError,
            >(e),
        },
        r matches Ok(v) ==> v < vstd::arithmetic::power2::pow2(width as nat),
{
    let value = match read_bits(reader, width) {
        Ok(v) => v,
        Err(e) => return Err(e),
    };
    proof {
        lemma_bits_value_within(old(reader).data(), old(reader).pos(), width as nat, 8);
        lemma_bits_value_within(old(reader).data(), old(reader).pos(), width as nat, width as nat);
    }
    Ok(value as u8)
}

fn read_ue(reader: &mut BitReader) -> (r: Result<u64, SequenceParameterSetError>)
    requires
        old(reader).wf(),
    ensures
        final(reader).wf(),
        final(reader).data() == old(reader).data(),
        parsed(from_bits(spec_read_ue(old(reader).data(), old(reader).pos())), r, final(reader).pos()),
{
    match reader.read_ue() {
        Ok(v) => Ok(v),
        Err(e) => Err(SequenceParameterSetError::Bitstream(e)),
    }
}

fn read_u16(reader: &mut BitReader, width: usize) -> (r: Result<u16, SequenceParameterSetError>)
    requires
        old(reader).wf(),
        width <= 16,
    ensures
        final(reader).wf(),
        final(reader).data() == old(reader).data(),
        match r {
            Ok(v) => sps_bits(old(reader).data(), old(reader).pos(), width) == Ok::<
                (u64, int),
                SequenceParameterSetError,
            >((v as u64, final(reader).pos())),
            Err(e) => sps_bits(old(reader).data(), old(reader).pos(), width) == Err::<
                (u64, int),
                SequenceParameterSetError,
            >(e),
        },
{
    let value = match read_bits(reader, width) {
        Ok(v) => v,
        Err(e) => return Err(e),
    };
    proof {
        lemma_bits_value_within(old(reader).data(), old(reader).pos(), width as nat, 16);
    }
    Ok(value as u16)
}

fn read_u32(reader: &mut BitReader, width: usize) -> (r: Result<u32, SequenceParameterSetError>)
    requires
        old(reader).wf(),
        width <= 32,
    ensures
        final(reader).wf(),
        final(reader).data() == old(reader).data(),
        match r {
            Ok(v) => sps_bits(old(reader).data(), old(reader).pos(), width) == Ok::<
                (u64, int),
                SequenceParameterSetError,
            >((v as u64, final(reader).pos())),
            Err(e) => sps_bits(old(reader).data(), old(reader).pos(), width) == Err::<
                (u64, int),
                SequenceParameterSetError,
            >(e),
        },
{
    let value = match read_bits(reader, width) {
        Ok(v) => v,
        Err(e) => return Err(e),
    };
    proof {
        lemma_bits_value_within(old(reader).data(), old(reader).pos(), width as nat, 32);
    }
    Ok(value as u32)
}

fn read_bounded(
    reader: &mut BitReader,
    field: &'static str,
    minimum: u64,
    maximum: u64,
) -> (r: Result<u64, SequenceParameterSetError>)
    requires
        old(reader).wf(),
    ensures
        final(reader).wf(),
        final(reader).data() == old(reader).data(),
        parsed(sps_bounded(old(reader).data(), old(reader).pos(), field, minimum, maximum), r, final(reader).pos()),
        r matches Ok(v) ==> minimum <= v <= maximum,
{
    let value = match read_ue(reader) {
        Ok(v) => v,
        Err(e) => return Err(e),
    };
    if !(minimum <= value && value <= maximum) {
        return Err(out_of_range(field, value, minimum, maximum));
    }
    Ok(value)
}

fn read_bounded_u8(
    reader: &mut BitReader,
    field: &'static str,
    minimum: u64,
    maximum: u64,
) -> (r: Result<u8, SequenceParameterSetError>)
    requires
        old(reader).wf(),
        maximum <= u8::MAX,
    ensures
        final(reader).wf(),
        final(reader).data() == old(reader).data(),
        match r {
            Ok(v) => sps_bounded(old(reader).data(), old(reader).pos(), field, minimum, maximum)
                == Ok::<(u64, int), SequenceParameterSetError>((v as u64, final(reader).pos())),
            Err(e) => sps_bounded(old(reader).data(), old(reader).pos(), field, minimum, maximum)
                == Err::<(u64, int), SequenceParameterSetError>(e),
        },
        r matches Ok(v) ==> minimum <= v <= maximum,
{
    match read_bounded(reader, field, minimum, maximum) {
        Ok(v) => Ok(v as u8),
        Err(e) => Err(e),
    }
}

fn read_bounded_u16(
    reader: &mut BitReader,
    field: &'static str,
    minimum: u64,
    maximum: u64,
) -> (r: Result<u16, SequenceParameterSetError>)
    requires
        old(reader).wf(),
        maximum <= u16::MAX,
    ensures
        final(reader).wf(),
        final(reader).data() == old(reader).data(),
        match r {
            Ok(v) => sps_bounded(old(reader).data(), old(reader).pos(), field, minimum, maximum)
                == Ok::<(u64, int), SequenceParameterSetError>((v as u64, final(reader).pos())),
            Err(e) => sps_bounded(old(reader).data(), old(reader).pos(), field, minimum, maximum)
                == Err::<(u64, int), SequenceParameterSetError>(e),
        },
        r matches Ok(v) ==> minimum <= v <= maximum,
{
    match read_bounded(reader, field, minimum, maximum) {
        Ok(v) => Ok(v as u16),
        Err(e) => Err(e),
    }
}

fn read_bounded_u32(
    reader: &mut BitReader,
    field: &'static str,
    minimum: u64,
    maximum: u64,
) -> (r: Result<u32, SequenceParameterSetError>)
    requires
        old(reader).wf(),
        maximum <= u32::MAX,
    ensures
        final(reader).wf(),
        final(reader).data() == old(reader).data(),
        match r {
            Ok(v) => sps_bounded(old(reader).data(), old(reader).pos(), field, minimum, maximum)
                == Ok::<(u64, int), SequenceParameterSetError>((v as u64, final(reader).pos())),
            Err(e) => sps_bounded(old(reader).data(), old(reader).pos(), field, minimum, maximum)
                == Err::<(u64, int), SequenceParameterSetError>(e),
        },
        r matches Ok(v) ==> minimum <= v <= maximum,
{
    match read_bounded(reader, field, minimum, maximum) {
        Ok(v) => Ok(v as u32),
        Err(e) => Err(e),
    }
}

fn read_u32_ue(reader: &mut BitReader, field: &'static str) -> (r: Result<
    u32,
    SequenceParameterSetError,
>)
    requires
        old(reader).wf(),
    ensures
        final(reader).wf(),
        final(reader).data() == old(reader).data(),
        parsed(sps_u32_ue(old(reader).data(), old(reader).pos(), field), r, final(reader).pos()),
{
    let value = match read_ue(reader) {
        Ok(v) => v,
        Err(e) => return Err(e),
    };
    if value > u32::MAX as u64 {
        return Err(out_of_range(field, value, 0, u32::MAX as u64));
    }
    Ok(value as u32)
}

fn read_i32_se(reader: &mut BitReader, field: &'static str) -> (r: Result<
    i32,
    SequenceParameterSetError,
>)
    requires
        old(reader).wf(),
    ensures
        final(reader).wf(),
        final(reader).data() == old(reader).data(),
        parsed(sps_i32_se(old(reader).data(), old(reader).pos(), field), r, final(reader).pos()),
{
    let value = match reader.read_se() {
        Ok(v) => v,
        Err(e) => return Err(SequenceParameterSetError::Bitstream(e)),
    };
    let minimum: i64 = i32::MIN as i64 + 1;
    let maximum: i64 = i32::MAX as i64;
    if !(minimum <= value && value <= maximum) {
        return Err(
            SequenceParameterSetError::SignedValueOutOfRange { field, value, minimum, maximum },
        );
    }
    Ok(value as i32)
}

// ---------------------------------------------------------------------------
// Scaling lists, shared with the picture parameter set.
// ---------------------------------------------------------------------------

/// An error found while reading a scaling list.
#[derive(Clone, Copy, Debug, Eq, PartialEq)]
pub enum ScalingListError {
    /// A bitstream primitive could not be read.
    Bitstream(BitReaderError),
    /// A `delta_scale` value fell outside `-128..=127`.
    DeltaScaleOutOfRange(i64),
}

/// The state of a scaling-list decode: the values so far, the last scale,
/// the next scale and whether the default matrix was selected.
pub struct ScalingListState {
    pub values: Seq<u8>,
    pub last: int,
    pub next: int,
    pub use_default: bool,
}

/// Decoding the scaling-list entry at `index`: while the next scale is
/// nonzero, a `delta_scale` is read and the next scale becomes
/// `(last + delta + 256) % 256`; the entry is the next scale, or the last one
/// when the next scale is zero.
pub open spec fn scaling_list_step(d: Seq<u8>, p: int, index: int, state: ScalingListState) -> Result<
    (ScalingListState, int),
    ScalingListError,
> {
    if state.next != 0 {
        match spec_read_se(d, p) {
            Err(e) => Err(ScalingListError::Bitstream(e)),
            Ok((delta, end)) => if delta < -128 || delta > 127 {
                Err(ScalingListError::DeltaScaleOutOfRange(delta))
            } else {
                let next = (state.last + delta + 256) % 256;
                let scale = if next == 0 {
                    state.last
                } else {
                    next
                };
                Ok(
                    (
                        ScalingListState {
                            values: state.values.push(scale as u8),
                            last: scale,
                            next,
                            use_default: index == 0 && next == 0,
                        },
                        end,
                    ),
                )
            },
        }
    } else {
        Ok(
            (
                ScalingListState {
                    values: state.values.push(state.last as u8),
                    last: state.last,
                    next: state.next,
                    use_default: state.use_default,
                },
                p,
            ),
        )
    }
}

/// Decoding the first `n` entries of a scaling list.
#[verifier::opaque]
pub open spec fn scaling_list_syntax(d: Seq<u8>, p: int, n: nat) -> Result<
    (ScalingListState, int),
    ScalingListError,
>
    decreases n,
{
    if n == 0 {
        Ok((ScalingListState { values: Seq::empty(), last: 8, next: 8, use_default: false }, p))
    } else {
        match scaling_list_syntax(d, p, (n - 1) as nat) {
            Err(e) => Err(e),
            Ok((state, end)) => scaling_list_step(d, end, n - 1, state),
        }
    }
}

proof fn lemma_scaling_list_error_persists(d: Seq<u8>, p: int, k: nat, m: nat)
    requires
        k <= m,
        scaling_list_syntax(d, p, k) is Err,
    ensures
        scaling_list_syntax(d, p, m) == scaling_list_syntax(d, p, k),
    decreases m - k,
{
    reveal(scaling_list_syntax);
    if k < m {
        lemma_scaling_list_error_persists(d, p, k, (m - 1) as nat);
    }
}

/// Law: every decoded scaling-list entry lies in `1..=255`, and a list that
/// selects the default matrix holds the flat value 8 throughout.
pub proof fn lemma_scaling_list_entries(d: Seq<u8>, p: int, n: nat)
    ensures
        scaling_list_syntax(d, p, n) matches Ok((state, _)) ==> {
            &&& state.values.len() == n
            &&& 1 <= state.last <= 255
            &&& 0 <= state.next <= 255
            &&& forall|i: int| 0 <= i < n ==> 1 <= #[trigger] state.values[i] <= 255
            &&& state.use_default ==> state.next == 0 && state.last == 8 && forall|i: int|
                0 <= i < n ==> #[trigger] state.values[i] == 8
        },
    decreases n,
{
    reveal(scaling_list_syntax);
    if n > 0 {
        lemma_scaling_list_entries(d, p, (n - 1) as nat);
        if let Ok((state, _)) = scaling_list_syntax(d, p, n) {
            let (prev, _) = scaling_list_syntax(d, p, (n - 1) as nat)->Ok_0;
            assert(state.values == prev.values.push(state.values[n - 1]));
            if state.use_default {
                assert forall|i: int| 0 <= i < n implies #[trigger] state.values[i] == 8 by {
                    if i < n - 1 {
                        assert(state.values[i] == prev.values[i]);
                    }
                }
            }
        }
    }
}

fn parse_scaling_list<const N: usize>(reader: &mut BitReader) -> (r: Result<
    ([u8; N], bool),
    ScalingListError,
>)
    requires
        old(reader).wf(),
    ensures
        final(reader).wf(),
        final(reader).data() == old(reader).data(),
        match r {
            Ok((values, use_default)) => scaling_list_syntax(
                old(reader).data(),
                old(reader).pos(),
                N as nat,
            ) matches Ok((state, end)) && end == final(reader).pos() && state.values == values@
                && state.use_default == use_default,
            Err(e) => scaling_list_syntax(old(reader).data(), old(reader).pos(), N as nat) == Err::<
                (ScalingListState, int),
                ScalingListError,
            >(e),
        },
{
    proof {
        reveal(scaling_list_syntax);
    }
    let ghost d = reader.data();
    let ghost p = reader.pos();
    let mut values: [u8; N] = [0u8; N];
    proof {
        vstd::array::array_len_matches_n(&values);
    }
    let mut last_scale: i64 = 8;
    let mut next_scale: i64 = 8;
    let mut use_default = false;
    let mut index: usize = 0;
    assert(values@.subrange(0, 0) =~= Seq::<u8>::empty());
    while index < N
        invariant
            reader.wf(),
            reader.data() == d,
            d == old(reader).data(),
            p == old(reader).pos(),
            index <= N,
            values@.len() == N,
            1 <= last_scale <= 255,
            0 <= next_scale <= 255,
            scaling_list_syntax(d, p, index as nat) == Ok::<(ScalingListState, int), ScalingListError>(
                (
                    ScalingListState {
                        values: values@.subrange(0, index as int),
                        last: last_scale as int,
                        next: next_scale as int,
                        use_default,
                    },
                    reader.pos(),
                ),
            ),
        decreases N - index,
    {
        proof {
            reveal(scaling_list_syntax);
        }
        let ghost before = values@;
        if next_scale != 0 {
            let delta_scale = match reader.read_se() {
                Ok(v) => v,
                Err(e) => {
                    proof {
                        lemma_scaling_list_error_persists(d, p, (index + 1) as nat, N as nat);
                    }
                    return Err(ScalingListError::Bitstream(e));
                },
            };
            if delta_scale < -128 || delta_scale > 127 {
                proof {
                    lemma_scaling_list_error_persists(d, p, (index + 1) as nat, N as nat);
                }
                return Err(ScalingListError::DeltaScaleOutOfRange(delta_scale));
            }
            next_scale = (last_scale + delta_scale + 256) % 256;
            use_default = index == 0 && next_scale == 0;
        }
        let scale = if next_scale == 0 {
            last_scale
        } else {
            next_scale
        };
        values[index] = scale as u8;
        last_scale = scale;
        index = index + 1;
        assert(values@.subrange(0, index as int) == before.subrange(0, index - 1).push(scale as u8));
    }
    assert(values@.subrange(0, N as int) == values@);
    Ok((values, use_default))
}

/// The model of a decoded scaling list.
pub open spec fn list_view_of(state: ScalingListState) -> ScalingListView {
    ScalingListView { values: state.values, use_default: state.use_default }
}

/// Six absent scaling lists.
pub open spec fn no_lists() -> Seq<Option<ScalingListView>> {
    Seq::new(6, |i: int| None)
}

/// Reading the first `count` entries of a scaling-matrix syntax structure:
/// each entry is a presence flag, followed when set by a 16-entry list for
/// indices below six and by a 64-entry list otherwise.
pub open spec fn scaling_lists_syntax(d: Seq<u8>, p: int, count: nat) -> Result<
    (ScalingMatricesView, int),
    ScalingListError,
>
    decreases count,
{
    if count == 0 {
        Ok((ScalingMatricesView { lists_4x4: no_lists(), lists_8x8: no_lists() }, p))
    } else {
        match scaling_lists_syntax(d, p, (count - 1) as nat) {
            Err(e) => Err(e),
            Ok((lists, q)) => {
                let index = count - 1;
                match spec_read_bit(d, q) {
                    Err(e) => Err(ScalingListError::Bitstream(e)),
                    Ok((present, q1)) => if !present {
                        Ok((lists, q1))
                    } else if index < 6 {
                        match scaling_list_syntax(d, q1, 16) {
                            Err(e) => Err(e),
                            Ok((state, q2)) => Ok(
                                (
                                    ScalingMatricesView {
                                        lists_4x4: lists.lists_4x4.update(
                                            index,
                                            Some(list_view_of(state)),
                                        ),
                                        lists_8x8: lists.lists_8x8,
                                    },
                                    q2,
                                ),
                            ),
                        }
                    } else {
                        match scaling_list_syntax(d, q1, 64) {
                            Err(e) => Err(e),
                            Ok((state, q2)) => Ok(
                                (
                                    ScalingMatricesView {
                                        lists_4x4: lists.lists_4x4,
                                        lists_8x8: lists.lists_8x8.update(
                                            index - 6,
                                            Some(list_view_of(state)),
                                        ),
                                    },
                                    q2,
                                ),
                            ),
                        }
                    },
                }
            },
        }
    }
}

/// Law: a scaling-matrix structure with `count` entries holds six 4x4 and
/// six 8x8 slots, and leaves every 8x8 slot at or beyond `count - 6` absent.
pub proof fn lemma_scaling_lists_slots(d: Seq<u8>, p: int, count: nat)
    requires
        count <= 12,
    ensures
        scaling_lists_syntax(d, p, count) matches Ok((lists, _)) ==> {
            &&& lists.lists_4x4.len() == 6
            &&& lists.lists_8x8.len() == 6
            &&& forall|i: int| 0 <= i < 6 && i + 6 >= count ==> #[trigger] lists.lists_8x8[i] is None
        },
    decreases count,
{
    if count == 0 {
        assert forall|i: int| 0 <= i < 6 implies #[trigger] no_lists()[i] is None by {}
    } else {
        lemma_scaling_lists_slots(d, p, (count - 1) as nat);
        if let Ok((before, q)) = scaling_lists_syntax(d, p, (count - 1) as nat) {
            let index = count - 1;
            if let Ok((present, q1)) = spec_read_bit(d, q) {
                if present && index >= 6 {
                    if let Ok((state, q2)) = scaling_list_syntax(d, q1, 64) {
                        let after = before.lists_8x8.update(index - 6, Some(list_view_of(state)));
                        assert(scaling_lists_syntax(d, p, count) == Ok::<
                            (ScalingMatricesView, int),
                            ScalingListError,
                        >(
                            (
                                ScalingMatricesView { lists_4x4: before.lists_4x4, lists_8x8: after },
                                q2,
                            ),
                        ));
                        assert forall|i: int| 0 <= i < 6 && i + 6 >= count implies #[trigger] after[i] is None by {
                            assert(before.lists_8x8[i] is None);
                        }
                    }
                }
            }
        }
    }
}

proof fn lemma_scaling_lists_error_persists(d: Seq<u8>, p: int, k: nat, m: nat)
    requires
        k <= m,
        scaling_lists_syntax(d, p, k) is Err,
    ensures
        scaling_lists_syntax(d, p, m) == scaling_lists_syntax(d, p, k),
    decreases m - k,
{
    if k < m {
        lemma_scaling_lists_error_persists(d, p, k, (m - 1) as nat);
    }
}

fn parse_scaling_list_4x4(reader: &mut BitReader) -> (r: Result<ScalingList4x4, ScalingListError>)
    requires
        old(reader).wf(),
    ensures
        final(reader).wf(),
        final(reader).data() == old(reader).data(),
        match r {
            Ok(list) => scaling_list_syntax(old(reader).data(), old(reader).pos(), 16) matches Ok(
                (state, end),
            ) && end == final(reader).pos() && list_view_of(state) == list@,
            Err(e) => scaling_list_syntax(old(reader).data(), old(reader).pos(), 16) == Err::<
                (ScalingListState, int),
                ScalingListError,
            >(e),
        },
{
    match parse_scaling_list::<16>(reader) {
        Ok((values, use_default)) => Ok(ScalingList4x4 { values, use_default }),
        Err(e) => Err(e),
    }
}

fn parse_scaling_list_8x8(reader: &mut BitReader) -> (r: Result<ScalingList8x8, ScalingListError>)
    requires
        old(reader).wf(),
    ensures
        final(reader).wf(),
        final(reader).data() == old(reader).data(),
        match r {
            Ok(list) => scaling_list_syntax(old(reader).data(), old(reader).pos(), 64) matches Ok(
                (state, end),
            ) && end == final(reader).pos() && list_view_of(state) == list@,
            Err(e) => scaling_list_syntax(old(reader).data(), old(reader).pos(), 64) == Err::<
                (ScalingListState, int),
                ScalingListError,
            >(e),
        },
{
    match parse_scaling_list::<64>(reader) {
        Ok((values, use_default)) => Ok(ScalingList8x8 { values, use_default }),
        Err(e) => Err(e),
    }
}

/// Reads the presence flags and lists of a scaling-matrix syntax structure
/// with `list_count` entries.
pub(crate) fn parse_scaling_lists(reader: &mut BitReader, list_count: usize) -> (r: Result<
    ([Option<ScalingList4x4>; 6], [Option<ScalingList8x8>; 6]),
    ScalingListError,
>)
    requires
        old(reader).wf(),
        list_count <= 12,
    ensures
        final(reader).wf(),
        final(reader).data() == old(reader).data(),
        match r {
            Ok((lists_4x4, lists_8x8)) => scaling_lists_syntax(
                old(reader).data(),
                old(reader).pos(),
                list_count as nat,
            ) == Ok::<(ScalingMatricesView, int), ScalingListError>(
                (lists_view(lists_4x4, lists_8x8), final(reader).pos()),
            ),
            Err(e) => scaling_lists_syntax(old(reader).data(), old(reader).pos(), list_count as nat)
                == Err::<(ScalingMatricesView, int), ScalingListError>(e),
        },
{
    broadcast use vstd::array::group_array_axioms;

    let ghost d = reader.data();
    let ghost p = reader.pos();
    let mut lists_4x4: [Option<ScalingList4x4>; 6] = [None; 6];
    let mut lists_8x8: [Option<ScalingList8x8>; 6] = [None; 6];
    assert(lists_view(lists_4x4, lists_8x8).lists_4x4 =~= no_lists());
    assert(lists_view(lists_4x4, lists_8x8).lists_8x8 =~= no_lists());
    let mut index: usize = 0;
    while index < list_count
        invariant
            reader.wf(),
            reader.data() == d,
            d == old(reader).data(),
            p == old(reader).pos(),
            index <= list_count <= 12,
            scaling_lists_syntax(d, p, index as nat) == Ok::<
                (ScalingMatricesView, int),
                ScalingListError,
            >((lists_view(lists_4x4, lists_8x8), reader.pos())),
        decreases list_count - index,
    {
        let ghost before = lists_view(lists_4x4, lists_8x8);
        let present = match reader.read_bit() {
            Ok(b) => b,
            Err(e) => {
                proof {
                    lemma_scaling_lists_error_persists(d, p, (index + 1) as nat, list_count as nat);
                }
                return Err(ScalingListError::Bitstream(e));
            },
        };
        if present {
            if index < 6 {
                let list = match parse_scaling_list_4x4(reader) {
                    Ok(l) => l,
                    Err(e) => {
                        proof {
                            lemma_scaling_lists_error_persists(
                                d,
                                p,
                                (index + 1) as nat,
                                list_count as nat,
                            );
                        }
                        return Err(e);
                    },
                };
                lists_4x4[index] = Some(list);
                assert(lists_view(lists_4x4, lists_8x8).lists_4x4 =~= before.lists_4x4.update(
                    index as int,
                    Some(list@),
                ));
                assert(lists_view(lists_4x4, lists_8x8).lists_8x8 =~= before.lists_8x8);
            } else {
                let list = match parse_scaling_list_8x8(reader) {
                    Ok(l) => l,
                    Err(e) => {
                        proof {
                            lemma_scaling_lists_error_persists(
                                d,
                                p,
                                (index + 1) as nat,
                                list_count as nat,
                            );
                        }
                        return Err(e);
                    },
                };
                lists_8x8[index - 6] = Some(list);
                assert(lists_view(lists_4x4, lists_8x8).lists_8x8 =~= before.lists_8x8.update(
                    index - 6,
                    Some(list@),
                ));
                assert(lists_view(lists_4x4, lists_8x8).lists_4x4 =~= before.lists_4x4);
            }
        }
        index = index + 1;
    }
    Ok((lists_4x4, lists_8x8))
}

// ---------------------------------------------------------------------------
// Sequence parameter set header and format.
// ---------------------------------------------------------------------------

/// Profiles whose SPS syntax this parser supports.
pub open spec fn spec_is_supported_profile(profile_idc: u8) -> bool {
    profile_idc == 44 || profile_idc == 66 || profile_idc == 77 || profile_idc == 88 || profile_idc
        == 100 || profile_idc == 110 || profile_idc == 122 || profile_idc == 244
}

/// Profiles whose SPS carries the chroma format, bit depths and scaling
/// matrices.
pub open spec fn spec_has_high_profile_syntax(profile_idc: u8) -> bool {
    profile_idc == 44 || profile_idc == 100 || profile_idc == 110 || profile_idc == 122
        || profile_idc == 244
}

fn is_supported_profile(profile_idc: u8) -> (r: bool)
    ensures
        r == spec_is_supported_profile(profile_idc),
{
    profile_idc == 44 || profile_idc == 66 || profile_idc == 77 || profile_idc == 88 || profile_idc
        == 100 || profile_idc == 110 || profile_idc == 122 || profile_idc == 244
}

fn has_high_profile_syntax(profile_idc: u8) -> (r: bool)
    ensures
        r == spec_has_high_profile_syntax(profile_idc),
{
    profile_idc == 44 || profile_idc == 100 || profile_idc == 110 || profile_idc == 122
        || profile_idc == 244
}

/// A single flag, as an item of a repetition.
pub open spec fn flag_item() -> spec_fn(Seq<u8>, int) -> Result<(bool, int), BitReaderError> {
    |d: Seq<u8>, q: int| spec_read_bit(d, q)
}

/// The SPS header: `profile_idc`, the six constraint flags, the two reserved
/// bits, `level_idc` and `seq_parameter_set_id`.
pub open spec fn sps_header(d: Seq<u8>) -> Result<((u8, Seq<bool>, u8, u8), int), SequenceParameterSetError> {
    match sps_bits(d, 0, 8) {
        Err(e) => Err(e),
        Ok((profile, p1)) => if !spec_is_supported_profile(profile as u8) {
            Err(SequenceParameterSetError::UnsupportedProfile { profile_idc: profile as u8 })
        } else {
            match from_bits(spec_repeat(flag_item(), d, p1, 6)) {
                Err(e) => Err(e),
                Ok((flags, p2)) => match sps_bits(d, p2, 2) {
                    Err(e) => Err(e),
                    Ok((reserved, p3)) => if reserved != 0 {
                        Err(SequenceParameterSetError::ReservedBitsNonZero { value: reserved as u8 })
                    } else {
                        match sps_bits(d, p3, 8) {
                            Err(e) => Err(e),
                            Ok((level, p4)) => match sps_bounded(
                                d,
                                p4,
                                "seq_parameter_set_id",
                                0,
                                31,
                            ) {
                                Err(e) => Err(e),
                                Ok((id, p5)) => Ok(((profile as u8, flags, level as u8, id as u8), p5)),
                            },
                        }
                    },
                },
            }
        },
    }
}

#[verifier::loop_isolation(false)]
fn parse_header(reader: &mut BitReader) -> (r: Result<(u8, [bool; 6], u8, u8), SequenceParameterSetError>)
    requires
        old(reader).wf(),
        old(reader).pos() == 0,
    ensures
        final(reader).wf(),
        final(reader).data() == old(reader).data(),
        match r {
            Ok((profile, flags, level, id)) => sps_header(old(reader).data()) == Ok::<
                ((u8, Seq<bool>, u8, u8), int),
                SequenceParameterSetError,
            >(((profile, flags@, level, id), final(reader).pos())),
            Err(e) => sps_header(old(reader).data()) == Err::<
                ((u8, Seq<bool>, u8, u8), int),
                SequenceParameterSetError,
            >(e),
        },
{
    broadcast use vstd::array::group_array_axioms;

    let ghost d = reader.data();
    let profile_idc = read_u8(reader, 8)?;
    if !is_supported_profile(profile_idc) {
        return Err(SequenceParameterSetError::UnsupportedProfile { profile_idc });
    }
    let ghost p1 = reader.pos();
    let mut constraint_set_flags: [bool; 6] = [false; 6];
    let mut index: usize = 0;
    assert(constraint_set_flags@.subrange(0, 0) =~= Seq::<bool>::empty());
    while index < 6
        invariant
            reader.wf(),
            reader.data() == d,
            index <= 6,
            constraint_set_flags@.len() == 6,
            spec_repeat(flag_item(), d, p1, index as nat) == Ok::<(Seq<bool>, int), BitReaderError>(
                (constraint_set_flags@.subrange(0, index as int), reader.pos()),
            ),
        decreases 6 - index,
    {
        let ghost before = constraint_set_flags@;
        match reader.read_bit() {
            Ok(flag) => {
                constraint_set_flags[index] = flag;
            },
            Err(e) => {
                proof {
                    lemma_repeat_error_persists(flag_item(), d, p1, (index + 1) as nat, 6);
                }
                return Err(SequenceParameterSetError::Bitstream(e));
            },
        }
        index = index + 1;
        assert(constraint_set_flags@.subrange(0, index as int) =~= before.subrange(
            0,
            index - 1,
        ).push(constraint_set_flags@[index - 1]));
    }
    assert(constraint_set_flags@.subrange(0, 6) =~= constraint_set_flags@);
    let reserved_bits = read_u8(reader, 2)?;
    if reserved_bits != 0 {
        return Err(SequenceParameterSetError::ReservedBitsNonZero { value: reserved_bits });
    }
    let level_idc = read_u8(reader, 8)?;
    let seq_parameter_set_id = read_bounded_u8(reader, "seq_parameter_set_id", 0, 31)?;
    Ok((profile_idc, constraint_set_flags, level_idc, seq_parameter_set_id))
}

/// A scaling-list error reported as an SPS error.
pub open spec fn sps_scaling_error(e: ScalingListError) -> SequenceParameterSetError {
    match e {
        ScalingListError::Bitstream(inner) => SequenceParameterSetError::Bitstream(inner),
        ScalingListError::DeltaScaleOutOfRange(value) => SequenceParameterSetError::SignedValueOutOfRange {
            field: "delta_scale",
            value,
            minimum: -128i64,
            maximum: 127i64,
        },
    }
}

fn scaling_error(e: ScalingListError) -> (r: SequenceParameterSetError)
    ensures
        r == sps_scaling_error(e),
{
    match e {
        ScalingListError::Bitstream(inner) => SequenceParameterSetError::Bitstream(inner),
        ScalingListError::DeltaScaleOutOfRange(value) => SequenceParameterSetError::SignedValueOutOfRange {
            field: "delta_scale",
            value,
            minimum: -128,
            maximum: 127,
        },
    }
}

/// The sampling format, colour-plane, bit-depth, transform-bypass and scaling
/// fields.
pub struct SampleFormatView {
    pub chroma_format: ChromaFormat,
    pub separate_colour_plane: bool,
    pub bit_depth_luma: u8,
    pub bit_depth_chroma: u8,
    pub qpprime_y_zero_transform_bypass: bool,
    pub scaling_matrices: Option<ScalingMatricesView>,
}

/// The format fields: present only for profiles with high-profile syntax,
/// and otherwise 4:2:0 at eight bits without scaling matrices.
pub open spec fn sps_sample_format(d: Seq<u8>, p: int, profile_idc: u8) -> Result<
    (SampleFormatView, int),
    SequenceParameterSetError,
> {
    if !spec_has_high_profile_syntax(profile_idc) {
        Ok(
            (
                SampleFormatView {
                    chroma_format: ChromaFormat::Yuv420,
                    separate_colour_plane: false,
                    bit_depth_luma: 8,
                    bit_depth_chroma: 8,
                    qpprime_y_zero_transform_bypass: false,
                    scaling_matrices: None,
                },
                p,
            ),
        )
    } else {
        match from_bits(spec_read_ue(d, p)) {
            Err(e) => Err(e),
            Ok((idc, p1)) => match ChromaFormat::spec_from_idc(idc) {
                None => Err(spec_out_of_range("chroma_format_idc", idc, 0, 3)),
                Some(chroma_format) => match (if chroma_format == ChromaFormat::Yuv444 {
                    sps_bit(d, p1)
                } else {
                    Ok((false, p1))
                }) {
                    Err(e) => Err(e),
                    Ok((separate, p2)) => match sps_bounded(d, p2, "bit_depth_luma_minus8", 0, 6) {
                        Err(e) => Err(e),
                        Ok((luma, p3)) => match sps_bounded(
                            d,
                            p3,
                            "bit_depth_chroma_minus8",
                            0,
                            6,
                        ) {
                            Err(e) => Err(e),
                            Ok((chroma, p4)) => if chroma != luma {
                                Err(spec_out_of_range("bit_depth_chroma_minus8", chroma, luma, luma))
                            } else {
                                match sps_bit(d, p4) {
                                    Err(e) => Err(e),
                                    Ok((bypass, p5)) => match sps_bit(d, p5) {
                                        Err(e) => Err(e),
                                        Ok((present, p6)) => {
                                            let format = SampleFormatView {
                                                chroma_format,
                                                separate_colour_plane: separate,
                                                bit_depth_luma: (luma + 8) as u8,
                                                bit_depth_chroma: (chroma + 8) as u8,
                                                qpprime_y_zero_transform_bypass: bypass,
                                                scaling_matrices: None,
                                            };
                                            if !present {
                                                Ok((format, p6))
                                            } else {
                                                match scaling_lists_syntax(
                                                    d,
                                                    p6,
                                                    if chroma_format == ChromaFormat::Yuv444 {
                                                        12
                                                    } else {
                                                        8
                                                    },
                                                ) {
                                                    Err(e) => Err(sps_scaling_error(e)),
                                                    Ok((lists, p7)) => Ok(
                                                        (
                                                            SampleFormatView {
                                                                scaling_matrices: Some(lists),
                                                                ..format
                                                            },
                                                            p7,
                                                        ),
                                                    ),
                                                }
                                            }
                                        },
                                    },
                                }
                            },
                        },
                    },
                },
            },
        }
    }
}

/// The model of the parsed format fields.
pub open spec fn sample_format_view(
    chroma_format: ChromaFormat,
    separate_colour_plane: bool,
    bit_depth_luma: u8,
    bit_depth_chroma: u8,
    qpprime_y_zero_transform_bypass: bool,
    scaling_matrices: Option<SequenceScalingMatrices>,
) -> SampleFormatView {
    SampleFormatView {
        chroma_format,
        separate_colour_plane,
        bit_depth_luma,
        bit_depth_chroma,
        qpprime_y_zero_transform_bypass,
        scaling_matrices: match scaling_matrices {
            Some(m) => Some(m@),
            None => None,
        },
    }
}

fn parse_sample_format(reader: &mut BitReader, profile_idc: u8) -> (r: Result<
    (ChromaFormat, bool, u8, u8, bool, Option<SequenceScalingMatrices>),
    SequenceParameterSetError,
>)
    requires
        old(reader).wf(),
    ensures
        final(reader).wf(),
        final(reader).data() == old(reader).data(),
        match r {
            Ok((chroma, separate, luma, chroma_depth, bypass, matrices)) => sps_sample_format(
                old(reader).data(),
                old(reader).pos(),
                profile_idc,
            ) == Ok::<(SampleFormatView, int), SequenceParameterSetError>(
                (
                    sample_format_view(chroma, separate, luma, chroma_depth, bypass, matrices),
                    final(reader).pos(),
                ),
            ),
            Err(e) => sps_sample_format(old(reader).data(), old(reader).pos(), profile_idc)
                == Err::<(SampleFormatView, int), SequenceParameterSetError>(e),
        },
{
    if !has_high_profile_syntax(profile_idc) {
        return Ok((ChromaFormat::Yuv420, false, 8, 8, false, None));
    }
    let chroma_format = ChromaFormat::from_idc(read_ue(reader)?)?;
    let is_yuv444 = match chroma_format {
        ChromaFormat::Yuv444 => true,
        _ => false,
    };
    let separate_colour_plane = if is_yuv444 {
        read_bit(reader)?
    } else {
        false
    };
    let bit_depth_luma_minus8 = read_bounded_u8(reader, "bit_depth_luma_minus8", 0, 6)?;
    let bit_depth_chroma_minus8 = read_bounded_u8(reader, "bit_depth_chroma_minus8", 0, 6)?;
    if bit_depth_chroma_minus8 != bit_depth_luma_minus8 {
        return Err(
            out_of_range(
                "bit_depth_chroma_minus8",
                bit_depth_chroma_minus8 as u64,
                bit_depth_luma_minus8 as u64,
                bit_depth_luma_minus8 as u64,
            ),
        );
    }
    let qpprime_y_zero_transform_bypass = read_bit(reader)?;
    let scaling_matrices = if read_bit(reader)? {
        let list_count: usize = if is_yuv444 {
            12
        } else {
            8
        };
        match parse_scaling_lists(reader, list_count) {
            Ok((lists_4x4, lists_8x8)) => Some(SequenceScalingMatrices { lists_4x4, lists_8x8 }),
            Err(e) => return Err(scaling_error(e)),
        }
    } else {
        None
    };
    Ok(
        (
            chroma_format,
            separate_colour_plane,
            bit_depth_luma_minus8 + 8,
            bit_depth_chroma_minus8 + 8,
            qpprime_y_zero_transform_bypass,
            scaling_matrices,
        ),
    )
}

// ---------------------------------------------------------------------------
// Picture order count.
// ---------------------------------------------------------------------------

/// Picture-order-count syntax retained for later slice-header parsing.
#[derive(Clone, Debug, Eq, PartialEq)]
pub enum PictureOrderCount {
    /// `pic_order_cnt_type` 0.
    TypeZero {
        /// The number of bits used by `pic_order_cnt_lsb`.
        log2_max_pic_order_cnt_lsb: u8,
    },
    /// `pic_order_cnt_type` 1.
    TypeOne {
        /// Whether delta picture-order-count fields are omitted from slices.
        delta_pic_order_always_zero: bool,
        /// The non-reference-picture offset.
        offset_for_non_ref_pic: i32,
        /// The top-to-bottom field offset.
        offset_for_top_to_bottom_field: i32,
        /// The offsets in one picture-order-count cycle.
        offsets_for_ref_frame: Vec<i32>,
    },
    /// `pic_order_cnt_type` 2.
    TypeTwo,
}

/// The model of the picture-order-count syntax.
pub enum PictureOrderCountView {
    TypeZero { log2_max_pic_order_cnt_lsb: u8 },
    TypeOne {
        delta_pic_order_always_zero: bool,
        offset_for_non_ref_pic: i32,
        offset_for_top_to_bottom_field: i32,
        offsets_for_ref_frame: Seq<i32>,
    },
    TypeTwo,
}

impl View for PictureOrderCount {
    type V = PictureOrderCountView;

    open spec fn view(&self) -> PictureOrderCountView {
        match self {
            PictureOrderCount::TypeZero { log2_max_pic_order_cnt_lsb } => PictureOrderCountView::TypeZero {
                log2_max_pic_order_cnt_lsb: *log2_max_pic_order_cnt_lsb,
            },
            PictureOrderCount::TypeOne {
                delta_pic_order_always_zero,
                offset_for_non_ref_pic,
                offset_for_top_to_bottom_field,
                offsets_for_ref_frame,
            } => PictureOrderCountView::TypeOne {
                delta_pic_order_always_zero: *delta_pic_order_always_zero,
                offset_for_non_ref_pic: *offset_for_non_ref_pic,
                offset_for_top_to_bottom_field: *offset_for_top_to_bottom_field,
                offsets_for_ref_frame: offsets_for_ref_frame@,
            },
            PictureOrderCount::TypeTwo => PictureOrderCountView::TypeTwo,
        }
    }
}

/// One `offset_for_ref_frame`, as an item of a repetition.
pub open spec fn offset_item() -> spec_fn(Seq<u8>, int) -> Result<(i32, int), SequenceParameterSetError> {
    |d: Seq<u8>, q: int| sps_i32_se(d, q, "offset_for_ref_frame")
}

/// The picture-order-count syntax for each `pic_order_cnt_type`.
pub open spec fn sps_picture_order_count(d: Seq<u8>, p: int) -> Result<
    (PictureOrderCountView, int),
    SequenceParameterSetError,
> {
    match from_bits(spec_read_ue(d, p)) {
        Err(e) => Err(e),
        Ok((kind, p1)) => if kind == 0 {
            match sps_bounded(d, p1, "log2_max_pic_order_cnt_lsb_minus4", 0, 12) {
                Err(e) => Err(e),
                Ok((minus4, p2)) => Ok(
                    (
                        PictureOrderCountView::TypeZero {
                            log2_max_pic_order_cnt_lsb: (minus4 + 4) as u8,
                        },
                        p2,
                    ),
                ),
            }
        } else if kind == 1 {
            match sps_bit(d, p1) {
                Err(e) => Err(e),
                Ok((always_zero, p2)) => match sps_i32_se(d, p2, "offset_for_non_ref_pic") {
                    Err(e) => Err(e),
                    Ok((non_ref, p3)) => match sps_i32_se(
                        d,
                        p3,
                        "offset_for_top_to_bottom_field",
                    ) {
                        Err(e) => Err(e),
                        Ok((top_to_bottom, p4)) => match sps_bounded(
                            d,
                            p4,
                            "num_ref_frames_in_pic_order_cnt_cycle",
                            0,
                            255,
                        ) {
                            Err(e) => Err(e),
                            Ok((cycle_length, p5)) => match spec_repeat(
                                offset_item(),
                                d,
                                p5,
                                cycle_length as nat,
                            ) {
                                Err(e) => Err(e),
                                Ok((offsets, p6)) => Ok(
                                    (
                                        PictureOrderCountView::TypeOne {
                                            delta_pic_order_always_zero: always_zero,
                                            offset_for_non_ref_pic: non_ref,
                                            offset_for_top_to_bottom_field: top_to_bottom,
                                            offsets_for_ref_frame: offsets,
                                        },
                                        p6,
                                    ),
                                ),
                            },
                        },
                    },
                },
            }
        } else if kind == 2 {
            Ok((PictureOrderCountView::TypeTwo, p1))
        } else {
            Err(spec_out_of_range("pic_order_cnt_type", kind, 0, 2))
        },
    }
}

#[verifier::loop_isolation(false)]
fn parse_picture_order_count(reader: &mut BitReader) -> (r: Result<
    PictureOrderCount,
    SequenceParameterSetError,
>)
    requires
        old(reader).wf(),
    ensures
        final(reader).wf(),
        final(reader).data() == old(reader).data(),
        match r {
            Ok(poc) => sps_picture_order_count(old(reader).data(), old(reader).pos()) == Ok::<
                (PictureOrderCountView, int),
                SequenceParameterSetError,
            >((poc@, final(reader).pos())),
            Err(e) => sps_picture_order_count(old(reader).data(), old(reader).pos()) == Err::<
                (PictureOrderCountView, int),
                SequenceParameterSetError,
            >(e),
        },
{
    let ghost d = reader.data();
    let kind = read_ue(reader)?;
    if kind == 0 {
        let minus4 = read_bounded_u8(reader, "log2_max_pic_order_cnt_lsb_minus4", 0, 12)?;
        Ok(PictureOrderCount::TypeZero { log2_max_pic_order_cnt_lsb: minus4 + 4 })
    } else if kind == 1 {
        let delta_pic_order_always_zero = read_bit(reader)?;
        let offset_for_non_ref_pic = read_i32_se(reader, "offset_for_non_ref_pic")?;
        let offset_for_top_to_bottom_field = read_i32_se(reader, "offset_for_top_to_bottom_field")?;
        let cycle_length = read_bounded_u16(
            reader,
            "num_ref_frames_in_pic_order_cnt_cycle",
            0,
            255,
        )?;
        let ghost p5 = reader.pos();
        let mut offsets_for_ref_frame: Vec<i32> = Vec::new();
        let mut index: u16 = 0;
        while index < cycle_length
            invariant
                reader.wf(),
                reader.data() == d,
                index <= cycle_length,
                spec_repeat(offset_item(), d, p5, index as nat) == Ok::<
                    (Seq<i32>, int),
                    SequenceParameterSetError,
                >((offsets_for_ref_frame@, reader.pos())),
            decreases cycle_length - index,
        {
            match read_i32_se(reader, "offset_for_ref_frame") {
                Ok(offset) => {
                    offsets_for_ref_frame.push(offset);
                },
                Err(e) => {
                    proof {
                        lemma_repeat_error_persists(
                            offset_item(),
                            d,
                            p5,
                            (index + 1) as nat,
                            cycle_length as nat,
                        );
                    }
                    return Err(e);
                },
            }
            index = index + 1;
        }
        Ok(
            PictureOrderCount::TypeOne {
                delta_pic_order_always_zero,
                offset_for_non_ref_pic,
                offset_for_top_to_bottom_field,
                offsets_for_ref_frame,
            },
        )
    } else if kind == 2 {
        Ok(PictureOrderCount::TypeTwo)
    } else {
        Err(out_of_range("pic_order_cnt_type", kind, 0, 2))
    }
}

// ---------------------------------------------------------------------------
// Frame geometry and cropping.
// ---------------------------------------------------------------------------

/// The reference-frame count, the frame-num gap flag and the picture
/// geometry fields, with the coded dimensions derived from them.
#[derive(Clone, Copy, Debug, Eq, PartialEq)]
pub struct FrameGeometry {
    /// Maximum number of short- and long-term reference frames.
    pub max_num_ref_frames: u32,
    /// Whether gaps in `frame_num` are allowed.
    pub gaps_in_frame_num_value_allowed: bool,
    /// Picture width in macroblocks.
    pub pic_width_in_mbs: u32,
    /// Picture height in map units.
    pub pic_height_in_map_units: u32,
    /// Whether every picture is coded as a frame.
    pub frame_mbs_only: bool,
    /// Whether macroblock-adaptive frame/field coding may be used.
    pub mb_adaptive_frame_field: bool,
    /// Direct-mode 8x8 inference flag.
    pub direct_8x8_inference: bool,
    /// Coded width in luma samples.
    pub coded_width: u32,
    /// Coded height in luma samples.
    pub coded_height: u32,
}

/// The geometry fields: the counts read as `minus1` values, the coded width
/// as sixteen samples per macroblock, and the coded height as sixteen samples
/// per macroblock row, with two rows per map unit unless every picture is a
/// frame. Every derived value that does not fit in `u32` is an overflow.
pub open spec fn sps_frame_geometry(d: Seq<u8>, p: int) -> Result<
    (FrameGeometry, int),
    SequenceParameterSetError,
> {
    match sps_bounded(d, p, "max_num_ref_frames", 0, 16) {
        Err(e) => Err(e),
        Ok((max_num_ref_frames, p1)) => match sps_bit(d, p1) {
            Err(e) => Err(e),
            Ok((gaps, p2)) => match sps_u32_ue(d, p2, "pic_width_in_mbs_minus1") {
                Err(e) => Err(e),
                Ok((width_minus1, p3)) => match sps_u32_ue(d, p3, "pic_height_in_map_units_minus1") {
                    Err(e) => Err(e),
                    Ok((height_minus1, p4)) => if width_minus1 == u32::MAX {
                        Err(SequenceParameterSetError::ArithmeticOverflow { field: "pic_width_in_mbs" })
                    } else if height_minus1 == u32::MAX {
                        Err(
                            SequenceParameterSetError::ArithmeticOverflow {
                                field: "pic_height_in_map_units",
                            },
                        )
                    } else {
                        match sps_bit(d, p4) {
                            Err(e) => Err(e),
                            Ok((frame_mbs_only, p5)) => match (if frame_mbs_only {
                                Ok((false, p5))
                            } else {
                                sps_bit(d, p5)
                            }) {
                                Err(e) => Err(e),
                                Ok((mbaff, p6)) => match sps_bit(d, p6) {
                                    Err(e) => Err(e),
                                    Ok((direct, p7)) => {
                                        let width = width_minus1 + 1;
                                        let height = height_minus1 + 1;
                                        let frame_height = height * (if frame_mbs_only {
                                            1int
                                        } else {
                                            2int
                                        });
                                        if width * 16 > u32::MAX {
                                            Err(
                                                SequenceParameterSetError::ArithmeticOverflow {
                                                    field: "coded_width",
                                                },
                                            )
                                        } else if frame_height > u32::MAX {
                                            Err(
                                                SequenceParameterSetError::ArithmeticOverflow {
                                                    field: "frame_height_in_mbs",
                                                },
                                            )
                                        } else if frame_height * 16 > u32::MAX {
                                            Err(
                                                SequenceParameterSetError::ArithmeticOverflow {
                                                    field: "coded_height",
                                                },
                                            )
                                        } else {
                                            Ok(
                                                (
                                                    FrameGeometry {
                                                        max_num_ref_frames: max_num_ref_frames as u32,
                                                        gaps_in_frame_num_value_allowed: gaps,
                                                        pic_width_in_mbs: width as u32,
                                                        pic_height_in_map_units: height as u32,
                                                        frame_mbs_only,
                                                        mb_adaptive_frame_field: mbaff,
                                                        direct_8x8_inference: direct,
                                                        coded_width: (width * 16) as u32,
                                                        coded_height: (frame_height * 16) as u32,
                                                    },
                                                    p7,
                                                ),
                                            )
                                        }
                                    },
                                },
                            },
                        }
                    },
                },
            },
        },
    }
}

fn parse_frame_geometry(reader: &mut BitReader) -> (r: Result<FrameGeometry, SequenceParameterSetError>)
    requires
        old(reader).wf(),
    ensures
        final(reader).wf(),
        final(reader).data() == old(reader).data(),
        parsed(sps_frame_geometry(old(reader).data(), old(reader).pos()), r, final(reader).pos()),
{
    let max_num_ref_frames = read_bounded_u8(reader, "max_num_ref_frames", 0, 16)? as u32;
    let gaps_in_frame_num_value_allowed = read_bit(reader)?;
    let pic_width_in_mbs_minus1 = read_u32_ue(reader, "pic_width_in_mbs_minus1")?;
    let pic_height_in_map_units_minus1 = read_u32_ue(reader, "pic_height_in_map_units_minus1")?;
    let pic_width_in_mbs = match pic_width_in_mbs_minus1.checked_add(1) {
        Some(v) => v,
        None => {
            return Err(SequenceParameterSetError::ArithmeticOverflow { field: "pic_width_in_mbs" });
        },
    };
    let pic_height_in_map_units = match pic_height_in_map_units_minus1.checked_add(1) {
        Some(v) => v,
        None => {
            return Err(
                SequenceParameterSetError::ArithmeticOverflow { field: "pic_height_in_map_units" },
            );
        },
    };
    let frame_mbs_only = read_bit(reader)?;
    let mb_adaptive_frame_field = if frame_mbs_only {
        false
    } else {
        read_bit(reader)?
    };
    let direct_8x8_inference = read_bit(reader)?;
    let coded_width = match pic_width_in_mbs.checked_mul(16) {
        Some(v) => v,
        None => {
            return Err(SequenceParameterSetError::ArithmeticOverflow { field: "coded_width" });
        },
    };
    let frame_factor: u32 = if frame_mbs_only {
        1
    } else {
        2
    };
    let frame_height_in_mbs = match pic_height_in_map_units.checked_mul(frame_factor) {
        Some(v) => v,
        None => {
            return Err(
                SequenceParameterSetError::ArithmeticOverflow { field: "frame_height_in_mbs" },
            );
        },
    };
    let coded_height = match frame_height_in_mbs.checked_mul(16) {
        Some(v) => v,
        None => {
            return Err(SequenceParameterSetError::ArithmeticOverflow { field: "coded_height" });
        },
    };
    Ok(
        FrameGeometry {
            max_num_ref_frames,
            gaps_in_frame_num_value_allowed,
            pic_width_in_mbs,
            pic_height_in_map_units,
            frame_mbs_only,
            mb_adaptive_frame_field,
            direct_8x8_inference,
            coded_width,
            coded_height,
        },
    )
}

/// Frame-cropping offsets in syntax units.
#[derive(Clone, Copy, Debug, Eq, PartialEq)]
pub struct FrameCrop {
    /// Left crop offset.
    pub left: u32,
    /// Right crop offset.
    pub right: u32,
    /// Top crop offset.
    pub top: u32,
    /// Bottom crop offset.
    pub bottom: u32,
    /// Horizontal pixels represented by one left or right offset.
    pub unit_x: u8,
    /// Vertical pixels represented by one top or bottom offset.
    pub unit_y: u8,
}

/// The samples that one crop offset stands for, horizontally and vertically:
/// one luma sample for monochrome, separately coded or 4:4:4 pictures, and
/// otherwise one chroma sample; doubled vertically when pictures may be
/// fields.
pub open spec fn spec_crop_units(
    chroma_format: ChromaFormat,
    separate_colour_plane: bool,
    frame_mbs_only: bool,
) -> (u8, u8) {
    let frame_factor: u8 = if frame_mbs_only {
        1
    } else {
        2
    };
    if separate_colour_plane || chroma_format == ChromaFormat::Monochrome {
        (1, frame_factor)
    } else {
        match chroma_format {
            ChromaFormat::Monochrome => (1, frame_factor),
            ChromaFormat::Yuv420 => (2, (2 * frame_factor) as u8),
            ChromaFormat::Yuv422 => (2, frame_factor),
            ChromaFormat::Yuv444 => (1, frame_factor),
        }
    }
}

fn crop_units(chroma_format: ChromaFormat, separate_colour_plane: bool, frame_mbs_only: bool) -> (r:
    (u8, u8))
    ensures
        r == spec_crop_units(chroma_format, separate_colour_plane, frame_mbs_only),
{
    let frame_factor: u8 = if frame_mbs_only {
        1
    } else {
        2
    };
    if separate_colour_plane {
        return (1, frame_factor);
    }
    match chroma_format {
        ChromaFormat::Monochrome => (1, frame_factor),
        ChromaFormat::Yuv420 => (2, 2 * frame_factor),
        ChromaFormat::Yuv422 => (2, frame_factor),
        ChromaFormat::Yuv444 => (1, frame_factor),
    }
}

/// The optional frame-cropping offsets, with the units for the sampling
/// format.
pub open spec fn sps_frame_crop(
    d: Seq<u8>,
    p: int,
    chroma_format: ChromaFormat,
    separate_colour_plane: bool,
    frame_mbs_only: bool,
) -> Result<(Option<FrameCrop>, int), SequenceParameterSetError> {
    match sps_bit(d, p) {
        Err(e) => Err(e),
        Ok((present, p1)) => if !present {
            Ok((None, p1))
        } else {
            match sps_u32_ue(d, p1, "frame_crop_left_offset") {
                Err(e) => Err(e),
                Ok((left, p2)) => match sps_u32_ue(d, p2, "frame_crop_right_offset") {
                    Err(e) => Err(e),
                    Ok((right, p3)) => match sps_u32_ue(d, p3, "frame_crop_top_offset") {
                        Err(e) => Err(e),
                        Ok((top, p4)) => match sps_u32_ue(d, p4, "frame_crop_bottom_offset") {
                            Err(e) => Err(e),
                            Ok((bottom, p5)) => {
                                let (unit_x, unit_y) = spec_crop_units(
                                    chroma_format,
                                    separate_colour_plane,
                                    frame_mbs_only,
                                );
                                Ok(
                                    (
                                        Some(FrameCrop { left, right, top, bottom, unit_x, unit_y }),
                                        p5,
                                    ),
                                )
                            },
                        },
                    },
                },
            }
        },
    }
}

fn parse_frame_crop(
    reader: &mut BitReader,
    chroma_format: ChromaFormat,
    separate_colour_plane: bool,
    frame_mbs_only: bool,
) -> (r: Result<Option<FrameCrop>, SequenceParameterSetError>)
    requires
        old(reader).wf(),
    ensures
        final(reader).wf(),
        final(reader).data() == old(reader).data(),
        parsed(
            sps_frame_crop(
                old(reader).data(),
                old(reader).pos(),
                chroma_format,
                separate_colour_plane,
                frame_mbs_only,
            ),
            r,
            final(reader).pos(),
        ),
{
    if !read_bit(reader)? {
        return Ok(None);
    }
    let left = read_u32_ue(reader, "frame_crop_left_offset")?;
    let right = read_u32_ue(reader, "frame_crop_right_offset")?;
    let top = read_u32_ue(reader, "frame_crop_top_offset")?;
    let bottom = read_u32_ue(reader, "frame_crop_bottom_offset")?;
    let (unit_x, unit_y) = crop_units(chroma_format, separate_colour_plane, frame_mbs_only);
    Ok(Some(FrameCrop { left, right, top, bottom, unit_x, unit_y }))
}

/// The display dimensions: the coded dimensions less the cropped samples.
/// Offsets whose sums or products overflow `u32` are an overflow; a crop that
/// removes the whole width or height is invalid.
pub open spec fn spec_display_dimensions(
    coded_width: u32,
    coded_height: u32,
    frame_crop: Option<FrameCrop>,
) -> Result<(u32, u32), SequenceParameterSetError> {
    match frame_crop {
        None => Ok((coded_width, coded_height)),
        Some(crop) => {
            let horizontal = crop.left + crop.right;
            let vertical = crop.top + crop.bottom;
            if horizontal > u32::MAX {
                Err(SequenceParameterSetError::ArithmeticOverflow { field: "horizontal frame crop" })
            } else if vertical > u32::MAX {
                Err(SequenceParameterSetError::ArithmeticOverflow { field: "vertical frame crop" })
            } else if horizontal * crop.unit_x > u32::MAX {
                Err(SequenceParameterSetError::ArithmeticOverflow { field: "horizontal frame crop" })
            } else if vertical * crop.unit_y > u32::MAX {
                Err(SequenceParameterSetError::ArithmeticOverflow { field: "vertical frame crop" })
            } else if coded_width <= horizontal * crop.unit_x {
                Err(SequenceParameterSetError::InvalidFrameCrop)
            } else if coded_height <= vertical * crop.unit_y {
                Err(SequenceParameterSetError::InvalidFrameCrop)
            } else {
                Ok(
                    (
                        (coded_width - horizontal * crop.unit_x) as u32,
                        (coded_height - vertical * crop.unit_y) as u32,
                    ),
                )
            }
        },
    }
}

fn derive_display_dimensions(
    coded_width: u32,
    coded_height: u32,
    frame_crop: Option<FrameCrop>,
) -> (r: Result<(u32, u32), SequenceParameterSetError>)
    ensures
        r == spec_display_dimensions(coded_width, coded_height, frame_crop),
{
    let crop = match frame_crop {
        None => return Ok((coded_width, coded_height)),
        Some(crop) => crop,
    };
    let horizontal_offsets = match crop.left.checked_add(crop.right) {
        Some(v) => v,
        None => {
            return Err(
                SequenceParameterSetError::ArithmeticOverflow { field: "horizontal frame crop" },
            );
        },
    };
    let vertical_offsets = match crop.top.checked_add(crop.bottom) {
        Some(v) => v,
        None => {
            return Err(
                SequenceParameterSetError::ArithmeticOverflow { field: "vertical frame crop" },
            );
        },
    };
    let horizontal_crop = match horizontal_offsets.checked_mul(crop.unit_x as u32) {
        Some(v) => v,
        None => {
            return Err(
                SequenceParameterSetError::ArithmeticOverflow { field: "horizontal frame crop" },
            );
        },
    };
    let vertical_crop = match vertical_offsets.checked_mul(crop.unit_y as u32) {
        Some(v) => v,
        None => {
            return Err(
                SequenceParameterSetError::ArithmeticOverflow { field: "vertical frame crop" },
            );
        },
    };
    if coded_width <= horizontal_crop {
        return Err(SequenceParameterSetError::InvalidFrameCrop);
    }
    if coded_height <= vertical_crop {
        return Err(SequenceParameterSetError::InvalidFrameCrop);
    }
    Ok((coded_width - horizontal_crop, coded_height - vertical_crop))
}

// ---------------------------------------------------------------------------
// Video usability information.
// ---------------------------------------------------------------------------

/// An aspect ratio signaled in VUI parameters.
#[derive(Clone, Copy, Debug, Eq, PartialEq)]
pub struct AspectRatio {
    /// The H.264 `aspect_ratio_idc` value.
    pub idc: u8,
    /// Extended sample-aspect-ratio width when `idc` is 255.
    pub sar_width: Option<u16>,
    /// Extended sample-aspect-ratio height when `idc` is 255.
    pub sar_height: Option<u16>,
}

/// Video signal and optional color-description syntax.
#[derive(Clone, Copy, Debug, Eq, PartialEq)]
pub struct VideoSignalType {
    /// The three-bit `video_format` value.
    pub video_format: u8,
    /// Whether samples use full-range quantization.
    pub full_range: bool,
    /// Optional color primaries.
    pub colour_primaries: Option<u8>,
    /// Optional transfer characteristics.
    pub transfer_characteristics: Option<u8>,
    /// Optional matrix coefficients.
    pub matrix_coefficients: Option<u8>,
}

/// Chroma sample locations for top and bottom fields.
#[derive(Clone, Copy, Debug, Eq, PartialEq)]
pub struct ChromaLocation {
    /// Top-field chroma sample location type.
    pub top_field: u8,
    /// Bottom-field chroma sample location type.
    pub bottom_field: u8,
}

/// VUI timing information.
#[derive(Clone, Copy, Debug, Eq, PartialEq)]
pub struct TimingInfo {
    /// Number of clock ticks per time-scale unit.
    pub num_units_in_tick: u32,
    /// Number of time-scale units per second.
    pub time_scale: u32,
    /// Whether the stream has a fixed frame rate under H.264 timing rules.
    pub fixed_frame_rate: bool,
}

/// One coded-picture-buffer schedule entry from HRD syntax.
#[derive(Clone, Copy, Debug, Eq, PartialEq)]
pub struct CpbEntry {
    /// Raw `bit_rate_value_minus1`.
    pub bit_rate_value_minus1: u32,
    /// Raw `cpb_size_value_minus1`.
    pub cpb_size_value_minus1: u32,
    /// Whether the entry describes constant-bit-rate operation.
    pub cbr: bool,
}

/// Hypothetical reference decoder parameters.
///
/// The syntax is retained for inspection. Decoder HRD behavior is outside the
/// current scope.
#[derive(Clone, Debug, Eq, PartialEq)]
pub struct HrdParameters {
    /// Bit-rate scaling exponent.
    pub bit_rate_scale: u8,
    /// CPB-size scaling exponent.
    pub cpb_size_scale: u8,
    /// CPB schedule entries.
    pub cpb_entries: Vec<CpbEntry>,
    /// Initial removal delay field width in bits.
    pub initial_cpb_removal_delay_length: u8,
    /// Removal delay field width in bits.
    pub cpb_removal_delay_length: u8,
    /// Output delay field width in bits.
    pub dpb_output_delay_length: u8,
    /// Time-offset field width in bits.
    pub time_offset_length: u8,
}

/// The model of HRD parameters.
pub struct HrdParametersView {
    pub bit_rate_scale: u8,
    pub cpb_size_scale: u8,
    pub cpb_entries: Seq<CpbEntry>,
    pub initial_cpb_removal_delay_length: u8,
    pub cpb_removal_delay_length: u8,
    pub dpb_output_delay_length: u8,
    pub time_offset_length: u8,
}

impl View for HrdParameters {
    type V = HrdParametersView;

    open spec fn view(&self) -> HrdParametersView {
        HrdParametersView {
            bit_rate_scale: self.bit_rate_scale,
            cpb_size_scale: self.cpb_size_scale,
            cpb_entries: self.cpb_entries@,
            initial_cpb_removal_delay_length: self.initial_cpb_removal_delay_length,
            cpb_removal_delay_length: self.cpb_removal_delay_length,
            dpb_output_delay_length: self.dpb_output_delay_length,
            time_offset_length: self.time_offset_length,
        }
    }
}

/// VUI bitstream restriction parameters.
#[derive(Clone, Copy, Debug, Eq, PartialEq)]
pub struct BitstreamRestrictions {
    /// Whether motion vectors may point outside picture boundaries.
    pub motion_vectors_over_pic_boundaries: bool,
    /// Raw maximum bytes-per-picture denominator.
    pub max_bytes_per_pic_denom: u8,
    /// Raw maximum bits-per-macroblock denominator.
    pub max_bits_per_mb_denom: u8,
    /// Maximum horizontal motion-vector length exponent.
    pub log2_max_mv_length_horizontal: u8,
    /// Maximum vertical motion-vector length exponent.
    pub log2_max_mv_length_vertical: u8,
    /// Maximum number of reordered frames.
    pub max_num_reorder_frames: u32,
    /// Maximum decoded-frame-buffer occupancy.
    pub max_dec_frame_buffering: u32,
}

/// Parsed H.264 video usability information.
#[derive(Clone, Debug, Eq, PartialEq)]
pub struct VuiParameters {
    /// Optional sample aspect ratio.
    pub aspect_ratio: Option<AspectRatio>,
    /// Optional overscan-appropriate flag.
    pub overscan_appropriate: Option<bool>,
    /// Optional video signal and color description.
    pub video_signal_type: Option<VideoSignalType>,
    /// Optional chroma sample locations.
    pub chroma_location: Option<ChromaLocation>,
    /// Optional timing information.
    pub timing_info: Option<TimingInfo>,
    /// Optional NAL HRD parameters.
    pub nal_hrd_parameters: Option<HrdParameters>,
    /// Optional VCL HRD parameters.
    pub vcl_hrd_parameters: Option<HrdParameters>,
    /// Optional low-delay HRD flag, present when either HRD block is present.
    pub low_delay_hrd: Option<bool>,
    /// Whether picture timing may carry `pic_struct`.
    pub pic_struct_present: bool,
    /// Optional bitstream restrictions.
    pub bitstream_restrictions: Option<BitstreamRestrictions>,
}

/// The model of VUI parameters.
pub struct VuiParametersView {
    pub aspect_ratio: Option<AspectRatio>,
    pub overscan_appropriate: Option<bool>,
    pub video_signal_type: Option<VideoSignalType>,
    pub chroma_location: Option<ChromaLocation>,
    pub timing_info: Option<TimingInfo>,
    pub nal_hrd_parameters: Option<HrdParametersView>,
    pub vcl_hrd_parameters: Option<HrdParametersView>,
    pub low_delay_hrd: Option<bool>,
    pub pic_struct_present: bool,
    pub bitstream_restrictions: Option<BitstreamRestrictions>,
}

/// The model of optional HRD parameters.
pub open spec fn optional_hrd_view(hrd: Option<HrdParameters>) -> Option<HrdParametersView> {
    match hrd {
        Some(h) => Some(h@),
        None => None,
    }
}

impl View for VuiParameters {
    type V = VuiParametersView;

    open spec fn view(&self) -> VuiParametersView {
        VuiParametersView {
            aspect_ratio: self.aspect_ratio,
            overscan_appropriate: self.overscan_appropriate,
            video_signal_type: self.video_signal_type,
            chroma_location: self.chroma_location,
            timing_info: self.timing_info,
            nal_hrd_parameters: optional_hrd_view(self.nal_hrd_parameters),
            vcl_hrd_parameters: optional_hrd_view(self.vcl_hrd_parameters),
            low_delay_hrd: self.low_delay_hrd,
            pic_struct_present: self.pic_struct_present,
            bitstream_restrictions: self.bitstream_restrictions,
        }
    }
}

/// The optional aspect ratio: an `aspect_ratio_idc` from 0 through 16, or 255
/// followed by a nonzero sample width and height.
pub open spec fn sps_aspect_ratio(d: Seq<u8>, p: int) -> Result<
    (Option<AspectRatio>, int),
    SequenceParameterSetError,
> {
    match sps_bit(d, p) {
        Err(e) => Err(e),
        Ok((present, p1)) => if !present {
            Ok((None, p1))
        } else {
            match sps_bits(d, p1, 8) {
                Err(e) => Err(e),
                Ok((idc, p2)) => if idc == 255 {
                    match sps_bits(d, p2, 16) {
                        Err(e) => Err(e),
                        Ok((width, p3)) => match sps_bits(d, p3, 16) {
                            Err(e) => Err(e),
                            Ok((height, p4)) => if width == 0 {
                                Err(SequenceParameterSetError::ZeroValue { field: "sar_width" })
                            } else if height == 0 {
                                Err(SequenceParameterSetError::ZeroValue { field: "sar_height" })
                            } else {
                                Ok(
                                    (
                                        Some(
                                            AspectRatio {
                                                idc: idc as u8,
                                                sar_width: Some(width as u16),
                                                sar_height: Some(height as u16),
                                            },
                                        ),
                                        p4,
                                    ),
                                )
                            },
                        },
                    }
                } else if idc <= 16 {
                    Ok((Some(AspectRatio { idc: idc as u8, sar_width: None, sar_height: None }), p2))
                } else {
                    Err(SequenceParameterSetError::ReservedAspectRatio { aspect_ratio_idc: idc as u8 })
                },
            }
        },
    }
}

fn parse_aspect_ratio(reader: &mut BitReader) -> (r: Result<Option<AspectRatio>, SequenceParameterSetError>)
    requires
        old(reader).wf(),
    ensures
        final(reader).wf(),
        final(reader).data() == old(reader).data(),
        parsed(sps_aspect_ratio(old(reader).data(), old(reader).pos()), r, final(reader).pos()),
{
    if !read_bit(reader)? {
        return Ok(None);
    }
    let idc = read_u8(reader, 8)?;
    if idc == 255 {
        let sar_width = read_u16(reader, 16)?;
        let sar_height = read_u16(reader, 16)?;
        if sar_width == 0 {
            return Err(SequenceParameterSetError::ZeroValue { field: "sar_width" });
        }
        if sar_height == 0 {
            return Err(SequenceParameterSetError::ZeroValue { field: "sar_height" });
        }
        Ok(Some(AspectRatio { idc, sar_width: Some(sar_width), sar_height: Some(sar_height) }))
    } else if idc <= 16 {
        Ok(Some(AspectRatio { idc, sar_width: None, sar_height: None }))
    } else {
        Err(SequenceParameterSetError::ReservedAspectRatio { aspect_ratio_idc: idc })
    }
}

/// The optional overscan-appropriate flag.
pub open spec fn sps_overscan(d: Seq<u8>, p: int) -> Result<(Option<bool>, int), SequenceParameterSetError> {
    match sps_bit(d, p) {
        Err(e) => Err(e),
        Ok((present, p1)) => if !present {
            Ok((None, p1))
        } else {
            match sps_bit(d, p1) {
                Err(e) => Err(e),
                Ok((flag, p2)) => Ok((Some(flag), p2)),
            }
        },
    }
}

fn parse_overscan(reader: &mut BitReader) -> (r: Result<Option<bool>, SequenceParameterSetError>)
    requires
        old(reader).wf(),
    ensures
        final(reader).wf(),
        final(reader).data() == old(reader).data(),
        parsed(sps_overscan(old(reader).data(), old(reader).pos()), r, final(reader).pos()),
{
    if read_bit(reader)? {
        Ok(Some(read_bit(reader)?))
    } else {
        Ok(None)
    }
}

/// The optional video signal type: a `video_format` from 0 through 5, the
/// full-range flag and an optional colour description.
pub open spec fn sps_video_signal_type(d: Seq<u8>, p: int) -> Result<
    (Option<VideoSignalType>, int),
    SequenceParameterSetError,
> {
    match sps_bit(d, p) {
        Err(e) => Err(e),
        Ok((present, p1)) => if !present {
            Ok((None, p1))
        } else {
            match sps_bits(d, p1, 3) {
                Err(e) => Err(e),
                Ok((format, p2)) => if format > 5 {
                    Err(spec_out_of_range("video_format", format, 0, 5))
                } else {
                    match sps_bit(d, p2) {
                        Err(e) => Err(e),
                        Ok((full_range, p3)) => match sps_bit(d, p3) {
                            Err(e) => Err(e),
                            Ok((colour, p4)) => if !colour {
                                Ok(
                                    (
                                        Some(
                                            VideoSignalType {
                                                video_format: format as u8,
                                                full_range,
                                                colour_primaries: None,
                                                transfer_characteristics: None,
                                                matrix_coefficients: None,
                                            },
                                        ),
                                        p4,
                                    ),
                                )
                            } else {
                                match sps_bits(d, p4, 8) {
                                    Err(e) => Err(e),
                                    Ok((primaries, p5)) => match sps_bits(d, p5, 8) {
                                        Err(e) => Err(e),
                                        Ok((transfer, p6)) => match sps_bits(d, p6, 8) {
                                            Err(e) => Err(e),
                                            Ok((matrix, p7)) => Ok(
                                                (
                                                    Some(
                                                        VideoSignalType {
                                                            video_format: format as u8,
                                                            full_range,
                                                            colour_primaries: Some(primaries as u8),
                                                            transfer_characteristics: Some(
                                                                transfer as u8,
                                                            ),
                                                            matrix_coefficients: Some(matrix as u8),
                                                        },
                                                    ),
                                                    p7,
                                                ),
                                            ),
                                        },
                                    },
                                }
                            },
                        },
                    }
                },
            }
        },
    }
}

fn parse_video_signal_type(reader: &mut BitReader) -> (r: Result<
    Option<VideoSignalType>,
    SequenceParameterSetError,
>)
    requires
        old(reader).wf(),
    ensures
        final(reader).wf(),
        final(reader).data() == old(reader).data(),
        parsed(sps_video_signal_type(old(reader).data(), old(reader).pos()), r, final(reader).pos()),
{
    if !read_bit(reader)? {
        return Ok(None);
    }
    let video_format = read_u8(reader, 3)?;
    if video_format > 5 {
        return Err(out_of_range("video_format", video_format as u64, 0, 5));
    }
    let full_range = read_bit(reader)?;
    let colour_description_present = read_bit(reader)?;
    if colour_description_present {
        let colour_primaries = read_u8(reader, 8)?;
        let transfer_characteristics = read_u8(reader, 8)?;
        let matrix_coefficients = read_u8(reader, 8)?;
        Ok(
            Some(
                VideoSignalType {
                    video_format,
                    full_range,
                    colour_primaries: Some(colour_primaries),
                    transfer_characteristics: Some(transfer_characteristics),
                    matrix_coefficients: Some(matrix_coefficients),
                },
            ),
        )
    } else {
        Ok(
            Some(
                VideoSignalType {
                    video_format,
                    full_range,
                    colour_primaries: None,
                    transfer_characteristics: None,
                    matrix_coefficients: None,
                },
            ),
        )
    }
}

/// The optional chroma sample locations, each from 0 through 5.
pub open spec fn sps_chroma_location(d: Seq<u8>, p: int) -> Result<
    (Option<ChromaLocation>, int),
    SequenceParameterSetError,
> {
    match sps_bit(d, p) {
        Err(e) => Err(e),
        Ok((present, p1)) => if !present {
            Ok((None, p1))
        } else {
            match sps_bounded(d, p1, "chroma_sample_loc_type_top_field", 0, 5) {
                Err(e) => Err(e),
                Ok((top, p2)) => match sps_bounded(
                    d,
                    p2,
                    "chroma_sample_loc_type_bottom_field",
                    0,
                    5,
                ) {
                    Err(e) => Err(e),
                    Ok((bottom, p3)) => Ok(
                        (
                            Some(ChromaLocation { top_field: top as u8, bottom_field: bottom as u8 }),
                            p3,
                        ),
                    ),
                },
            }
        },
    }
}

fn parse_chroma_location(reader: &mut BitReader) -> (r: Result<
    Option<ChromaLocation>,
    SequenceParameterSetError,
>)
    requires
        old(reader).wf(),
    ensures
        final(reader).wf(),
        final(reader).data() == old(reader).data(),
        parsed(sps_chroma_location(old(reader).data(), old(reader).pos()), r, final(reader).pos()),
{
    if !read_bit(reader)? {
        return Ok(None);
    }
    let top_field = read_bounded_u8(reader, "chroma_sample_loc_type_top_field", 0, 5)?;
    let bottom_field = read_bounded_u8(reader, "chroma_sample_loc_type_bottom_field", 0, 5)?;
    Ok(Some(ChromaLocation { top_field, bottom_field }))
}

/// The optional timing information, with a nonzero tick and time scale.
pub open spec fn sps_timing_info(d: Seq<u8>, p: int) -> Result<
    (Option<TimingInfo>, int),
    SequenceParameterSetError,
> {
    match sps_bit(d, p) {
        Err(e) => Err(e),
        Ok((present, p1)) => if !present {
            Ok((None, p1))
        } else {
            match sps_bits(d, p1, 32) {
                Err(e) => Err(e),
                Ok((tick, p2)) => match sps_bits(d, p2, 32) {
                    Err(e) => Err(e),
                    Ok((scale, p3)) => if tick == 0 {
                        Err(SequenceParameterSetError::ZeroValue { field: "num_units_in_tick" })
                    } else if scale == 0 {
                        Err(SequenceParameterSetError::ZeroValue { field: "time_scale" })
                    } else {
                        match sps_bit(d, p3) {
                            Err(e) => Err(e),
                            Ok((fixed, p4)) => Ok(
                                (
                                    Some(
                                        TimingInfo {
                                            num_units_in_tick: tick as u32,
                                            time_scale: scale as u32,
                                            fixed_frame_rate: fixed,
                                        },
                                    ),
                                    p4,
                                ),
                            ),
                        }
                    },
                },
            }
        },
    }
}

fn parse_timing_info(reader: &mut BitReader) -> (r: Result<Option<TimingInfo>, SequenceParameterSetError>)
    requires
        old(reader).wf(),
    ensures
        final(reader).wf(),
        final(reader).data() == old(reader).data(),
        parsed(sps_timing_info(old(reader).data(), old(reader).pos()), r, final(reader).pos()),
{
    if !read_bit(reader)? {
        return Ok(None);
    }
    let num_units_in_tick = read_u32(reader, 32)?;
    let time_scale = read_u32(reader, 32)?;
    if num_units_in_tick == 0 {
        return Err(SequenceParameterSetError::ZeroValue { field: "num_units_in_tick" });
    }
    if time_scale == 0 {
        return Err(SequenceParameterSetError::ZeroValue { field: "time_scale" });
    }
    let fixed_frame_rate = read_bit(reader)?;
    Ok(Some(TimingInfo { num_units_in_tick, time_scale, fixed_frame_rate }))
}

/// One CPB schedule entry.
pub open spec fn sps_cpb_entry(d: Seq<u8>, p: int) -> Result<(CpbEntry, int), SequenceParameterSetError> {
    match sps_bounded(d, p, "bit_rate_value_minus1", 0, (u32::MAX - 1) as u64) {
        Err(e) => Err(e),
        Ok((bit_rate, p1)) => match sps_bounded(
            d,
            p1,
            "cpb_size_value_minus1",
            0,
            (u32::MAX - 1) as u64,
        ) {
            Err(e) => Err(e),
            Ok((cpb_size, p2)) => match sps_bit(d, p2) {
                Err(e) => Err(e),
                Ok((cbr, p3)) => Ok(
                    (
                        CpbEntry {
                            bit_rate_value_minus1: bit_rate as u32,
                            cpb_size_value_minus1: cpb_size as u32,
                            cbr,
                        },
                        p3,
                    ),
                ),
            },
        },
    }
}

/// One CPB schedule entry, as an item of a repetition.
pub open spec fn cpb_entry_item() -> spec_fn(Seq<u8>, int) -> Result<(CpbEntry, int), SequenceParameterSetError> {
    |d: Seq<u8>, q: int| sps_cpb_entry(d, q)
}

fn parse_cpb_entry(reader: &mut BitReader) -> (r: Result<CpbEntry, SequenceParameterSetError>)
    requires
        old(reader).wf(),
    ensures
        final(reader).wf(),
        final(reader).data() == old(reader).data(),
        parsed(sps_cpb_entry(old(reader).data(), old(reader).pos()), r, final(reader).pos()),
{
    let bit_rate_value_minus1 = read_bounded_u32(
        reader,
        "bit_rate_value_minus1",
        0,
        (u32::MAX - 1) as u64,
    )?;
    let cpb_size_value_minus1 = read_bounded_u32(
        reader,
        "cpb_size_value_minus1",
        0,
        (u32::MAX - 1) as u64,
    )?;
    let cbr = read_bit(reader)?;
    Ok(CpbEntry { bit_rate_value_minus1, cpb_size_value_minus1, cbr })
}

/// HRD parameters: up to 32 CPB entries, the scales and the field widths.
pub open spec fn sps_hrd_parameters(d: Seq<u8>, p: int) -> Result<
    (HrdParametersView, int),
    SequenceParameterSetError,
> {
    match sps_bounded(d, p, "cpb_cnt_minus1", 0, 31) {
        Err(e) => Err(e),
        Ok((count_minus1, p1)) => match sps_bits(d, p1, 4) {
            Err(e) => Err(e),
            Ok((bit_rate_scale, p2)) => match sps_bits(d, p2, 4) {
                Err(e) => Err(e),
                Ok((cpb_size_scale, p3)) => match spec_repeat(
                    cpb_entry_item(),
                    d,
                    p3,
                    (count_minus1 + 1) as nat,
                ) {
                    Err(e) => Err(e),
                    Ok((entries, p4)) => match sps_bits(d, p4, 5) {
                        Err(e) => Err(e),
                        Ok((initial, p5)) => match sps_bits(d, p5, 5) {
                            Err(e) => Err(e),
                            Ok((removal, p6)) => match sps_bits(d, p6, 5) {
                                Err(e) => Err(e),
                                Ok((output, p7)) => match sps_bits(d, p7, 5) {
                                    Err(e) => Err(e),
                                    Ok((time_offset, p8)) => Ok(
                                        (
                                            HrdParametersView {
                                                bit_rate_scale: bit_rate_scale as u8,
                                                cpb_size_scale: cpb_size_scale as u8,
                                                cpb_entries: entries,
                                                initial_cpb_removal_delay_length: (initial
                                                    + 1) as u8,
                                                cpb_removal_delay_length: (removal + 1) as u8,
                                                dpb_output_delay_length: (output + 1) as u8,
                                                time_offset_length: time_offset as u8,
                                            },
                                            p8,
                                        ),
                                    ),
                                },
                            },
                        },
                    },
                },
            },
        },
    }
}

fn parse_cpb_entries(reader: &mut BitReader, entry_count: usize) -> (r: Result<
    Vec<CpbEntry>,
    SequenceParameterSetError,
>)
    requires
        old(reader).wf(),
    ensures
        final(reader).wf(),
        final(reader).data() == old(reader).data(),
        match r {
            Ok(entries) => spec_repeat(
                cpb_entry_item(),
                old(reader).data(),
                old(reader).pos(),
                entry_count as nat,
            ) == Ok::<(Seq<CpbEntry>, int), SequenceParameterSetError>(
                (entries@, final(reader).pos()),
            ),
            Err(e) => spec_repeat(
                cpb_entry_item(),
                old(reader).data(),
                old(reader).pos(),
                entry_count as nat,
            ) == Err::<(Seq<CpbEntry>, int), SequenceParameterSetError>(e),
        },
{
    let ghost d = reader.data();
    let ghost p = reader.pos();
    let mut cpb_entries: Vec<CpbEntry> = Vec::new();
    let mut index: usize = 0;
    while index < entry_count
        invariant
            reader.wf(),
            reader.data() == d,
            d == old(reader).data(),
            p == old(reader).pos(),
            index <= entry_count,
            spec_repeat(cpb_entry_item(), d, p, index as nat) == Ok::<
                (Seq<CpbEntry>, int),
                SequenceParameterSetError,
            >((cpb_entries@, reader.pos())),
        decreases entry_count - index,
    {
        match parse_cpb_entry(reader) {
            Ok(entry) => {
                cpb_entries.push(entry);
            },
            Err(e) => {
                proof {
                    lemma_repeat_error_persists(
                        cpb_entry_item(),
                        d,
                        p,
                        (index + 1) as nat,
                        entry_count as nat,
                    );
                }
                return Err(e);
            },
        }
        index = index + 1;
    }
    Ok(cpb_entries)
}

#[verifier::rlimit(40)]
fn parse_hrd_parameters(reader: &mut BitReader) -> (r: Result<HrdParameters, SequenceParameterSetError>)
    requires
        old(reader).wf(),
    ensures
        final(reader).wf(),
        final(reader).data() == old(reader).data(),
        match r {
            Ok(hrd) => sps_hrd_parameters(old(reader).data(), old(reader).pos()) == Ok::<
                (HrdParametersView, int),
                SequenceParameterSetError,
            >((hrd@, final(reader).pos())),
            Err(e) => sps_hrd_parameters(old(reader).data(), old(reader).pos()) == Err::<
                (HrdParametersView, int),
                SequenceParameterSetError,
            >(e),
        },
{
    let cpb_count_minus1 = read_bounded_u8(reader, "cpb_cnt_minus1", 0, 31)?;
    let bit_rate_scale = read_u8(reader, 4)?;
    let cpb_size_scale = read_u8(reader, 4)?;
    let entry_count = cpb_count_minus1 as usize + 1;
    let cpb_entries = parse_cpb_entries(reader, entry_count)?;
    proof {
        vstd::arithmetic::power2::lemma2_to64();
    }
    let initial_cpb_removal_delay_length = read_u8(reader, 5)? + 1;
    let cpb_removal_delay_length = read_u8(reader, 5)? + 1;
    let dpb_output_delay_length = read_u8(reader, 5)? + 1;
    let time_offset_length = read_u8(reader, 5)?;
    Ok(
        HrdParameters {
            bit_rate_scale,
            cpb_size_scale,
            cpb_entries,
            initial_cpb_removal_delay_length,
            cpb_removal_delay_length,
            dpb_output_delay_length,
            time_offset_length,
        },
    )
}

/// HRD parameters preceded by their presence flag.
pub open spec fn sps_optional_hrd(d: Seq<u8>, p: int) -> Result<
    (Option<HrdParametersView>, int),
    SequenceParameterSetError,
> {
    match sps_bit(d, p) {
        Err(e) => Err(e),
        Ok((present, p1)) => if !present {
            Ok((None, p1))
        } else {
            match sps_hrd_parameters(d, p1) {
                Err(e) => Err(e),
                Ok((hrd, p2)) => Ok((Some(hrd), p2)),
            }
        },
    }
}

fn parse_optional_hrd(reader: &mut BitReader) -> (r: Result<
    Option<HrdParameters>,
    SequenceParameterSetError,
>)
    requires
        old(reader).wf(),
    ensures
        final(reader).wf(),
        final(reader).data() == old(reader).data(),
        match r {
            Ok(hrd) => sps_optional_hrd(old(reader).data(), old(reader).pos()) == Ok::<
                (Option<HrdParametersView>, int),
                SequenceParameterSetError,
            >((optional_hrd_view(hrd), final(reader).pos())),
            Err(e) => sps_optional_hrd(old(reader).data(), old(reader).pos()) == Err::<
                (Option<HrdParametersView>, int),
                SequenceParameterSetError,
            >(e),
        },
{
    if read_bit(reader)? {
        Ok(Some(parse_hrd_parameters(reader)?))
    } else {
        Ok(None)
    }
}

/// The optional bitstream restrictions; the reorder depth may not exceed the
/// decoded-frame buffering.
pub open spec fn sps_bitstream_restrictions(d: Seq<u8>, p: int) -> Result<
    (Option<BitstreamRestrictions>, int),
    SequenceParameterSetError,
> {
    match sps_bit(d, p) {
        Err(e) => Err(e),
        Ok((present, p1)) => if !present {
            Ok((None, p1))
        } else {
            match sps_bit(d, p1) {
                Err(e) => Err(e),
                Ok((over_boundaries, p2)) => match sps_bounded(d, p2, "max_bytes_per_pic_denom", 0, 16) {
                    Err(e) => Err(e),
                    Ok((bytes_denom, p3)) => match sps_bounded(d, p3, "max_bits_per_mb_denom", 0, 16) {
                        Err(e) => Err(e),
                        Ok((bits_denom, p4)) => match sps_bounded(
                            d,
                            p4,
                            "log2_max_mv_length_horizontal",
                            0,
                            16,
                        ) {
                            Err(e) => Err(e),
                            Ok((horizontal, p5)) => match sps_bounded(
                                d,
                                p5,
                                "log2_max_mv_length_vertical",
                                0,
                                16,
                            ) {
                                Err(e) => Err(e),
                                Ok((vertical, p6)) => match sps_bounded(
                                    d,
                                    p6,
                                    "max_num_reorder_frames",
                                    0,
                                    16,
                                ) {
                                    Err(e) => Err(e),
                                    Ok((reorder, p7)) => match sps_bounded(
                                        d,
                                        p7,
                                        "max_dec_frame_buffering",
                                        0,
                                        16,
                                    ) {
                                        Err(e) => Err(e),
                                        Ok((buffering, p8)) => if reorder > buffering {
                                            Err(
                                                spec_out_of_range(
                                                    "max_num_reorder_frames",
                                                    reorder,
                                                    0,
                                                    buffering,
                                                ),
                                            )
                                        } else {
                                            Ok(
                                                (
                                                    Some(
                                                        BitstreamRestrictions {
                                                            motion_vectors_over_pic_boundaries: over_boundaries,
                                                            max_bytes_per_pic_denom: bytes_denom as u8,
                                                            max_bits_per_mb_denom: bits_denom as u8,
                                                            log2_max_mv_length_horizontal: horizontal as u8,
                                                            log2_max_mv_length_vertical: vertical as u8,
                                                            max_num_reorder_frames: reorder as u32,
                                                            max_dec_frame_buffering: buffering as u32,
                                                        },
                                                    ),
                                                    p8,
                                                ),
                                            )
                                        },
                                    },
                                },
                            },
                        },
                    },
                },
            }
        },
    }
}

fn parse_bitstream_restrictions(reader: &mut BitReader) -> (r: Result<
    Option<BitstreamRestrictions>,
    SequenceParameterSetError,
>)
    requires
        old(reader).wf(),
    ensures
        final(reader).wf(),
        final(reader).data() == old(reader).data(),
        parsed(sps_bitstream_restrictions(old(reader).data(), old(reader).pos()), r, final(reader).pos()),
{
    if !read_bit(reader)? {
        return Ok(None);
    }
    let motion_vectors_over_pic_boundaries = read_bit(reader)?;
    let max_bytes_per_pic_denom = read_bounded_u8(reader, "max_bytes_per_pic_denom", 0, 16)?;
    let max_bits_per_mb_denom = read_bounded_u8(reader, "max_bits_per_mb_denom", 0, 16)?;
    let log2_max_mv_length_horizontal = read_bounded_u8(
        reader,
        "log2_max_mv_length_horizontal",
        0,
        16,
    )?;
    let log2_max_mv_length_vertical = read_bounded_u8(reader, "log2_max_mv_length_vertical", 0, 16)?;
    let max_num_reorder_frames = read_bounded_u8(reader, "max_num_reorder_frames", 0, 16)? as u32;
    let max_dec_frame_buffering = read_bounded_u8(reader, "max_dec_frame_buffering", 0, 16)? as u32;
    if max_num_reorder_frames > max_dec_frame_buffering {
        return Err(
            out_of_range(
                "max_num_reorder_frames",
                max_num_reorder_frames as u64,
                0,
                max_dec_frame_buffering as u64,
            ),
        );
    }
    Ok(
        Some(
            BitstreamRestrictions {
                motion_vectors_over_pic_boundaries,
                max_bytes_per_pic_denom,
                max_bits_per_mb_denom,
                log2_max_mv_length_horizontal,
                log2_max_mv_length_vertical,
                max_num_reorder_frames,
                max_dec_frame_buffering,
            },
        ),
    )
}

/// The VUI parameters, in syntax order. The low-delay flag is present exactly
/// when either HRD block is.
pub open spec fn sps_vui_parameters(d: Seq<u8>, p: int) -> Result<
    (VuiParametersView, int),
    SequenceParameterSetError,
> {
    match sps_aspect_ratio(d, p) {
        Err(e) => Err(e),
        Ok((aspect_ratio, p1)) => match sps_overscan(d, p1) {
            Err(e) => Err(e),
            Ok((overscan, p2)) => match sps_video_signal_type(d, p2) {
                Err(e) => Err(e),
                Ok((signal, p3)) => match sps_chroma_location(d, p3) {
                    Err(e) => Err(e),
                    Ok((location, p4)) => match sps_timing_info(d, p4) {
                        Err(e) => Err(e),
                        Ok((timing, p5)) => match sps_optional_hrd(d, p5) {
                            Err(e) => Err(e),
                            Ok((nal_hrd, p6)) => match sps_optional_hrd(d, p6) {
                                Err(e) => Err(e),
                                Ok((vcl_hrd, p7)) => match (if nal_hrd is Some || vcl_hrd is Some {
                                    match sps_bit(d, p7) {
                                        Err(e) => Err(e),
                                        Ok((low_delay, q)) => Ok((Some(low_delay), q)),
                                    }
                                } else {
                                    Ok((None, p7))
                                }) {
                                    Err(e) => Err(e),
                                    Ok((low_delay, p8)) => match sps_bit(d, p8) {
                                        Err(e) => Err(e),
                                        Ok((pic_struct, p9)) => match sps_bitstream_restrictions(
                                            d,
                                            p9,
                                        ) {
                                            Err(e) => Err(e),
                                            Ok((restrictions, p10)) => Ok(
                                                (
                                                    VuiParametersView {
                                                        aspect_ratio,
                                                        overscan_appropriate: overscan,
                                                        video_signal_type: signal,
                                                        chroma_location: location,
                                                        timing_info: timing,
                                                        nal_hrd_parameters: nal_hrd,
                                                        vcl_hrd_parameters: vcl_hrd,
                                                        low_delay_hrd: low_delay,
                                                        pic_struct_present: pic_struct,
                                                        bitstream_restrictions: restrictions,
                                                    },
                                                    p10,
                                                ),
                                            ),
                                        },
                                    },
                                },
                            },
                        },
                    },
                },
            },
        },
    }
}

fn parse_vui_parameters(reader: &mut BitReader) -> (r: Result<VuiParameters, SequenceParameterSetError>)
    requires
        old(reader).wf(),
    ensures
        final(reader).wf(),
        final(reader).data() == old(reader).data(),
        match r {
            Ok(vui) => sps_vui_parameters(old(reader).data(), old(reader).pos()) == Ok::<
                (VuiParametersView, int),
                SequenceParameterSetError,
            >((vui@, final(reader).pos())),
            Err(e) => sps_vui_parameters(old(reader).data(), old(reader).pos()) == Err::<
                (VuiParametersView, int),
                SequenceParameterSetError,
            >(e),
        },
{
    let aspect_ratio = parse_aspect_ratio(reader)?;
    let overscan_appropriate = parse_overscan(reader)?;
    let video_signal_type = parse_video_signal_type(reader)?;
    let chroma_location = parse_chroma_location(reader)?;
    let timing_info = parse_timing_info(reader)?;
    let nal_hrd_parameters = parse_optional_hrd(reader)?;
    let vcl_hrd_parameters = parse_optional_hrd(reader)?;
    let low_delay_hrd = if nal_hrd_parameters.is_some() || vcl_hrd_parameters.is_some() {
        Some(read_bit(reader)?)
    } else {
        None
    };
    let pic_struct_present = read_bit(reader)?;
    let bitstream_restrictions = parse_bitstream_restrictions(reader)?;
    Ok(
        VuiParameters {
            aspect_ratio,
            overscan_appropriate,
            video_signal_type,
            chroma_location,
            timing_info,
            nal_hrd_parameters,
            vcl_hrd_parameters,
            low_delay_hrd,
            pic_struct_present,
            bitstream_restrictions,
        },
    )
}

// ---------------------------------------------------------------------------
// The sequence parameter set.
// ---------------------------------------------------------------------------

/// A parsed H.264 sequence parameter set.
#[derive(Clone, Debug, Eq, PartialEq)]
pub struct SequenceParameterSet {
    /// Profile identifier.
    pub profile_idc: u8,
    /// Constraint-set flags zero through five.
    pub constraint_set_flags: [bool; 6],
    /// Level identifier.
    pub level_idc: u8,
    /// Sequence parameter set identifier.
    pub seq_parameter_set_id: u8,
    /// Chroma sampling format.
    pub chroma_format: ChromaFormat,
    /// Whether 4:4:4 color planes are coded separately.
    pub separate_colour_plane: bool,
    /// Luma sample bit depth.
    pub bit_depth_luma: u8,
    /// Chroma sample bit depth.
    pub bit_depth_chroma: u8,
    /// Whether the transform bypass mode is enabled for QP prime zero.
    pub qpprime_y_zero_transform_bypass: bool,
    /// Optional sequence scaling matrices.
    pub scaling_matrices: Option<SequenceScalingMatrices>,
    /// Number of bits used by `frame_num`.
    pub log2_max_frame_num: u8,
    /// Picture-order-count syntax.
    pub picture_order_count: PictureOrderCount,
    /// Maximum number of short- and long-term reference frames.
    pub max_num_ref_frames: u32,
    /// Whether gaps in `frame_num` are allowed.
    pub gaps_in_frame_num_value_allowed: bool,
    /// Picture width in macroblocks.
    pub pic_width_in_mbs: u32,
    /// Picture height in map units.
    pub pic_height_in_map_units: u32,
    /// Whether every picture is coded as a frame.
    pub frame_mbs_only: bool,
    /// Whether macroblock-adaptive frame/field coding may be used.
    pub mb_adaptive_frame_field: bool,
    /// Direct-mode 8x8 inference flag.
    pub direct_8x8_inference: bool,
    /// Optional frame cropping.
    pub frame_crop: Option<FrameCrop>,
    /// Coded width in luma samples.
    pub coded_width: u32,
    /// Coded height in luma samples.
    pub coded_height: u32,
    /// Display width after cropping.
    pub display_width: u32,
    /// Display height after cropping.
    pub display_height: u32,
    /// Optional video usability information.
    pub vui_parameters: Option<VuiParameters>,
}

/// The model of a sequence parameter set.
pub struct SequenceParameterSetView {
    pub profile_idc: u8,
    pub constraint_set_flags: Seq<bool>,
    pub level_idc: u8,
    pub seq_parameter_set_id: u8,
    pub chroma_format: ChromaFormat,
    pub separate_colour_plane: bool,
    pub bit_depth_luma: u8,
    pub bit_depth_chroma: u8,
    pub qpprime_y_zero_transform_bypass: bool,
    pub scaling_matrices: Option<ScalingMatricesView>,
    pub log2_max_frame_num: u8,
    pub picture_order_count: PictureOrderCountView,
    pub max_num_ref_frames: u32,
    pub gaps_in_frame_num_value_allowed: bool,
    pub pic_width_in_mbs: u32,
    pub pic_height_in_map_units: u32,
    pub frame_mbs_only: bool,
    pub mb_adaptive_frame_field: bool,
    pub direct_8x8_inference: bool,
    pub frame_crop: Option<FrameCrop>,
    pub coded_width: u32,
    pub coded_height: u32,
    pub display_width: u32,
    pub display_height: u32,
    pub vui_parameters: Option<VuiParametersView>,
}

impl View for SequenceParameterSet {
    type V = SequenceParameterSetView;

    open spec fn view(&self) -> SequenceParameterSetView {
        SequenceParameterSetView {
            profile_idc: self.profile_idc,
            constraint_set_flags: self.constraint_set_flags@,
            level_idc: self.level_idc,
            seq_parameter_set_id: self.seq_parameter_set_id,
            chroma_format: self.chroma_format,
            separate_colour_plane: self.separate_colour_plane,
            bit_depth_luma: self.bit_depth_luma,
            bit_depth_chroma: self.bit_depth_chroma,
            qpprime_y_zero_transform_bypass: self.qpprime_y_zero_transform_bypass,
            scaling_matrices: match self.scaling_matrices {
                Some(m) => Some(m@),
                None => None,
            },
            log2_max_frame_num: self.log2_max_frame_num,
            picture_order_count: self.picture_order_count@,
            max_num_ref_frames: self.max_num_ref_frames,
            gaps_in_frame_num_value_allowed: self.gaps_in_frame_num_value_allowed,
            pic_width_in_mbs: self.pic_width_in_mbs,
            pic_height_in_map_units: self.pic_height_in_map_units,
            frame_mbs_only: self.frame_mbs_only,
            mb_adaptive_frame_field: self.mb_adaptive_frame_field,
            direct_8x8_inference: self.direct_8x8_inference,
            frame_crop: self.frame_crop,
            coded_width: self.coded_width,
            coded_height: self.coded_height,
            display_width: self.display_width,
            display_height: self.display_height,
            vui_parameters: match self.vui_parameters {
                Some(v) => Some(v@),
                None => None,
            },
        }
    }
}

/// The optional VUI parameters, preceded by their presence flag.
pub open spec fn sps_optional_vui(d: Seq<u8>, p: int) -> Result<
    (Option<VuiParametersView>, int),
    SequenceParameterSetError,
> {
    match sps_bit(d, p) {
        Err(e) => Err(e),
        Ok((present, p1)) => if !present {
            Ok((None, p1))
        } else {
            match sps_vui_parameters(d, p1) {
                Err(e) => Err(e),
                Ok((vui, p2)) => Ok((Some(vui), p2)),
            }
        },
    }
}

/// The decoded-frame buffering declared by the VUI is below the number of
/// reference frames.
pub open spec fn buffering_below_references(
    vui: Option<VuiParametersView>,
    max_num_ref_frames: u32,
) -> bool {
    vui matches Some(v) && v.bitstream_restrictions matches Some(r)
        && r.max_dec_frame_buffering < max_num_ref_frames
}

/// The complete sequence parameter set syntax over an RBSP, in syntax order,
/// ending in the RBSP trailing bits.
pub open spec fn sequence_parameter_set_syntax(d: Seq<u8>) -> Result<
    SequenceParameterSetView,
    SequenceParameterSetError,
> {
    match sps_header(d) {
        Err(e) => Err(e),
        Ok(((profile_idc, constraint_set_flags, level_idc, seq_parameter_set_id), p1)) => match sps_sample_format(d, p1, profile_idc) {
            Err(e) => Err(e),
            Ok((format, p2)) => match sps_bounded(d, p2, "log2_max_frame_num_minus4", 0, 12) {
                Err(e) => Err(e),
                Ok((frame_num_minus4, p3)) => match sps_picture_order_count(d, p3) {
                    Err(e) => Err(e),
                    Ok((picture_order_count, p4)) => match sps_frame_geometry(d, p4) {
                        Err(e) => Err(e),
                        Ok((geometry, p5)) => match sps_frame_crop(
                            d,
                            p5,
                            format.chroma_format,
                            format.separate_colour_plane,
                            geometry.frame_mbs_only,
                        ) {
                            Err(e) => Err(e),
                            Ok((frame_crop, p6)) => match spec_display_dimensions(
                                geometry.coded_width,
                                geometry.coded_height,
                                frame_crop,
                            ) {
                                Err(e) => Err(e),
                                Ok((display_width, display_height)) => match sps_optional_vui(d, p6) {
                                    Err(e) => Err(e),
                                    Ok((vui_parameters, p7)) => if buffering_below_references(
                                        vui_parameters,
                                        geometry.max_num_ref_frames,
                                    ) {
                                        Err(
                                            spec_out_of_range(
                                                "max_dec_frame_buffering",
                                                vui_parameters->Some_0.bitstream_restrictions->Some_0.max_dec_frame_buffering as u64,
                                                geometry.max_num_ref_frames as u64,
                                                u32::MAX as u64,
                                            ),
                                        )
                                    } else if !spec_rbsp_trailing_bits(d, p7) {
                                        Err(SequenceParameterSetError::InvalidRbspTrailingBits)
                                    } else {
                                        Ok(
                                            SequenceParameterSetView {
                                                profile_idc,
                                                constraint_set_flags,
                                                level_idc,
                                                seq_parameter_set_id,
                                                chroma_format: format.chroma_format,
                                                separate_colour_plane: format.separate_colour_plane,
                                                bit_depth_luma: format.bit_depth_luma,
                                                bit_depth_chroma: format.bit_depth_chroma,
                                                qpprime_y_zero_transform_bypass: format.qpprime_y_zero_transform_bypass,
                                                scaling_matrices: format.scaling_matrices,
                                                log2_max_frame_num: (frame_num_minus4 + 4) as u8,
                                                picture_order_count,
                                                max_num_ref_frames: geometry.max_num_ref_frames,
                                                gaps_in_frame_num_value_allowed: geometry.gaps_in_frame_num_value_allowed,
                                                pic_width_in_mbs: geometry.pic_width_in_mbs,
                                                pic_height_in_map_units: geometry.pic_height_in_map_units,
                                                frame_mbs_only: geometry.frame_mbs_only,
                                                mb_adaptive_frame_field: geometry.mb_adaptive_frame_field,
                                                direct_8x8_inference: geometry.direct_8x8_inference,
                                                frame_crop,
                                                coded_width: geometry.coded_width,
                                                coded_height: geometry.coded_height,
                                                display_width,
                                                display_height,
                                                vui_parameters,
                                            },
                                        )
                                    },
                                },
                            },
                        },
                    },
                },
            },
        },
    }
}

fn parse_optional_vui(reader: &mut BitReader) -> (r: Result<
    Option<VuiParameters>,
    SequenceParameterSetError,
>)
    requires
        old(reader).wf(),
    ensures
        final(reader).wf(),
        final(reader).data() == old(reader).data(),
        match r {
            Ok(vui) => sps_optional_vui(old(reader).data(), old(reader).pos()) == Ok::<
                (Option<VuiParametersView>, int),
                SequenceParameterSetError,
            >(
                (
                    match vui {
                        Some(v) => Some(v@),
                        None => None,
                    },
                    final(reader).pos(),
                ),
            ),
            Err(e) => sps_optional_vui(old(reader).data(), old(reader).pos()) == Err::<
                (Option<VuiParametersView>, int),
                SequenceParameterSetError,
            >(e),
        },
{
    if read_bit(reader)? {
        Ok(Some(parse_vui_parameters(reader)?))
    } else {
        Ok(None)
    }
}

fn parse_rbsp_trailing_bits(reader: &mut BitReader) -> (r: Result<(), SequenceParameterSetError>)
    requires
        old(reader).wf(),
    ensures
        final(reader).wf(),
        final(reader).data() == old(reader).data(),
        r is Ok <==> spec_rbsp_trailing_bits(old(reader).data(), old(reader).pos()),
        r matches Err(e) ==> e == SequenceParameterSetError::InvalidRbspTrailingBits,
{
    if reader.read_rbsp_trailing_bits() {
        Ok(())
    } else {
        Err(SequenceParameterSetError::InvalidRbspTrailingBits)
    }
}

/// Parses an H.264 sequence parameter set from its RBSP bytes.
///
/// The NAL header and emulation-prevention bytes must already have been
/// removed. All variable-size syntax loops have specification-defined bounds,
/// and all dimension and cropping arithmetic is checked.
#[verifier::rlimit(60)]
pub fn parse_sequence_parameter_set(rbsp: &[u8]) -> (r: Result<
    SequenceParameterSet,
    SequenceParameterSetError,
>)
    ensures
        match r {
            Ok(sps) => sequence_parameter_set_syntax(rbsp@) == Ok::<
                SequenceParameterSetView,
                SequenceParameterSetError,
            >(sps@),
            Err(e) => sequence_parameter_set_syntax(rbsp@) == Err::<
                SequenceParameterSetView,
                SequenceParameterSetError,
            >(e),
        },
{
    let mut reader = BitReader::new(rbsp);
    let (profile_idc, constraint_set_flags, level_idc, seq_parameter_set_id) = parse_header(
        &mut reader,
    )?;
    let (
        chroma_format,
        separate_colour_plane,
        bit_depth_luma,
        bit_depth_chroma,
        qpprime_y_zero_transform_bypass,
        scaling_matrices,
    ) = parse_sample_format(&mut reader, profile_idc)?;
    let log2_max_frame_num_minus4 = read_bounded_u8(
        &mut reader,
        "log2_max_frame_num_minus4",
        0,
        12,
    )?;
    let picture_order_count = parse_picture_order_count(&mut reader)?;
    let geometry = parse_frame_geometry(&mut reader)?;
    let frame_crop = parse_frame_crop(
        &mut reader,
        chroma_format,
        separate_colour_plane,
        geometry.frame_mbs_only,
    )?;
    let (display_width, display_height) = derive_display_dimensions(
        geometry.coded_width,
        geometry.coded_height,
        frame_crop,
    )?;
    let vui_parameters = parse_optional_vui(&mut reader)?;
    match &vui_parameters {
        Some(vui) => match vui.bitstream_restrictions {
            Some(restrictions) => {
                if restrictions.max_dec_frame_buffering < geometry.max_num_ref_frames {
                    return Err(
                        out_of_range(
                            "max_dec_frame_buffering",
                            restrictions.max_dec_frame_buffering as u64,
                            geometry.max_num_ref_frames as u64,
                            u32::MAX as u64,
                        ),
                    );
                }
            },
            None => {},
        },
        None => {},
    }
    parse_rbsp_trailing_bits(&mut reader)?;
    Ok(
        SequenceParameterSet {
            profile_idc,
            constraint_set_flags,
            level_idc,
            seq_parameter_set_id,
            chroma_format,
            separate_colour_plane,
            bit_depth_luma,
            bit_depth_chroma,
            qpprime_y_zero_transform_bypass,
            scaling_matrices,
            log2_max_frame_num: log2_max_frame_num_minus4 + 4,
            picture_order_count,
            max_num_ref_frames: geometry.max_num_ref_frames,
            gaps_in_frame_num_value_allowed: geometry.gaps_in_frame_num_value_allowed,
            pic_width_in_mbs: geometry.pic_width_in_mbs,
            pic_height_in_map_units: geometry.pic_height_in_map_units,
            frame_mbs_only: geometry.frame_mbs_only,
            mb_adaptive_frame_field: geometry.mb_adaptive_frame_field,
            direct_8x8_inference: geometry.direct_8x8_inference,
            frame_crop,
            coded_width: geometry.coded_width,
            coded_height: geometry.coded_height,
            display_width,
            display_height,
            vui_parameters,
        },
    )
}

proof fn lemma_header_constraints(d: Seq<u8>)
    ensures
        sps_header(d) matches Ok(((profile_idc, flags, _, id), _)) ==> {
            &&& spec_is_supported_profile(profile_idc)
            &&& flags.len() == 6
            &&& id <= 31
        },
{
    if let Ok(_) = sps_header(d) {
        let (_, p0) = sps_bits(d, 0, 8)->Ok_0;
        lemma_repeat_len(flag_item(), d, p0, 6);
    }
}

/// The format fields keep equal bit depths of eight to fourteen, separate
/// colour planes only for 4:4:4, and 8x8 lists beyond the first two only for
/// 4:4:4.
pub open spec fn sample_format_consistent(f: SampleFormatView) -> bool {
    &&& 8 <= f.bit_depth_luma <= 14
    &&& f.bit_depth_chroma == f.bit_depth_luma
    &&& f.separate_colour_plane ==> f.chroma_format == ChromaFormat::Yuv444
    &&& f.scaling_matrices matches Some(m) ==> (f.chroma_format != ChromaFormat::Yuv444
        ==> forall|i: int| 2 <= i < 6 ==> #[trigger] m.lists_8x8[i] is None)
}

proof fn lemma_sample_format_constraints(d: Seq<u8>)
    ensures
        forall|p: int, profile_idc: u8|
            #[trigger] sps_sample_format(d, p, profile_idc) is Ok ==> sample_format_consistent(
                sps_sample_format(d, p, profile_idc)->Ok_0.0,
            ),
{
    assert forall|p: int, profile_idc: u8| #[trigger]
        sps_sample_format(d, p, profile_idc) is Ok implies sample_format_consistent(
        sps_sample_format(d, p, profile_idc)->Ok_0.0,
    ) by {
        if spec_has_high_profile_syntax(profile_idc) {
            let (idc, p1) = from_bits(spec_read_ue(d, p))->Ok_0;
            let chroma_format = ChromaFormat::spec_from_idc(idc)->Some_0;
            let (_, p2) = (if chroma_format == ChromaFormat::Yuv444 {
                sps_bit(d, p1)
            } else {
                Ok((false, p1))
            })->Ok_0;
            let (_, p3) = sps_bounded(d, p2, "bit_depth_luma_minus8", 0, 6)->Ok_0;
            let (_, p4) = sps_bounded(d, p3, "bit_depth_chroma_minus8", 0, 6)->Ok_0;
            let (_, p5) = sps_bit(d, p4)->Ok_0;
            let (_, p6) = sps_bit(d, p5)->Ok_0;
            lemma_scaling_lists_slots(
                d,
                p6,
                if chroma_format == ChromaFormat::Yuv444 {
                    12
                } else {
                    8
                },
            );
        }
    }
}

proof fn lemma_picture_order_count_constraints(d: Seq<u8>)
    ensures
        forall|p: int|
            #[trigger] sps_picture_order_count(d, p) matches Ok(
                (PictureOrderCountView::TypeZero { log2_max_pic_order_cnt_lsb }, _),
            ) ==> 4 <= log2_max_pic_order_cnt_lsb <= 16,
{
}

proof fn lemma_frame_geometry_constraints(d: Seq<u8>)
    ensures
        forall|p: int|
            #[trigger] sps_frame_geometry(d, p) matches Ok((g, _)) ==> {
                &&& g.max_num_ref_frames <= 16
                &&& g.pic_width_in_mbs >= 1
                &&& g.pic_height_in_map_units >= 1
                &&& g.frame_mbs_only ==> !g.mb_adaptive_frame_field
                &&& g.coded_width == 16 * g.pic_width_in_mbs
                &&& g.coded_height == 16 * g.pic_height_in_map_units * (if g.frame_mbs_only {
                    1int
                } else {
                    2int
                })
            },
{
}

proof fn lemma_frame_crop_units(d: Seq<u8>)
    ensures
        forall|p: int, chroma_format: ChromaFormat, separate: bool, frame_mbs_only: bool|
            #[trigger] sps_frame_crop(d, p, chroma_format, separate, frame_mbs_only) matches Ok(
                (Some(c), _),
            ) ==> (c.unit_x, c.unit_y) == spec_crop_units(chroma_format, separate, frame_mbs_only),
{
}

/// The VUI bitstream restrictions, if any, keep the reorder depth within the
/// decoded-frame buffering, which is at most sixteen frames.
pub open spec fn restrictions_consistent(vui: Option<VuiParametersView>) -> bool {
    match vui {
        Some(v) => match v.bitstream_restrictions {
            Some(r) => r.max_num_reorder_frames <= r.max_dec_frame_buffering
                && r.max_dec_frame_buffering <= 16,
            None => true,
        },
        None => true,
    }
}

proof fn lemma_vui_constraints(d: Seq<u8>)
    ensures
        forall|p: int|
            #[trigger] sps_optional_vui(d, p) is Ok ==> restrictions_consistent(
                sps_optional_vui(d, p)->Ok_0.0,
            ),
{
    assert forall|p: int| #[trigger] sps_optional_vui(d, p) is Ok implies restrictions_consistent(
        sps_optional_vui(d, p)->Ok_0.0,
    ) by {
        let (present, p1) = sps_bit(d, p)->Ok_0;
        if present {
            let (_, p2) = sps_aspect_ratio(d, p1)->Ok_0;
            let (_, p3) = sps_overscan(d, p2)->Ok_0;
            let (_, p4) = sps_video_signal_type(d, p3)->Ok_0;
            let (_, p5) = sps_chroma_location(d, p4)->Ok_0;
            let (_, p6) = sps_timing_info(d, p5)->Ok_0;
            let (nal, p7) = sps_optional_hrd(d, p6)->Ok_0;
            let (vcl, p8) = sps_optional_hrd(d, p7)->Ok_0;
            let p9 = if nal is Some || vcl is Some {
                sps_bit(d, p8)->Ok_0.1
            } else {
                p8
            };
            let (_, p10) = sps_bit(d, p9)->Ok_0;
            assert(sps_bitstream_restrictions(d, p10) is Ok);
        }
    }
}

proof fn lemma_display_dimensions(coded_width: u32, coded_height: u32, frame_crop: Option<FrameCrop>)
    requires
        coded_width > 0,
        coded_height > 0,
    ensures
        spec_display_dimensions(coded_width, coded_height, frame_crop) matches Ok(
            (display_width, display_height),
        ) ==> {
            &&& 0 < display_width <= coded_width
            &&& 0 < display_height <= coded_height
            &&& match frame_crop {
                None => display_width == coded_width && display_height == coded_height,
                Some(c) => {
                    &&& display_width == coded_width - (c.left + c.right) * c.unit_x
                    &&& display_height == coded_height - (c.top + c.bottom) * c.unit_y
                },
            }
        },
{
}

/// Law: every sequence parameter set the parser accepts satisfies the H.264
/// constraints the parser checks, and its derived dimensions follow from the
/// coded fields: sixteen samples per macroblock, two map units per macroblock
/// row pair for field-capable streams, and the display size as the coded size
/// less the cropped samples, never empty.
pub proof fn lemma_accepted_sps_constraints(d: Seq<u8>)
    ensures
        sequence_parameter_set_syntax(d) matches Ok(s) ==> {
            &&& spec_is_supported_profile(s.profile_idc)
            &&& s.constraint_set_flags.len() == 6
            &&& s.seq_parameter_set_id <= 31
            &&& 8 <= s.bit_depth_luma <= 14
            &&& s.bit_depth_chroma == s.bit_depth_luma
            &&& s.separate_colour_plane ==> s.chroma_format == ChromaFormat::Yuv444
            &&& 4 <= s.log2_max_frame_num <= 16
            &&& s.max_num_ref_frames <= 16
            &&& s.pic_width_in_mbs >= 1
            &&& s.pic_height_in_map_units >= 1
            &&& s.frame_mbs_only ==> !s.mb_adaptive_frame_field
            &&& s.coded_width == 16 * s.pic_width_in_mbs
            &&& s.coded_height == 16 * s.pic_height_in_map_units * (if s.frame_mbs_only {
                1int
            } else {
                2int
            })
            &&& 0 < s.display_width <= s.coded_width
            &&& 0 < s.display_height <= s.coded_height
            &&& match s.frame_crop {
                None => s.display_width == s.coded_width && s.display_height == s.coded_height,
                Some(c) => {
                    &&& (c.unit_x, c.unit_y) == spec_crop_units(
                        s.chroma_format,
                        s.separate_colour_plane,
                        s.frame_mbs_only,
                    )
                    &&& s.display_width == s.coded_width - (c.left + c.right) * c.unit_x
                    &&& s.display_height == s.coded_height - (c.top + c.bottom) * c.unit_y
                },
            }
            &&& s.picture_order_count matches PictureOrderCountView::TypeZero {
                log2_max_pic_order_cnt_lsb,
            } ==> 4 <= log2_max_pic_order_cnt_lsb <= 16
            &&& s.scaling_matrices matches Some(m) ==> (s.chroma_format != ChromaFormat::Yuv444
                ==> forall|i: int| 2 <= i < 6 ==> #[trigger] m.lists_8x8[i] is None)
            &&& restrictions_consistent(s.vui_parameters)
            &&& !buffering_below_references(s.vui_parameters, s.max_num_ref_frames)
        },
{
    lemma_header_constraints(d);
    lemma_sample_format_constraints(d);
    lemma_picture_order_count_constraints(d);
    lemma_frame_geometry_constraints(d);
    lemma_frame_crop_units(d);
    lemma_vui_constraints(d);
    if let Ok(s) = sequence_parameter_set_syntax(d) {
        lemma_display_dimensions(s.coded_width, s.coded_height, s.frame_crop);
    }
}

// ---------------------------------------------------------------------------
// Parsing a prefix of the input.
// ---------------------------------------------------------------------------

proof fn lemma_scaling_list_extends(d: Seq<u8>, e: Seq<u8>, p: int, n: nat)
    requires
        d.is_prefix_of(e),
        0 <= p,
    ensures
        extends(scaling_list_syntax(d, p, n), scaling_list_syntax(e, p, n), p),
    decreases n,
{
    reveal(scaling_list_syntax);
    lemma_reads_extend(d, e);
    if n > 0 {
        lemma_scaling_list_extends(d, e, p, (n - 1) as nat);
    }
}

pub(crate) proof fn lemma_scaling_lists_extend(d: Seq<u8>, e: Seq<u8>, p: int, count: nat)
    requires
        d.is_prefix_of(e),
        0 <= p,
    ensures
        extends(scaling_lists_syntax(d, p, count), scaling_lists_syntax(e, p, count), p),
    decreases count,
{
    lemma_reads_extend(d, e);
    if count > 0 {
        lemma_scaling_lists_extend(d, e, p, (count - 1) as nat);
        if let Ok((_, q)) = scaling_lists_syntax(d, p, (count - 1) as nat) {
            if let Ok((_, q1)) = spec_read_bit(d, q) {
                lemma_scaling_list_extends(d, e, q1, 16);
                lemma_scaling_list_extends(d, e, q1, 64);
            }
        }
    }
}

proof fn lemma_header_extends(d: Seq<u8>, e: Seq<u8>)
    requires
        d.is_prefix_of(e),
    ensures
        extends(sps_header(d), sps_header(e), 0),
{
    lemma_reads_extend(d, e);
    if let Ok((_, p1)) = sps_bits(d, 0, 8) {
        lemma_repeat_extends(flag_item(), d, e, p1, 6);
    }
}

proof fn lemma_sample_format_extends(d: Seq<u8>, e: Seq<u8>)
    requires
        d.is_prefix_of(e),
    ensures
        forall|p: int, profile_idc: u8|
            0 <= p ==> extends(
                #[trigger] sps_sample_format(d, p, profile_idc),
                sps_sample_format(e, p, profile_idc),
                p,
            ),
{
    lemma_reads_extend(d, e);
    assert forall|p: int, count: nat| 0 <= p implies extends(
        #[trigger] scaling_lists_syntax(d, p, count),
        scaling_lists_syntax(e, p, count),
        p,
    ) by {
        lemma_scaling_lists_extend(d, e, p, count);
    }
}

proof fn lemma_picture_order_count_extends(d: Seq<u8>, e: Seq<u8>)
    requires
        d.is_prefix_of(e),
    ensures
        forall|p: int|
            0 <= p ==> extends(
                #[trigger] sps_picture_order_count(d, p),
                sps_picture_order_count(e, p),
                p,
            ),
{
    lemma_reads_extend(d, e);
    assert forall|q: int| 0 <= q implies extends(#[trigger] offset_item()(d, q), offset_item()(e, q), q) by {
        assert(offset_item()(d, q) == sps_i32_se(d, q, "offset_for_ref_frame"));
        assert(offset_item()(e, q) == sps_i32_se(e, q, "offset_for_ref_frame"));
    }
    assert forall|p: int, n: nat| 0 <= p implies extends(
        #[trigger] spec_repeat(offset_item(), d, p, n),
        spec_repeat(offset_item(), e, p, n),
        p,
    ) by {
        lemma_repeat_extends(offset_item(), d, e, p, n);
    }
}

proof fn lemma_frame_geometry_extends(d: Seq<u8>, e: Seq<u8>)
    requires
        d.is_prefix_of(e),
    ensures
        forall|p: int|
            0 <= p ==> extends(#[trigger] sps_frame_geometry(d, p), sps_frame_geometry(e, p), p),
{
    lemma_reads_extend(d, e);
}

proof fn lemma_frame_crop_extends(d: Seq<u8>, e: Seq<u8>)
    requires
        d.is_prefix_of(e),
    ensures
        forall|p: int, chroma_format: ChromaFormat, separate: bool, frame_mbs_only: bool|
            0 <= p ==> extends(
                #[trigger] sps_frame_crop(d, p, chroma_format, separate, frame_mbs_only),
                sps_frame_crop(e, p, chroma_format, separate, frame_mbs_only),
                p,
            ),
{
    lemma_reads_extend(d, e);
}

proof fn lemma_hrd_extends(d: Seq<u8>, e: Seq<u8>)
    requires
        d.is_prefix_of(e),
    ensures
        forall|p: int|
            0 <= p ==> extends(#[trigger] sps_optional_hrd(d, p), sps_optional_hrd(e, p), p),
{
    lemma_reads_extend(d, e);
    assert forall|q: int| 0 <= q implies extends(#[trigger] cpb_entry_item()(d, q), cpb_entry_item()(e, q), q) by {
        assert(cpb_entry_item()(d, q) == sps_cpb_entry(d, q));
        assert(cpb_entry_item()(e, q) == sps_cpb_entry(e, q));
    }
    assert forall|p: int, n: nat| 0 <= p implies extends(
        #[trigger] spec_repeat(cpb_entry_item(), d, p, n),
        spec_repeat(cpb_entry_item(), e, p, n),
        p,
    ) by {
        lemma_repeat_extends(cpb_entry_item(), d, e, p, n);
    }
    assert forall|p: int| 0 <= p implies extends(
        #[trigger] sps_hrd_parameters(d, p),
        sps_hrd_parameters(e, p),
        p,
    ) by {}
}

proof fn lemma_aspect_ratio_extends(d: Seq<u8>, e: Seq<u8>)
    requires
        d.is_prefix_of(e),
    ensures
        forall|p: int| 0 <= p ==> extends(#[trigger] sps_aspect_ratio(d, p), sps_aspect_ratio(e, p), p),
{
    lemma_reads_extend(d, e);
}

proof fn lemma_overscan_extends(d: Seq<u8>, e: Seq<u8>)
    requires
        d.is_prefix_of(e),
    ensures
        forall|p: int| 0 <= p ==> extends(#[trigger] sps_overscan(d, p), sps_overscan(e, p), p),
{
    lemma_reads_extend(d, e);
}

proof fn lemma_video_signal_type_extends(d: Seq<u8>, e: Seq<u8>)
    requires
        d.is_prefix_of(e),
    ensures
        forall|p: int| 0 <= p ==> extends(#[trigger] sps_video_signal_type(d, p), sps_video_signal_type(e, p), p),
{
    lemma_reads_extend(d, e);
}

proof fn lemma_chroma_location_extends(d: Seq<u8>, e: Seq<u8>)
    requires
        d.is_prefix_of(e),
    ensures
        forall|p: int| 0 <= p ==> extends(#[trigger] sps_chroma_location(d, p), sps_chroma_location(e, p), p),
{
    lemma_reads_extend(d, e);
}

proof fn lemma_timing_info_extends(d: Seq<u8>, e: Seq<u8>)
    requires
        d.is_prefix_of(e),
    ensures
        forall|p: int| 0 <= p ==> extends(#[trigger] sps_timing_info(d, p), sps_timing_info(e, p), p),
{
    lemma_reads_extend(d, e);
}

proof fn lemma_bitstream_restrictions_extends(d: Seq<u8>, e: Seq<u8>)
    requires
        d.is_prefix_of(e),
    ensures
        forall|p: int| 0 <= p ==> extends(#[trigger] sps_bitstream_restrictions(d, p), sps_bitstream_restrictions(e, p), p),
{
    lemma_reads_extend(d, e);
}

proof fn lemma_vui_extends(d: Seq<u8>, e: Seq<u8>)
    requires
        d.is_prefix_of(e),
    ensures
        forall|p: int|
            0 <= p ==> extends(#[trigger] sps_optional_vui(d, p), sps_optional_vui(e, p), p),
{
    lemma_aspect_ratio_extends(d, e);
    lemma_overscan_extends(d, e);
    lemma_video_signal_type_extends(d, e);
    lemma_chroma_location_extends(d, e);
    lemma_timing_info_extends(d, e);
    lemma_hrd_extends(d, e);
    lemma_bitstream_restrictions_extends(d, e);
    lemma_reads_extend(d, e);
    assert forall|p: int| 0 <= p implies extends(
        #[trigger] sps_vui_parameters(d, p),
        sps_vui_parameters(e, p),
        p,
    ) by {}
}

/// Law: no proper prefix of an accepted sequence parameter set is accepted.
/// Cutting a valid SPS short by any number of bytes makes it invalid.
pub proof fn lemma_truncated_sps_is_rejected(rbsp: Seq<u8>, len: int)
    requires
        0 <= len < rbsp.len(),
        sequence_parameter_set_syntax(rbsp) is Ok,
    ensures
        sequence_parameter_set_syntax(rbsp.subrange(0, len)) is Err,
{
    let d = rbsp.subrange(0, len);
    assert(d.is_prefix_of(rbsp));
    lemma_reads_extend(d, rbsp);
    lemma_header_extends(d, rbsp);
    lemma_sample_format_extends(d, rbsp);
    lemma_picture_order_count_extends(d, rbsp);
    lemma_frame_geometry_extends(d, rbsp);
    lemma_frame_crop_extends(d, rbsp);
    lemma_vui_extends(d, rbsp);
}

// ---------------------------------------------------------------------------
// Where each field comes from.
// ---------------------------------------------------------------------------

/// Law: the geometry fields end with `frame_mbs_only_flag`, then
/// `mb_adaptive_frame_field_flag` only when `frame_mbs_only_flag` is clear,
/// then `direct_8x8_inference_flag`; each flag is the bit as read.
pub proof fn lemma_frame_geometry_flags(d: Seq<u8>, p: int)
    requires
        0 <= p,
    ensures
        sps_frame_geometry(d, p) matches Ok((g, end)) ==> {
            &&& g.direct_8x8_inference == bit_at(d, end - 1)
            &&& if g.frame_mbs_only {
                bit_at(d, end - 2) && !g.mb_adaptive_frame_field
            } else {
                !bit_at(d, end - 3) && g.mb_adaptive_frame_field == bit_at(d, end - 2)
            }
        },
{
}

/// Law: the optional video signal type is read field by field: its presence
/// flag, the three-bit `video_format`, the full-range flag and the
/// colour-description flag; with a colour description, `colour_primaries`,
/// `transfer_characteristics` and `matrix_coefficients` follow as whole bytes
/// in that order.
pub proof fn lemma_video_signal_type_fields(d: Seq<u8>, p: int)
    requires
        0 <= p,
    ensures
        sps_video_signal_type(d, p) matches Ok((signal, end)) ==> match signal {
            None => !bit_at(d, p) && end == p + 1,
            Some(v) => {
                &&& bit_at(d, p)
                &&& v.video_format == bits_value(d, p + 1, 3)
                &&& v.full_range == bit_at(d, p + 4)
                &&& if bit_at(d, p + 5) {
                    &&& v.colour_primaries matches Some(c) && c == bits_value(d, p + 6, 8)
                    &&& v.transfer_characteristics matches Some(t) && t == bits_value(d, p + 14, 8)
                    &&& v.matrix_coefficients matches Some(m) && m == bits_value(d, p + 22, 8)
                    &&& end == p + 30
                } else {
                    &&& v.colour_primaries is None
                    &&& v.transfer_characteristics is None
                    &&& v.matrix_coefficients is None
                    &&& end == p + 6
                }
            },
        },
{
    if let Ok((Some(v), end)) = sps_video_signal_type(d, p) {
        lemma_bits_value_within(d, p + 1, 3, 8);
        if bit_at(d, p + 5) {
            lemma_bits_value_within(d, p + 6, 8, 8);
            lemma_bits_value_within(d, p + 14, 8, 8);
            lemma_bits_value_within(d, p + 22, 8, 8);
        }
    }
}

proof fn lemma_scaling_list_last(d: Seq<u8>, p: int, n: nat)
    ensures
        scaling_list_syntax(d, p, n) matches Ok((state, _)) ==> {
            &&& state.values.len() == n
            &&& state.last == (if n == 0 {
                8int
            } else {
                state.values[n - 1] as int
            })
        },
    decreases n,
{
    reveal(scaling_list_syntax);
    lemma_scaling_list_entries(d, p, n);
    if n > 0 {
        lemma_scaling_list_last(d, p, (n - 1) as nat);
    }
}

/// Law: a scaling list grows one entry at a time. An entry for which a
/// `delta_scale` is read is the previous entry (8 before the first) plus the
/// delta, modulo 256, or the previous entry when that sum is zero; an entry
/// for which nothing is read repeats the previous entry.
pub proof fn lemma_scaling_list_deltas(d: Seq<u8>, p: int, n: nat)
    ensures
        (scaling_list_syntax(d, p, n), scaling_list_syntax(d, p, n + 1)) matches (
            Ok((before, q)),
            Ok((after, r)),
        ) ==> {
            let previous: int = if n == 0 {
                8
            } else {
                before.values[n - 1] as int
            };
            &&& after.values == before.values.push(after.values[n as int])
            &&& if r == q {
                after.values[n as int] == previous
            } else {
                spec_read_se(d, q) matches Ok((delta, end)) && end == r && {
                    let sum = (previous + delta + 256) % 256;
                    after.values[n as int] == (if sum == 0 {
                        previous
                    } else {
                        sum
                    })
                }
            }
        },
{
    reveal(scaling_list_syntax);
    lemma_scaling_list_last(d, p, n);
    lemma_scaling_list_last(d, p, n + 1);
}

/// Law: the cropping offsets follow their presence flag as four Exp-Golomb
/// codes, in the order left, right, top, bottom.
#[verifier::spinoff_prover]
#[verifier::rlimit(40)]
pub proof fn lemma_frame_crop_fields(
    d: Seq<u8>,
    p: int,
    chroma_format: ChromaFormat,
    separate_colour_plane: bool,
    frame_mbs_only: bool,
)
    requires
        0 <= p,
    ensures
        sps_frame_crop(d, p, chroma_format, separate_colour_plane, frame_mbs_only) matches Ok(
            (crop, end),
        ) ==> match crop {
            None => !bit_at(d, p) && end == p + 1,
            Some(c) => bit_at(d, p) && spec_read_ues(d, p + 1, 4) == Ok::<
                (Seq<u64>, int),
                BitReaderError,
            >((seq![c.left as u64, c.right as u64, c.top as u64, c.bottom as u64], end)),
        },
{
    reveal_with_fuel(spec_repeat, 5);
    if let Ok((Some(c), end)) = sps_frame_crop(
        d,
        p,
        chroma_format,
        separate_colour_plane,
        frame_mbs_only,
    ) {
        let (codes, _) = spec_read_ues(d, p + 1, 4)->Ok_0;
        assert(codes =~= seq![c.left as u64, c.right as u64, c.top as u64, c.bottom as u64]);
    }
}

/// Law: the geometry fields are, in order, `max_num_ref_frames`, the
/// frame-number-gaps flag, the width and the height in `minus1` form, and
/// `frame_mbs_only_flag`.
#[verifier::spinoff_prover]
#[verifier::rlimit(40)]
pub proof fn lemma_frame_geometry_fields(d: Seq<u8>, p: int)
    requires
        0 <= p,
    ensures
        sps_frame_geometry(d, p) matches Ok((g, _)) ==> match spec_read_ue(d, p) {
            Ok((refs, q1)) => g.max_num_ref_frames == refs && g.gaps_in_frame_num_value_allowed
                == bit_at(d, q1) && match spec_read_ues(d, q1 + 1, 2) {
                Ok((sizes, q3)) => g.pic_width_in_mbs == sizes[0] + 1 && g.pic_height_in_map_units
                    == sizes[1] + 1 && g.frame_mbs_only == bit_at(d, q3),
                Err(_) => false,
            },
            Err(_) => false,
        },
{
    reveal_with_fuel(spec_repeat, 3);
}

/// Law: the optional aspect ratio is its presence flag and an 8-bit
/// `aspect_ratio_idc`; for 255 the 16-bit sample width and then the 16-bit
/// sample height follow.
pub proof fn lemma_aspect_ratio_fields(d: Seq<u8>, p: int)
    requires
        0 <= p,
    ensures
        sps_aspect_ratio(d, p) matches Ok((aspect, end)) ==> match aspect {
            None => !bit_at(d, p) && end == p + 1,
            Some(a) => {
                &&& bit_at(d, p)
                &&& a.idc == bits_value(d, p + 1, 8)
                &&& if a.idc == 255 {
                    &&& a.sar_width matches Some(w) && w == bits_value(d, p + 9, 16)
                    &&& a.sar_height matches Some(h) && h == bits_value(d, p + 25, 16)
                    &&& end == p + 41
                } else {
                    a.sar_width is None && a.sar_height is None && end == p + 9
                }
            },
        },
{
    if let Ok((Some(a), _)) = sps_aspect_ratio(d, p) {
        lemma_bits_value_within(d, p + 1, 8, 8);
        lemma_bits_value_within(d, p + 9, 16, 16);
        lemma_bits_value_within(d, p + 25, 16, 16);
    }
}

/// Law: the optional overscan flag follows its presence flag.
pub proof fn lemma_overscan_fields(d: Seq<u8>, p: int)
    requires
        0 <= p,
    ensures
        sps_overscan(d, p) matches Ok((overscan, end)) ==> match overscan {
            None => !bit_at(d, p) && end == p + 1,
            Some(f) => bit_at(d, p) && f == bit_at(d, p + 1) && end == p + 2,
        },
{
}

/// Law: the optional chroma sample locations follow their presence flag as
/// two Exp-Golomb codes, the top field's first.
pub proof fn lemma_chroma_location_fields(d: Seq<u8>, p: int)
    requires
        0 <= p,
    ensures
        sps_chroma_location(d, p) matches Ok((location, end)) ==> match location {
            None => !bit_at(d, p) && end == p + 1,
            Some(l) => bit_at(d, p) && spec_read_ues(d, p + 1, 2) == Ok::<
                (Seq<u64>, int),
                BitReaderError,
            >((seq![l.top_field as u64, l.bottom_field as u64], end)),
        },
{
    reveal_with_fuel(spec_repeat, 3);
    if let Ok((Some(l), end)) = sps_chroma_location(d, p) {
        let (codes, _) = spec_read_ues(d, p + 1, 2)->Ok_0;
        assert(codes =~= seq![l.top_field as u64, l.bottom_field as u64]);
    }
}

/// Law: the optional timing information follows its presence flag as the
/// 32-bit `num_units_in_tick`, the 32-bit `time_scale` and the fixed-rate
/// flag.
pub proof fn lemma_timing_info_fields(d: Seq<u8>, p: int)
    requires
        0 <= p,
    ensures
        sps_timing_info(d, p) matches Ok((timing, end)) ==> match timing {
            None => !bit_at(d, p) && end == p + 1,
            Some(t) => {
                &&& bit_at(d, p)
                &&& t.num_units_in_tick == bits_value(d, p + 1, 32)
                &&& t.time_scale == bits_value(d, p + 33, 32)
                &&& t.fixed_frame_rate == bit_at(d, p + 65)
                &&& end == p + 66
            },
        },
{
    if let Ok((Some(t), _)) = sps_timing_info(d, p) {
        lemma_bits_value_within(d, p + 1, 32, 32);
        lemma_bits_value_within(d, p + 33, 32, 32);
    }
}

/// Law: the optional bitstream restrictions follow their presence flag as the
/// motion-vector flag and six Exp-Golomb codes: the bytes-per-picture and
/// bits-per-macroblock denominators, the horizontal and vertical motion
/// vector length limits, the reorder count and the decoded-frame buffering.
#[verifier::spinoff_prover]
#[verifier::rlimit(40)]
pub proof fn lemma_bitstream_restrictions_fields(d: Seq<u8>, p: int)
    requires
        0 <= p,
    ensures
        sps_bitstream_restrictions(d, p) matches Ok((restrictions, end)) ==> match restrictions {
            None => !bit_at(d, p) && end == p + 1,
            Some(r) => {
                &&& bit_at(d, p)
                &&& r.motion_vectors_over_pic_boundaries == bit_at(d, p + 1)
                &&& spec_read_ues(d, p + 2, 6) == Ok::<(Seq<u64>, int), BitReaderError>(
                    (
                        seq![
                            r.max_bytes_per_pic_denom as u64,
                            r.max_bits_per_mb_denom as u64,
                            r.log2_max_mv_length_horizontal as u64,
                            r.log2_max_mv_length_vertical as u64,
                            r.max_num_reorder_frames as u64,
                            r.max_dec_frame_buffering as u64,
                        ],
                        end,
                    ),
                )
            },
        },
{
    reveal_with_fuel(spec_repeat, 7);
    if let Ok((Some(r), end)) = sps_bitstream_restrictions(d, p) {
        let (codes, _) = spec_read_ues(d, p + 2, 6)->Ok_0;
        assert(codes =~= seq![
            r.max_bytes_per_pic_denom as u64,
            r.max_bits_per_mb_denom as u64,
            r.log2_max_mv_length_horizontal as u64,
            r.log2_max_mv_length_vertical as u64,
            r.max_num_reorder_frames as u64,
            r.max_dec_frame_buffering as u64,
        ]);
    }
}

/// Law: a CPB entry is two Exp-Golomb codes, the bit-rate value and then the
/// buffer-size value, followed by the constant-bit-rate flag.
pub proof fn lemma_cpb_entry_fields(d: Seq<u8>, p: int)
    requires
        0 <= p,
    ensures
        sps_cpb_entry(d, p) matches Ok((entry, end)) ==> match spec_read_ues(d, p, 2) {
            Ok((codes, q)) => entry.bit_rate_value_minus1 == codes[0] && entry.cpb_size_value_minus1
                == codes[1] && entry.cbr == bit_at(d, q) && end == q + 1,
            Err(_) => false,
        },
{
    reveal_with_fuel(spec_repeat, 3);
}

/// Law: HRD parameters are the CPB count in `minus1` form, the 4-bit bit-rate
/// scale, the 4-bit buffer-size scale, one entry per CPB, and four 5-bit
/// fields at the end: the initial removal delay, removal delay and output
/// delay lengths in `minus1` form, and the time-offset length.
#[verifier::spinoff_prover]
#[verifier::rlimit(40)]
pub proof fn lemma_hrd_parameters_fields(d: Seq<u8>, p: int)
    requires
        0 <= p,
    ensures
        sps_hrd_parameters(d, p) matches Ok((h, end)) ==> match spec_read_ue(d, p) {
            Ok((count_minus1, q)) => {
                &&& h.bit_rate_scale == bits_value(d, q, 4)
                &&& h.cpb_size_scale == bits_value(d, q + 4, 4)
                &&& h.cpb_entries.len() == count_minus1 + 1
                &&& h.initial_cpb_removal_delay_length == bits_value(d, end - 20, 5) + 1
                &&& h.cpb_removal_delay_length == bits_value(d, end - 15, 5) + 1
                &&& h.dpb_output_delay_length == bits_value(d, end - 10, 5) + 1
                &&& h.time_offset_length == bits_value(d, end - 5, 5)
            },
            Err(_) => false,
        },
{
    if let Ok((h, end)) = sps_hrd_parameters(d, p) {
        let (count_minus1, q) = spec_read_ue(d, p)->Ok_0;
        lemma_repeat_len(cpb_entry_item(), d, q + 8, (count_minus1 + 1) as nat);
        let (entries, q4) = spec_repeat(cpb_entry_item(), d, q + 8, (count_minus1 + 1) as nat)->Ok_0;
        lemma_bits_value_within(d, q, 4, 8);
        lemma_bits_value_within(d, q + 4, 4, 8);
        lemma_bits_value_within(d, q4, 5, 5);
        lemma_bits_value_within(d, q4 + 5, 5, 5);
        lemma_bits_value_within(d, q4 + 10, 5, 5);
        lemma_bits_value_within(d, q4 + 15, 5, 8);
        assert(end == q4 + 20);
        lemma2_to64();
    }
}

/// Law: the format fields of a profile with high-profile syntax are
/// `chroma_format_idc`, the separate-colour-plane flag only for 4:4:4, the
/// luma and then the chroma bit depth in `minus8` form, the transform-bypass
/// flag and the scaling-matrix presence flag; other profiles read nothing and
/// use 4:2:0 at eight bits.
#[verifier::spinoff_prover]
#[verifier::rlimit(40)]
pub proof fn lemma_sample_format_fields(d: Seq<u8>, p: int, profile_idc: u8)
    requires
        0 <= p,
    ensures
        sps_sample_format(d, p, profile_idc) matches Ok((f, end)) ==> if !spec_has_high_profile_syntax(
            profile_idc,
        ) {
            &&& end == p
            &&& f.chroma_format == ChromaFormat::Yuv420
            &&& !f.separate_colour_plane
            &&& f.bit_depth_luma == 8 && f.bit_depth_chroma == 8
            &&& !f.qpprime_y_zero_transform_bypass
            &&& f.scaling_matrices is None
        } else {
            match spec_read_ue(d, p) {
                Ok((idc, q1)) => {
                    let q2 = if idc == 3 {
                        q1 + 1
                    } else {
                        q1
                    };
                    &&& f.chroma_format.spec_idc() == idc
                    &&& f.separate_colour_plane == (idc == 3 && bit_at(d, q1))
                    &&& match spec_read_ues(d, q2, 2) {
                        Ok((depths, q4)) => {
                            &&& f.bit_depth_luma == depths[0] + 8
                            &&& f.bit_depth_chroma == depths[1] + 8
                            &&& f.qpprime_y_zero_transform_bypass == bit_at(d, q4)
                            &&& (f.scaling_matrices is Some) == bit_at(d, q4 + 1)
                            &&& f.scaling_matrices is None ==> end == q4 + 2
                        },
                        Err(_) => false,
                    }
                },
                Err(_) => false,
            }
        },
{
    reveal_with_fuel(spec_repeat, 3);
}

proof fn lemma_offsets_are_signed_codes(d: Seq<u8>, q: int, n: nat)
    ensures
        spec_repeat(offset_item(), d, q, n) matches Ok((offsets, end)) ==> match spec_read_ses(d, q, n) {
            Ok((codes, e)) => e == end && offsets.len() == n && codes.len() == n && forall|i: int|
                0 <= i < n ==> #[trigger] offsets[i] == codes[i],
            Err(_) => false,
        },
    decreases n,
{
    if n > 0 {
        lemma_offsets_are_signed_codes(d, q, (n - 1) as nat);
        if let Ok((offsets, end)) = spec_repeat(offset_item(), d, q, n) {
            let (before, mid) = spec_repeat(offset_item(), d, q, (n - 1) as nat)->Ok_0;
            assert(offset_item()(d, mid) == sps_i32_se(d, mid, "offset_for_ref_frame"));
            let (codes, _) = spec_read_ses(d, q, (n - 1) as nat)->Ok_0;
            let (code, _) = spec_read_se(d, mid)->Ok_0;
            assert((|d: Seq<u8>, q: int| spec_read_se(d, q))(d, mid) == spec_read_se(d, mid));
            assert forall|i: int| 0 <= i < n implies #[trigger] offsets[i] == codes.push(code)[i] by {
                if i < n - 1 {
                    assert(offsets[i] == before[i]);
                }
            }
        }
    }
}

/// Law: the picture-order-count syntax starts with `pic_order_cnt_type`; type
/// 0 follows it with the `pic_order_cnt_lsb` width in `minus4` form, type 1
/// with the always-zero flag, the non-reference and top-to-bottom offsets and
/// the cycle length and offsets as Exp-Golomb codes, and type 2 with nothing.
#[verifier::spinoff_prover]
#[verifier::rlimit(40)]
pub proof fn lemma_picture_order_count_fields(d: Seq<u8>, p: int)
    requires
        0 <= p,
    ensures
        sps_picture_order_count(d, p) matches Ok((poc, end)) ==> match spec_read_ue(d, p) {
            Ok((kind, q1)) => match poc {
                PictureOrderCountView::TypeZero { log2_max_pic_order_cnt_lsb } => kind == 0 && match spec_read_ue(d, q1) {
                    Ok((minus4, e)) => log2_max_pic_order_cnt_lsb == minus4 + 4 && e == end,
                    Err(_) => false,
                },
                PictureOrderCountView::TypeOne {
                    delta_pic_order_always_zero,
                    offset_for_non_ref_pic,
                    offset_for_top_to_bottom_field,
                    offsets_for_ref_frame,
                } => kind == 1 && delta_pic_order_always_zero == bit_at(d, q1) && match spec_read_ses(d, q1 + 1, 2) {
                    Ok((pair, q3)) => offset_for_non_ref_pic == pair[0] && offset_for_top_to_bottom_field
                        == pair[1] && match spec_read_ue(d, q3) {
                        Ok((cycle, q4)) => match spec_read_ses(d, q4, cycle as nat) {
                            Ok((offsets, e)) => e == end && offsets_for_ref_frame.len() == cycle
                                && forall|i: int|
                                0 <= i < cycle ==> #[trigger] offsets_for_ref_frame[i] == offsets[i],
                            Err(_) => false,
                        },
                        Err(_) => false,
                    },
                    Err(_) => false,
                },
                PictureOrderCountView::TypeTwo => kind == 2 && end == q1,
            },
            Err(_) => false,
        },
{
    reveal_with_fuel(spec_repeat, 3);
    if let Ok((poc, end)) = sps_picture_order_count(d, p) {
        let (kind, q1) = spec_read_ue(d, p)->Ok_0;
        if kind == 1 {
            let (_, q2) = sps_bit(d, q1)->Ok_0;
            let (_, q3a) = sps_i32_se(d, q2, "offset_for_non_ref_pic")->Ok_0;
            let (_, q3) = sps_i32_se(d, q3a, "offset_for_top_to_bottom_field")->Ok_0;
            let (cycle, q4) = sps_bounded(d, q3, "num_ref_frames_in_pic_order_cnt_cycle", 0, 255)->Ok_0;
            lemma_offsets_are_signed_codes(d, q4, cycle as nat);
        }
    }
}

proof fn lemma_header_piece_fields(d: Seq<u8>)
    ensures
        sps_header(d) matches Ok(((profile_idc, flags, level_idc, id), end)) ==> {
            &&& profile_idc == bits_value(d, 0, 8)
            &&& flags.len() == 6
            &&& forall|i: int| 0 <= i < 6 ==> #[trigger] flags[i] == bit_at(d, 8 + i)
            &&& bits_value(d, 14, 2) == 0
            &&& level_idc == bits_value(d, 16, 8)
            &&& spec_read_ue(d, 24) matches Ok((code, e)) && id == code && e == end
        },
{
    reveal_with_fuel(spec_repeat, 7);
    if let Ok(((profile_idc, flags, level_idc, id), end)) = sps_header(d) {
        lemma_bits_value_within(d, 0, 8, 8);
        lemma_bits_value_within(d, 16, 8, 8);
        lemma_repeat_len(flag_item(), d, 8, 6);
        lemma_bits_value_within(d, 14, 2, 8);
        assert(profile_idc == bits_value(d, 0, 8));
        assert(level_idc == bits_value(d, 16, 8));
        assert(spec_read_ue(d, 24) matches Ok((code, e)) && id == code && e == end);
        assert forall|i: int| 0 <= i < 6 implies #[trigger] flags[i] == bit_at(d, 8 + i) by {
            assert(flag_item()(d, 8 + i) == spec_read_bit(d, 8 + i));
        }
    }
}

/// Law: an accepted SPS starts with the 8-bit `profile_idc`, the six
/// constraint-set flags, two zero reserved bits, the 8-bit `level_idc` and
/// the `seq_parameter_set_id` code.
pub proof fn lemma_sps_header_fields(d: Seq<u8>)
    ensures
        sequence_parameter_set_syntax(d) matches Ok(s) ==> {
            &&& s.profile_idc == bits_value(d, 0, 8)
            &&& s.constraint_set_flags.len() == 6
            &&& forall|i: int| 0 <= i < 6 ==> #[trigger] s.constraint_set_flags[i] == bit_at(d, 8 + i)
            &&& bits_value(d, 14, 2) == 0
            &&& s.level_idc == bits_value(d, 16, 8)
            &&& spec_read_ue(d, 24) matches Ok((id, _)) && s.seq_parameter_set_id == id
        },
{
    lemma_header_piece_fields(d);
    if let Ok(s) = sequence_parameter_set_syntax(d) {
        let ((profile_idc, flags, level_idc, id), _) = sps_header(d)->Ok_0;
        assert(s.profile_idc == profile_idc && s.constraint_set_flags == flags && s.level_idc
            == level_idc && s.seq_parameter_set_id == id);
    }
}

/// Law: VUI parameters are, in syntax order, the aspect ratio, the overscan
/// flag, the video signal type, the chroma sample locations, the timing
/// information, the NAL and then the VCL HRD parameters, the low-delay flag
/// only when either HRD block is present, the `pic_struct` flag and the
/// bitstream restrictions, each read where the previous one ends.
#[verifier::spinoff_prover]
#[verifier::rlimit(40)]
pub proof fn lemma_vui_parameters_fields(d: Seq<u8>, p: int)
    requires
        0 <= p,
    ensures
        sps_vui_parameters(d, p) matches Ok((v, end)) ==> match sps_aspect_ratio(d, p) {
            Ok((aspect_ratio, p1)) => v.aspect_ratio == aspect_ratio && match sps_overscan(d, p1) {
                Ok((overscan, p2)) => v.overscan_appropriate == overscan && match sps_video_signal_type(
                    d,
                    p2,
                ) {
                    Ok((signal, p3)) => v.video_signal_type == signal && match sps_chroma_location(
                        d,
                        p3,
                    ) {
                        Ok((location, p4)) => v.chroma_location == location && match sps_timing_info(
                            d,
                            p4,
                        ) {
                            Ok((timing, p5)) => v.timing_info == timing && match sps_optional_hrd(d, p5) {
                                Ok((nal_hrd, p6)) => v.nal_hrd_parameters == nal_hrd && match sps_optional_hrd(
                                    d,
                                    p6,
                                ) {
                                    Ok((vcl_hrd, p7)) => {
                                        let p8 = if nal_hrd is Some || vcl_hrd is Some {
                                            p7 + 1
                                        } else {
                                            p7
                                        };
                                        &&& v.vcl_hrd_parameters == vcl_hrd
                                        &&& v.low_delay_hrd == (if nal_hrd is Some || vcl_hrd is Some {
                                            Some(bit_at(d, p7))
                                        } else {
                                            None
                                        })
                                        &&& v.pic_struct_present == bit_at(d, p8)
                                        &&& sps_bitstream_restrictions(d, p8 + 1) == Ok::<
                                            (Option<BitstreamRestrictions>, int),
                                            SequenceParameterSetError,
                                        >((v.bitstream_restrictions, end))
                                    },
                                    Err(_) => false,
                                },
                                Err(_) => false,
                            },
                            Err(_) => false,
                        },
                        Err(_) => false,
                    },
                    Err(_) => false,
                },
                Err(_) => false,
            },
            Err(_) => false,
        },
{
}

/// Law: an accepted SPS is, in syntax order, its header, the format fields,
/// `log2_max_frame_num` in `minus4` form, the picture-order-count syntax, the
/// geometry fields, the cropping offsets, the optional VUI parameters behind
/// their presence flag, and the RBSP trailing bits, each read where the
/// previous one ends; its fields are the fields so read.
#[verifier::spinoff_prover]
#[verifier::rlimit(60)]
pub proof fn lemma_sps_fields_in_order(d: Seq<u8>)
    ensures
        sequence_parameter_set_syntax(d) matches Ok(s) ==> match sps_header(d) {
            Ok((_, p1)) => match sps_sample_format(d, p1, s.profile_idc) {
                Ok((f, p2)) => {
                    &&& s.chroma_format == f.chroma_format
                    &&& s.separate_colour_plane == f.separate_colour_plane
                    &&& s.bit_depth_luma == f.bit_depth_luma
                    &&& s.bit_depth_chroma == f.bit_depth_chroma
                    &&& s.qpprime_y_zero_transform_bypass == f.qpprime_y_zero_transform_bypass
                    &&& s.scaling_matrices == f.scaling_matrices
                    &&& match spec_read_ue(d, p2) {
                        Ok((frame_num_minus4, p3)) => s.log2_max_frame_num == frame_num_minus4 + 4
                            && match sps_picture_order_count(d, p3) {
                            Ok((poc, p4)) => s.picture_order_count == poc && match sps_frame_geometry(
                                d,
                                p4,
                            ) {
                                Ok((g, p5)) => {
                                    &&& s.max_num_ref_frames == g.max_num_ref_frames
                                    &&& s.gaps_in_frame_num_value_allowed == g.gaps_in_frame_num_value_allowed
                                    &&& s.pic_width_in_mbs == g.pic_width_in_mbs
                                    &&& s.pic_height_in_map_units == g.pic_height_in_map_units
                                    &&& s.frame_mbs_only == g.frame_mbs_only
                                    &&& s.mb_adaptive_frame_field == g.mb_adaptive_frame_field
                                    &&& s.direct_8x8_inference == g.direct_8x8_inference
                                    &&& match sps_frame_crop(
                                        d,
                                        p5,
                                        s.chroma_format,
                                        s.separate_colour_plane,
                                        s.frame_mbs_only,
                                    ) {
                                        Ok((crop, p6)) => s.frame_crop == crop && if bit_at(d, p6) {
                                            match sps_vui_parameters(d, p6 + 1) {
                                                Ok((vui, p7)) => s.vui_parameters == Some(vui)
                                                    && spec_rbsp_trailing_bits(d, p7),
                                                Err(_) => false,
                                            }
                                        } else {
                                            s.vui_parameters is None && spec_rbsp_trailing_bits(
                                                d,
                                                p6 + 1,
                                            )
                                        },
                                        Err(_) => false,
                                    }
                                },
                                Err(_) => false,
                            },
                            Err(_) => false,
                        },
                        Err(_) => false,
                    }
                },
                Err(_) => false,
            },
            Err(_) => false,
        },
{
}

} // verus!
