//! H.264 picture parameter set syntax.
use std::collections::{BTreeMap, HashMap};
use vstd::prelude::*;
use crate::bitstream::{
    BitReader,
    BitReaderError,
    parsed,
    spec_read_bit,
    spec_read_bits,
    spec_read_se,
    spec_read_ue,
    spec_repeat,
    lemma_repeat_error_persists,
    spec_rbsp_trailing_bits,
    spec_more_rbsp_data,
    lemma_bits_value_within,
    lemma_repeat_len,
    extends,
    bit_at,
    bits_value,
    spec_read_ues,
    spec_read_ses,
    lemma_reads_extend,
    lemma_repeat_extends,
};
use crate::h264::sps::{
    ChromaFormat,
    ScalingList4x4,
    ScalingList8x8,
    ScalingListError,
    ScalingMatricesView,
    SequenceParameterSet,
    lists_view,
    parse_scaling_lists,
    scaling_lists_syntax,
    lemma_scaling_lists_slots,
    lemma_scaling_lists_extend,
};
use crate::text::{decimal, signed_decimal, push_decimal, push_signed_decimal};

verus! {

/// The largest picture, in map units, for which an explicit slice-group map
/// is accepted.
pub const MAX_EXPLICIT_SLICE_GROUP_MAP_UNITS: u32 = 1_048_576;

// ---------------------------------------------------------------------------
// Looking up sequence parameter sets.
// ---------------------------------------------------------------------------

/// Looks up sequence parameter sets by their syntax identifier.
///
/// Decoder state can implement this trait without exposing its storage model.
pub trait SequenceParameterSetLookup {
    /// The sequence parameter set stored under `id`, if any.
    spec fn spec_sequence_parameter_set(&self, id: u8) -> Option<SequenceParameterSet>;

    /// Returns the sequence parameter set with `id`, if it is available.
    fn sequence_parameter_set(&self, id: u8) -> (r: Option<&SequenceParameterSet>)
        ensures
            match r {
                Some(sps) => self.spec_sequence_parameter_set(id) == Some(*sps),
                None => self.spec_sequence_parameter_set(id) is None,
            },
    ;
}

impl SequenceParameterSetLookup for [Option<SequenceParameterSet>; 32] {
    open spec fn spec_sequence_parameter_set(&self, id: u8) -> Option<SequenceParameterSet> {
        if id < 32 {
            self@[id as int]
        } else {
            None
        }
    }

    fn sequence_parameter_set(&self, id: u8) -> (r: Option<&SequenceParameterSet>) {
        if id < 32 {
            self[id as usize].as_ref()
        } else {
            None
        }
    }
}

impl SequenceParameterSetLookup for BTreeMap<u8, SequenceParameterSet> {
    open spec fn spec_sequence_parameter_set(&self, id: u8) -> Option<SequenceParameterSet> {
        if self@.contains_key(id) {
            Some(self@[id])
        } else {
            None
        }
    }

    fn sequence_parameter_set(&self, id: u8) -> (r: Option<&SequenceParameterSet>) {
        broadcast use vstd::std_specs::btree::group_btree_axioms;
        broadcast use vstd::laws_cmp::group_laws_cmp;

        self.get(&id)
    }
}

impl SequenceParameterSetLookup for HashMap<u8, SequenceParameterSet> {
    open spec fn spec_sequence_parameter_set(&self, id: u8) -> Option<SequenceParameterSet> {
        if self@.contains_key(id) {
            Some(self@[id])
        } else {
            None
        }
    }

    fn sequence_parameter_set(&self, id: u8) -> (r: Option<&SequenceParameterSet>) {
        broadcast use vstd::std_specs::hash::group_hash_axioms;

        self.get(&id)
    }
}

// ---------------------------------------------------------------------------
// Syntax structures.
// ---------------------------------------------------------------------------

/// A foreground slice-group rectangle in map-unit coordinates.
#[derive(Clone, Copy, Debug, Eq, PartialEq)]
pub struct SliceGroupRectangle {
    /// First map-unit address in raster-scan order.
    pub top_left: u32,
    /// Last map-unit address in raster-scan order.
    pub bottom_right: u32,
}

/// Dynamic slice-group map ordering.
#[derive(Clone, Copy, Debug, Eq, PartialEq, Structural)]
pub enum SliceGroupChangeType {
    /// Box-out map type 3.
    BoxOut,
    /// Raster-scan map type 4.
    RasterScan,
    /// Wipe map type 5.
    Wipe,
}

/// Flexible macroblock ordering syntax.
#[derive(Clone, Debug, Eq, PartialEq)]
pub enum SliceGroups {
    /// Map type 0, interleaved groups.
    Interleaved {
        /// Run lengths for each group.
        run_lengths: Vec<u32>,
    },
    /// Map type 1, dispersed groups.
    Dispersed {
        /// Number of slice groups.
        group_count: u8,
    },
    /// Map type 2, foreground rectangles plus a leftover group.
    Foreground {
        /// Foreground rectangles in group order.
        rectangles: Vec<SliceGroupRectangle>,
    },
    /// Map types 3 through 5.
    Changing {
        /// Dynamic map construction type.
        change_type: SliceGroupChangeType,
        /// Direction flag from the PPS.
        direction: bool,
        /// Number of map units added or removed per change cycle.
        change_rate: u32,
    },
    /// Map type 6, an explicit group identifier for every map unit.
    Explicit {
        /// Number of declared slice groups.
        group_count: u8,
        /// Slice-group identifier for each map unit.
        slice_group_ids: Vec<u8>,
    },
}

/// The model of the flexible macroblock ordering syntax.
pub enum SliceGroupsView {
    Interleaved { run_lengths: Seq<u32> },
    Dispersed { group_count: u8 },
    Foreground { rectangles: Seq<SliceGroupRectangle> },
    Changing { change_type: SliceGroupChangeType, direction: bool, change_rate: u32 },
    Explicit { group_count: u8, slice_group_ids: Seq<u8> },
}

impl View for SliceGroups {
    type V = SliceGroupsView;

    open spec fn view(&self) -> SliceGroupsView {
        match self {
            SliceGroups::Interleaved { run_lengths } => SliceGroupsView::Interleaved {
                run_lengths: run_lengths@,
            },
            SliceGroups::Dispersed { group_count } => SliceGroupsView::Dispersed {
                group_count: *group_count,
            },
            SliceGroups::Foreground { rectangles } => SliceGroupsView::Foreground {
                rectangles: rectangles@,
            },
            SliceGroups::Changing { change_type, direction, change_rate } => SliceGroupsView::Changing {
                change_type: *change_type,
                direction: *direction,
                change_rate: *change_rate,
            },
            SliceGroups::Explicit { group_count, slice_group_ids } => SliceGroupsView::Explicit {
                group_count: *group_count,
                slice_group_ids: slice_group_ids@,
            },
        }
    }
}

impl SliceGroupsView {
    /// The number of slice groups: one per run length, one more than the
    /// rectangles, two for changing maps, and otherwise the declared count.
    /// Counts that do not fit in `u8` are reported as eight.
    pub open spec fn group_count(self) -> u8 {
        match self {
            SliceGroupsView::Interleaved { run_lengths } => if run_lengths.len() <= u8::MAX {
                run_lengths.len() as u8
            } else {
                8
            },
            SliceGroupsView::Dispersed { group_count } => group_count,
            SliceGroupsView::Foreground { rectangles } => if rectangles.len() + 1 <= u8::MAX {
                (rectangles.len() + 1) as u8
            } else {
                8
            },
            SliceGroupsView::Changing { .. } => 2,
            SliceGroupsView::Explicit { group_count, .. } => group_count,
        }
    }
}

impl SliceGroups {
    /// Returns the number of slice groups.
    pub fn group_count(&self) -> (r: u8)
        ensures
            r == self@.group_count(),
    {
        match self {
            SliceGroups::Interleaved { run_lengths } => if run_lengths.len() <= 255 {
                run_lengths.len() as u8
            } else {
                8
            },
            SliceGroups::Dispersed { group_count } => *group_count,
            SliceGroups::Foreground { rectangles } => if rectangles.len() < 255 {
                (rectangles.len() + 1) as u8
            } else {
                8
            },
            SliceGroups::Changing { .. } => 2,
            SliceGroups::Explicit { group_count, .. } => *group_count,
        }
    }
}

/// Scaling matrices explicitly present in a picture parameter set.
#[derive(Clone, Debug, Eq, PartialEq)]
pub struct PictureScalingMatrices {
    /// The six possible 4x4 scaling lists.
    pub lists_4x4: [Option<ScalingList4x4>; 6],
    /// The six possible 8x8 scaling lists. Non-4:4:4 streams use at most two.
    pub lists_8x8: [Option<ScalingList8x8>; 6],
}

impl View for PictureScalingMatrices {
    type V = ScalingMatricesView;

    open spec fn view(&self) -> ScalingMatricesView {
        lists_view(self.lists_4x4, self.lists_8x8)
    }
}

/// A parsed H.264 picture parameter set.
#[derive(Clone, Debug, Eq, PartialEq)]
pub struct PictureParameterSet {
    /// Picture parameter set identifier.
    pub pic_parameter_set_id: u8,
    /// Referenced sequence parameter set identifier.
    pub seq_parameter_set_id: u8,
    /// Whether slice data uses CABAC rather than CAVLC.
    pub entropy_coding_mode: bool,
    /// Whether bottom-field picture order is present in frame slice headers.
    pub bottom_field_pic_order_in_frame_present: bool,
    /// Optional flexible macroblock ordering syntax.
    pub slice_groups: Option<SliceGroups>,
    /// Default active list-0 reference count.
    pub num_ref_idx_l0_default_active: u8,
    /// Default active list-1 reference count.
    pub num_ref_idx_l1_default_active: u8,
    /// Whether explicit weighted prediction is used for P and SP slices.
    pub weighted_pred: bool,
    /// Weighted biprediction mode for B slices.
    pub weighted_bipred_idc: u8,
    /// Initial luma quantization parameter.
    pub pic_init_qp: i16,
    /// Initial SP/SI quantization parameter.
    pub pic_init_qs: i8,
    /// First chroma quantization parameter offset.
    pub chroma_qp_index_offset: i8,
    /// Whether slice headers carry deblocking filter controls.
    pub deblocking_filter_control_present: bool,
    /// Whether intra prediction is constrained to intra-coded neighbors.
    pub constrained_intra_pred: bool,
    /// Whether slice headers carry redundant picture counts.
    pub redundant_pic_cnt_present: bool,
    /// Whether 8x8 transform syntax is enabled.
    pub transform_8x8_mode: bool,
    /// Optional picture scaling matrices.
    pub scaling_matrices: Option<PictureScalingMatrices>,
    /// Second chroma quantization parameter offset.
    pub second_chroma_qp_index_offset: i8,
}

/// The model of a picture parameter set.
pub struct PictureParameterSetView {
    pub pic_parameter_set_id: u8,
    pub seq_parameter_set_id: u8,
    pub entropy_coding_mode: bool,
    pub bottom_field_pic_order_in_frame_present: bool,
    pub slice_groups: Option<SliceGroupsView>,
    pub num_ref_idx_l0_default_active: u8,
    pub num_ref_idx_l1_default_active: u8,
    pub weighted_pred: bool,
    pub weighted_bipred_idc: u8,
    pub pic_init_qp: i16,
    pub pic_init_qs: i8,
    pub chroma_qp_index_offset: i8,
    pub deblocking_filter_control_present: bool,
    pub constrained_intra_pred: bool,
    pub redundant_pic_cnt_present: bool,
    pub transform_8x8_mode: bool,
    pub scaling_matrices: Option<ScalingMatricesView>,
    pub second_chroma_qp_index_offset: i8,
}

/// The model of optional slice groups.
pub open spec fn optional_slice_groups_view(groups: Option<SliceGroups>) -> Option<SliceGroupsView> {
    match groups {
        Some(g) => Some(g@),
        None => None,
    }
}

impl View for PictureParameterSet {
    type V = PictureParameterSetView;

    open spec fn view(&self) -> PictureParameterSetView {
        PictureParameterSetView {
            pic_parameter_set_id: self.pic_parameter_set_id,
            seq_parameter_set_id: self.seq_parameter_set_id,
            entropy_coding_mode: self.entropy_coding_mode,
            bottom_field_pic_order_in_frame_present: self.bottom_field_pic_order_in_frame_present,
            slice_groups: optional_slice_groups_view(self.slice_groups),
            num_ref_idx_l0_default_active: self.num_ref_idx_l0_default_active,
            num_ref_idx_l1_default_active: self.num_ref_idx_l1_default_active,
            weighted_pred: self.weighted_pred,
            weighted_bipred_idc: self.weighted_bipred_idc,
            pic_init_qp: self.pic_init_qp,
            pic_init_qs: self.pic_init_qs,
            chroma_qp_index_offset: self.chroma_qp_index_offset,
            deblocking_filter_control_present: self.deblocking_filter_control_present,
            constrained_intra_pred: self.constrained_intra_pred,
            redundant_pic_cnt_present: self.redundant_pic_cnt_present,
            transform_8x8_mode: self.transform_8x8_mode,
            scaling_matrices: match self.scaling_matrices {
                Some(m) => Some(m@),
                None => None,
            },
            second_chroma_qp_index_offset: self.second_chroma_qp_index_offset,
        }
    }
}

// ---------------------------------------------------------------------------
// Errors.
// ---------------------------------------------------------------------------

/// An error returned while parsing an H.264 picture parameter set.
#[derive(Clone, Debug, Eq, PartialEq)]
pub enum PictureParameterSetError {
    /// A bitstream primitive could not be read.
    Bitstream(BitReaderError),
    /// The referenced sequence parameter set is not available.
    MissingSequenceParameterSet {
        /// Missing `seq_parameter_set_id`.
        seq_parameter_set_id: u8,
    },
    /// An unsigned syntax value was outside its allowed range.
    ValueOutOfRange {
        /// Syntax field name.
        field: &'static str,
        /// Invalid value.
        value: u64,
        /// Smallest accepted value.
        minimum: u64,
        /// Largest accepted value.
        maximum: u64,
    },
    /// A signed syntax value was outside its allowed range.
    SignedValueOutOfRange {
        /// Syntax field name.
        field: &'static str,
        /// Invalid value.
        value: i64,
        /// Smallest accepted value.
        minimum: i64,
        /// Largest accepted value.
        maximum: i64,
    },
    /// Valid syntax uses a feature the parser intentionally does not support.
    Unsupported {
        /// Unsupported syntax feature.
        feature: &'static str,
    },
    /// Slice-group rectangle coordinates do not describe a valid rectangle.
    InvalidSliceGroupRectangle {
        /// Rectangle index.
        index: u8,
        /// Raw top-left map-unit address.
        top_left: u32,
        /// Raw bottom-right map-unit address.
        bottom_right: u32,
    },
    /// The RBSP stop bit or its alignment bits were malformed.
    InvalidRbspTrailingBits,
}

impl PictureParameterSetError {
    /// The human-readable description of the error.
    pub open spec fn description(&self) -> Seq<char> {
        match *self {
            PictureParameterSetError::Bitstream(error) => "invalid PPS bitstream: "@
                + error.description(),
            PictureParameterSetError::MissingSequenceParameterSet { seq_parameter_set_id } => "PPS references missing sequence parameter set "@
                + decimal(seq_parameter_set_id as nat),
            PictureParameterSetError::ValueOutOfRange { field, value, minimum, maximum } => "PPS field "@
                + field@ + " has value "@ + decimal(value as nat) + ", expected "@ + decimal(
                minimum as nat,
            ) + "..="@ + decimal(maximum as nat),
            PictureParameterSetError::SignedValueOutOfRange {
                field,
                value,
                minimum,
                maximum,
            } => "PPS field "@ + field@ + " has value "@ + signed_decimal(value as int)
                + ", expected "@ + signed_decimal(minimum as int) + "..="@ + signed_decimal(
                maximum as int,
            ),
            PictureParameterSetError::Unsupported { feature } => "PPS uses unsupported "@
                + feature@,
            PictureParameterSetError::InvalidSliceGroupRectangle {
                index,
                top_left,
                bottom_right,
            } => "PPS slice-group rectangle "@ + decimal(index as nat) + " is invalid: "@
                + decimal(top_left as nat) + "..="@ + decimal(bottom_right as nat),
            PictureParameterSetError::InvalidRbspTrailingBits => "PPS has invalid rbsp_trailing_bits"@,
        }
    }

    /// Renders the human-readable description of the error.
    pub fn to_string(&self) -> (text: String)
        ensures
            text@ == self.description(),
    {
        match *self {
            PictureParameterSetError::Bitstream(error) => {
                let mut text = String::from_str("invalid PPS bitstream: ");
                let inner = error.to_string();
                text.append(inner.as_str());
                text
            },
            PictureParameterSetError::MissingSequenceParameterSet { seq_parameter_set_id } => {
                let mut text = String::from_str("PPS references missing sequence parameter set ");
                push_decimal(&mut text, seq_parameter_set_id as u64);
                text
            },
            PictureParameterSetError::ValueOutOfRange { field, value, minimum, maximum } => {
                let mut text = String::from_str("PPS field ");
                text.append(field);
                text.append(" has value ");
                push_decimal(&mut text, value);
                text.append(", expected ");
                push_decimal(&mut text, minimum);
                text.append("..=");
                push_decimal(&mut text, maximum);
                text
            },
            PictureParameterSetError::SignedValueOutOfRange { field, value, minimum, maximum } => {
                let mut text = String::from_str("PPS field ");
                text.append(field);
                text.append(" has value ");
                push_signed_decimal(&mut text, value);
                text.append(", expected ");
                push_signed_decimal(&mut text, minimum);
                text.append("..=");
                push_signed_decimal(&mut text, maximum);
                text
            },
            PictureParameterSetError::Unsupported { feature } => {
                let mut text = String::from_str("PPS uses unsupported ");
                text.append(feature);
                text
            },
            PictureParameterSetError::InvalidSliceGroupRectangle { index, top_left, bottom_right } => {
                let mut text = String::from_str("PPS slice-group rectangle ");
                push_decimal(&mut text, index as u64);
                text.append(" is invalid: ");
                push_decimal(&mut text, top_left as u64);
                text.append("..=");
                push_decimal(&mut text, bottom_right as u64);
                text
            },
            PictureParameterSetError::InvalidRbspTrailingBits => String::from_str(
                "PPS has invalid rbsp_trailing_bits",
            ),
        }
    }
}

impl From<BitReaderError> for PictureParameterSetError {
    fn from(error: BitReaderError) -> (r: Self) {
        PictureParameterSetError::Bitstream(error)
    }
}

impl vstd::std_specs::convert::FromSpecImpl<BitReaderError> for PictureParameterSetError {
    open spec fn obeys_from_spec() -> bool {
        true
    }

    open spec fn from_spec(v: BitReaderError) -> Self {
        PictureParameterSetError::Bitstream(v)
    }
}

/// The range error for an unsigned syntax value.
pub open spec fn spec_out_of_range(field: &'static str, value: u64, minimum: u64, maximum: u64) -> PictureParameterSetError {
    PictureParameterSetError::ValueOutOfRange { field, value, minimum, maximum }
}

fn out_of_range(field: &'static str, value: u64, minimum: u64, maximum: u64) -> (e: PictureParameterSetError)
    ensures
        e == spec_out_of_range(field, value, minimum, maximum),
{
    PictureParameterSetError::ValueOutOfRange { field, value, minimum, maximum }
}

// ---------------------------------------------------------------------------
// Syntax model of the primitive reads.
// ---------------------------------------------------------------------------

/// A bitstream read whose error is reported as a PPS error.
pub open spec fn from_bits<T>(r: Result<(T, int), BitReaderError>) -> Result<
    (T, int),
    PictureParameterSetError,
> {
    match r {
        Ok(x) => Ok(x),
        Err(e) => Err(PictureParameterSetError::Bitstream(e)),
    }
}

/// A flag.
pub open spec fn pps_bit(d: Seq<u8>, p: int) -> Result<(bool, int), PictureParameterSetError> {
    from_bits(spec_read_bit(d, p))
}

/// An unsigned fixed-width field.
pub open spec fn pps_bits(d: Seq<u8>, p: int, width: usize) -> Result<
    (u64, int),
    PictureParameterSetError,
> {
    from_bits(spec_read_bits(d, p, width))
}

/// An unsigned Exp-Golomb value within `minimum..=maximum`.
pub open spec fn pps_bounded(
    d: Seq<u8>,
    p: int,
    field: &'static str,
    minimum: u64,
    maximum: u64,
) -> Result<(u64, int), PictureParameterSetError> {
    match from_bits(spec_read_ue(d, p)) {
        Err(e) => Err(e),
        Ok((value, end)) => if minimum <= value && value <= maximum {
            Ok((value, end))
        } else {
            Err(spec_out_of_range(field, value, minimum, maximum))
        },
    }
}

/// A signed Exp-Golomb value within `minimum..=maximum`.
pub open spec fn pps_bounded_se(
    d: Seq<u8>,
    p: int,
    field: &'static str,
    minimum: i64,
    maximum: i64,
) -> Result<(i64, int), PictureParameterSetError> {
    match from_bits(spec_read_se(d, p)) {
        Err(e) => Err(e),
        Ok((value, end)) => if minimum <= value && value <= maximum {
            Ok((value, end))
        } else {
            Err(
                PictureParameterSetError::SignedValueOutOfRange { field, value, minimum, maximum },
            )
        },
    }
}

fn read_bit(reader: &mut BitReader) -> (r: Result<bool, PictureParameterSetError>)
    requires
        old(reader).wf(),
    ensures
        final(reader).wf(),
        final(reader).data() == old(reader).data(),
        parsed(pps_bit(old(reader).data(), old(reader).pos()), r, final(reader).pos()),
{
    match reader.read_bit() {
        Ok(b) => Ok(b),
        Err(e) => Err(PictureParameterSetError::Bitstream(e)),
    }
}

fn read_u8(reader: &mut BitReader, width: usize) -> (r: Result<u8, PictureParameterSetError>)
    requires
        old(reader).wf(),
        width <= 8,
    ensures
        final(reader).wf(),
        final(reader).data() == old(reader).data(),
        match r {
            Ok(v) => pps_bits(old(reader).data(), old(reader).pos(), width) == Ok::<
                (u64, int),
                PictureParameterSetError,
            >((v as u64, final(reader).pos())),
            Err(e) => pps_bits(old(reader).data(), old(reader).pos(), width) == Err::<
                (u64, int),
                PictureParameterSetError,
            >(e),
        },
{
    match reader.read_bits(width) {
        Ok(v) => {
            proof {
                lemma_bits_value_within(old(reader).data(), old(reader).pos(), width as nat, 8);
            }
            Ok(v as u8)
        },
        Err(e) => Err(PictureParameterSetError::Bitstream(e)),
    }
}

fn read_bounded(
    reader: &mut BitReader,
    field: &'static str,
    minimum: u64,
    maximum: u64,
) -> (r: Result<u64, PictureParameterSetError>)
    requires
        old(reader).wf(),
    ensures
        final(reader).wf(),
        final(reader).data() == old(reader).data(),
        parsed(pps_bounded(old(reader).data(), old(reader).pos(), field, minimum, maximum), r, final(reader).pos()),
        r matches Ok(v) ==> minimum <= v <= maximum,
{
    let value = match reader.read_ue() {
        Ok(v) => v,
        Err(e) => return Err(PictureParameterSetError::Bitstream(e)),
    };
    if !(minimum <= value && value <= maximum) {
        return Err(out_of_range(field, value, minimum, maximum));
    }
    Ok(value)
}

fn read_bounded_u8(
    reader: &mut BitReader,
    field: &'static str,
    minimum: u64,
    maximum: u64,
) -> (r: Result<u8, PictureParameterSetError>)
    requires
        old(reader).wf(),
        maximum <= u8::MAX,
    ensures
        final(reader).wf(),
        final(reader).data() == old(reader).data(),
        match r {
            Ok(v) => pps_bounded(old(reader).data(), old(reader).pos(), field, minimum, maximum)
                == Ok::<(u64, int), PictureParameterSetError>((v as u64, final(reader).pos())),
            Err(e) => pps_bounded(old(reader).data(), old(reader).pos(), field, minimum, maximum)
                == Err::<(u64, int), PictureParameterSetError>(e),
        },
        r matches Ok(v) ==> minimum <= v <= maximum,
{
    match read_bounded(reader, field, minimum, maximum) {
        Ok(v) => Ok(v as u8),
        Err(e) => Err(e),
    }
}

fn read_bounded_u32(
    reader: &mut BitReader,
    field: &'static str,
    minimum: u64,
    maximum: u64,
) -> (r: Result<u32, PictureParameterSetError>)
    requires
        old(reader).wf(),
        maximum <= u32::MAX,
    ensures
        final(reader).wf(),
        final(reader).data() == old(reader).data(),
        match r {
            Ok(v) => pps_bounded(old(reader).data(), old(reader).pos(), field, minimum, maximum)
                == Ok::<(u64, int), PictureParameterSetError>((v as u64, final(reader).pos())),
            Err(e) => pps_bounded(old(reader).data(), old(reader).pos(), field, minimum, maximum)
                == Err::<(u64, int), PictureParameterSetError>(e),
        },
        r matches Ok(v) ==> minimum <= v <= maximum,
{
    match read_bounded(reader, field, minimum, maximum) {
        Ok(v) => Ok(v as u32),
        Err(e) => Err(e),
    }
}

fn read_bounded_se(
    reader: &mut BitReader,
    field: &'static str,
    minimum: i64,
    maximum: i64,
) -> (r: Result<i64, PictureParameterSetError>)
    requires
        old(reader).wf(),
    ensures
        final(reader).wf(),
        final(reader).data() == old(reader).data(),
        parsed(pps_bounded_se(old(reader).data(), old(reader).pos(), field, minimum, maximum), r, final(reader).pos()),
        r matches Ok(v) ==> minimum <= v <= maximum,
{
    let value = match reader.read_se() {
        Ok(v) => v,
        Err(e) => return Err(PictureParameterSetError::Bitstream(e)),
    };
    if !(minimum <= value && value <= maximum) {
        return Err(
            PictureParameterSetError::SignedValueOutOfRange { field, value, minimum, maximum },
        );
    }
    Ok(value)
}

// ---------------------------------------------------------------------------
// Slice groups.
// ---------------------------------------------------------------------------

/// The number of map units in a picture of the referenced SPS; a size that
/// does not fit in `u32`, or is zero, is outside the parser's limits.
pub open spec fn spec_picture_size_in_map_units(sps: SequenceParameterSet) -> Result<
    u32,
    PictureParameterSetError,
> {
    let size = sps.pic_width_in_mbs * sps.pic_height_in_map_units;
    if size > u32::MAX || size == 0 {
        Err(
            PictureParameterSetError::Unsupported {
                feature: "SPS picture size outside PPS parser limits",
            },
        )
    } else {
        Ok(size as u32)
    }
}

fn picture_size_in_map_units(sps: &SequenceParameterSet) -> (r: Result<u32, PictureParameterSetError>)
    ensures
        r == spec_picture_size_in_map_units(*sps),
{
    match sps.pic_width_in_mbs.checked_mul(sps.pic_height_in_map_units) {
        Some(size) if size != 0 => Ok(size),
        _ => Err(
            PictureParameterSetError::Unsupported {
                feature: "SPS picture size outside PPS parser limits",
            },
        ),
    }
}

/// The number of bits needed to write `n` in binary.
pub open spec fn bits_needed(n: nat) -> nat
    decreases n,
{
    if n == 0 {
        0
    } else {
        1 + bits_needed(n / 2)
    }
}

/// One interleaved run length, read as `run_length_minus1`.
pub open spec fn run_length_item(pic_size: u32) -> spec_fn(Seq<u8>, int) -> Result<
    (u32, int),
    PictureParameterSetError,
> {
    |d: Seq<u8>, q: int|
        match pps_bounded(d, q, "run_length_minus1", 0, (pic_size - 1) as u64) {
            Err(e) => Err(e),
            Ok((minus1, end)) => Ok(((minus1 + 1) as u32, end)),
        }
}

/// The foreground rectangle at `index`: both corners lie in the picture, and
/// the bottom-right corner lies at or after the top-left one, in a column at
/// or right of it.
pub open spec fn rectangle_syntax(d: Seq<u8>, p: int, index: int, pic_size: u32, width: u32) -> Result<
    (SliceGroupRectangle, int),
    PictureParameterSetError,
> {
    match pps_bounded(d, p, "top_left", 0, (pic_size - 1) as u64) {
        Err(e) => Err(e),
        Ok((top_left, p1)) => match pps_bounded(d, p1, "bottom_right", 0, (pic_size - 1) as u64) {
            Err(e) => Err(e),
            Ok((bottom_right, p2)) => if top_left <= bottom_right && top_left % (width as u64)
                <= bottom_right % (width as u64) {
                Ok(
                    (
                        SliceGroupRectangle {
                            top_left: top_left as u32,
                            bottom_right: bottom_right as u32,
                        },
                        p2,
                    ),
                )
            } else {
                Err(
                    PictureParameterSetError::InvalidSliceGroupRectangle {
                        index: index as u8,
                        top_left: top_left as u32,
                        bottom_right: bottom_right as u32,
                    },
                )
            },
        },
    }
}

/// The first `n` foreground rectangles.
pub open spec fn rectangles_syntax(d: Seq<u8>, p: int, pic_size: u32, width: u32, n: nat) -> Result<
    (Seq<SliceGroupRectangle>, int),
    PictureParameterSetError,
>
    decreases n,
{
    if n == 0 {
        Ok((Seq::empty(), p))
    } else {
        match rectangles_syntax(d, p, pic_size, width, (n - 1) as nat) {
            Err(e) => Err(e),
            Ok((rectangles, q)) => match rectangle_syntax(d, q, n - 1, pic_size, width) {
                Err(e) => Err(e),
                Ok((rectangle, end)) => Ok((rectangles.push(rectangle), end)),
            },
        }
    }
}

proof fn lemma_rectangles_error_persists(d: Seq<u8>, p: int, pic_size: u32, width: u32, k: nat, m: nat)
    requires
        k <= m,
        rectangles_syntax(d, p, pic_size, width, k) is Err,
    ensures
        rectangles_syntax(d, p, pic_size, width, m) == rectangles_syntax(d, p, pic_size, width, k),
    decreases m - k,
{
    if k < m {
        lemma_rectangles_error_persists(d, p, pic_size, width, k, (m - 1) as nat);
    }
}

/// One explicit slice-group identifier of `width` bits, below the group count.
pub open spec fn slice_group_id_item(width: usize, group_count: u8) -> spec_fn(Seq<u8>, int) -> Result<
    (u8, int),
    PictureParameterSetError,
> {
    |d: Seq<u8>, q: int|
        match pps_bits(d, q, width) {
            Err(e) => Err(e),
            Ok((id, end)) => if id >= group_count {
                Err(spec_out_of_range("slice_group_id", id, 0, (group_count - 1) as u64))
            } else {
                Ok((id as u8, end))
            },
        }
}

/// The slice-group map for `map_type`, given `num_slice_groups_minus1`, the
/// picture size in map units and the picture width in macroblocks.
pub open spec fn slice_group_map_syntax(
    d: Seq<u8>,
    p: int,
    map_type: u64,
    groups_minus1: u64,
    pic_size: u32,
    width: u32,
) -> Result<(SliceGroupsView, int), PictureParameterSetError> {
    let group_count = groups_minus1 + 1;
    if map_type == 0 {
        match spec_repeat(run_length_item(pic_size), d, p, group_count as nat) {
            Err(e) => Err(e),
            Ok((run_lengths, end)) => Ok((SliceGroupsView::Interleaved { run_lengths }, end)),
        }
    } else if map_type == 1 {
        Ok((SliceGroupsView::Dispersed { group_count: group_count as u8 }, p))
    } else if map_type == 2 {
        match rectangles_syntax(d, p, pic_size, width, groups_minus1 as nat) {
            Err(e) => Err(e),
            Ok((rectangles, end)) => Ok((SliceGroupsView::Foreground { rectangles }, end)),
        }
    } else if map_type <= 5 {
        if group_count != 2 {
            Err(spec_out_of_range("num_slice_groups_minus1", groups_minus1, 1, 1))
        } else {
            match pps_bit(d, p) {
                Err(e) => Err(e),
                Ok((direction, p1)) => match pps_bounded(
                    d,
                    p1,
                    "slice_group_change_rate_minus1",
                    0,
                    (pic_size - 1) as u64,
                ) {
                    Err(e) => Err(e),
                    Ok((rate_minus1, p2)) => Ok(
                        (
                            SliceGroupsView::Changing {
                                change_type: if map_type == 3 {
                                    SliceGroupChangeType::BoxOut
                                } else if map_type == 4 {
                                    SliceGroupChangeType::RasterScan
                                } else {
                                    SliceGroupChangeType::Wipe
                                },
                                direction,
                                change_rate: (rate_minus1 + 1) as u32,
                            },
                            p2,
                        ),
                    ),
                },
            }
        }
    } else if map_type == 6 {
        if pic_size > MAX_EXPLICIT_SLICE_GROUP_MAP_UNITS {
            Err(
                PictureParameterSetError::Unsupported {
                    feature: "explicit slice-group map exceeding 1048576 map units",
                },
            )
        } else {
            match pps_bounded(d, p, "pic_size_in_map_units_minus1", 0, (pic_size - 1) as u64) {
                Err(e) => Err(e),
                Ok((size_minus1, p1)) => if size_minus1 != pic_size - 1 {
                    Err(
                        spec_out_of_range(
                            "pic_size_in_map_units_minus1",
                            size_minus1,
                            (pic_size - 1) as u64,
                            (pic_size - 1) as u64,
                        ),
                    )
                } else {
                    match spec_repeat(
                        slice_group_id_item(
                            bits_needed(groups_minus1 as nat) as usize,
                            group_count as u8,
                        ),
                        d,
                        p1,
                        pic_size as nat,
                    ) {
                        Err(e) => Err(e),
                        Ok((slice_group_ids, end)) => Ok(
                            (
                                SliceGroupsView::Explicit {
                                    group_count: group_count as u8,
                                    slice_group_ids,
                                },
                                end,
                            ),
                        ),
                    }
                },
            }
        }
    } else {
        Err(spec_out_of_range("slice_group_map_type", map_type, 0, 6))
    }
}

/// The optional flexible-macroblock-ordering syntax: absent with one slice
/// group, and otherwise a map over the picture of the referenced SPS.
pub open spec fn pps_slice_groups(d: Seq<u8>, p: int, sps: SequenceParameterSet) -> Result<
    (Option<SliceGroupsView>, int),
    PictureParameterSetError,
> {
    match pps_bounded(d, p, "num_slice_groups_minus1", 0, 7) {
        Err(e) => Err(e),
        Ok((groups_minus1, p1)) => if groups_minus1 == 0 {
            Ok((None, p1))
        } else {
            match spec_picture_size_in_map_units(sps) {
                Err(e) => Err(e),
                Ok(pic_size) => match pps_bounded(d, p1, "slice_group_map_type", 0, 6) {
                    Err(e) => Err(e),
                    Ok((map_type, p2)) => match slice_group_map_syntax(
                        d,
                        p2,
                        map_type,
                        groups_minus1,
                        pic_size,
                        sps.pic_width_in_mbs,
                    ) {
                        Err(e) => Err(e),
                        Ok((groups, p3)) => Ok((Some(groups), p3)),
                    },
                },
            }
        },
    }
}

fn parse_run_lengths(reader: &mut BitReader, count: u8, pic_size: u32) -> (r: Result<
    Vec<u32>,
    PictureParameterSetError,
>)
    requires
        old(reader).wf(),
        pic_size >= 1,
    ensures
        final(reader).wf(),
        final(reader).data() == old(reader).data(),
        match r {
            Ok(v) => spec_repeat(run_length_item(pic_size), old(reader).data(), old(reader).pos(), count as nat)
                == Ok::<(Seq<u32>, int), PictureParameterSetError>((v@, final(reader).pos())),
            Err(e) => spec_repeat(run_length_item(pic_size), old(reader).data(), old(reader).pos(), count as nat)
                == Err::<(Seq<u32>, int), PictureParameterSetError>(e),
        },
{
    let ghost d = reader.data();
    let ghost p = reader.pos();
    let mut run_lengths: Vec<u32> = Vec::new();
    let mut index: u8 = 0;
    while index < count
        invariant
            reader.wf(),
            reader.data() == d,
            d == old(reader).data(),
            p == old(reader).pos(),
            pic_size >= 1,
            index <= count,
            spec_repeat(run_length_item(pic_size), d, p, index as nat) == Ok::<
                (Seq<u32>, int),
                PictureParameterSetError,
            >((run_lengths@, reader.pos())),
        decreases count - index,
    {
        match read_bounded_u32(reader, "run_length_minus1", 0, (pic_size - 1) as u64) {
            Ok(run_length_minus1) => {
                run_lengths.push(run_length_minus1 + 1);
            },
            Err(e) => {
                proof {
                    lemma_repeat_error_persists(
                        run_length_item(pic_size),
                        d,
                        p,
                        (index + 1) as nat,
                        count as nat,
                    );
                }
                return Err(e);
            },
        }
        index = index + 1;
    }
    Ok(run_lengths)
}

fn parse_rectangles(reader: &mut BitReader, count: u8, pic_size: u32, width: u32) -> (r: Result<
    Vec<SliceGroupRectangle>,
    PictureParameterSetError,
>)
    requires
        old(reader).wf(),
        pic_size >= 1,
        width >= 1,
        count <= 7,
    ensures
        final(reader).wf(),
        final(reader).data() == old(reader).data(),
        match r {
            Ok(v) => rectangles_syntax(old(reader).data(), old(reader).pos(), pic_size, width, count as nat)
                == Ok::<(Seq<SliceGroupRectangle>, int), PictureParameterSetError>(
                (v@, final(reader).pos()),
            ),
            Err(e) => rectangles_syntax(old(reader).data(), old(reader).pos(), pic_size, width, count as nat)
                == Err::<(Seq<SliceGroupRectangle>, int), PictureParameterSetError>(e),
        },
{
    let ghost d = reader.data();
    let ghost p = reader.pos();
    let mut rectangles: Vec<SliceGroupRectangle> = Vec::new();
    let mut index: u8 = 0;
    while index < count
        invariant
            reader.wf(),
            reader.data() == d,
            d == old(reader).data(),
            p == old(reader).pos(),
            pic_size >= 1,
            width >= 1,
            index <= count <= 7,
            rectangles_syntax(d, p, pic_size, width, index as nat) == Ok::<
                (Seq<SliceGroupRectangle>, int),
                PictureParameterSetError,
            >((rectangles@, reader.pos())),
        decreases count - index,
    {
        let top_left = match read_bounded_u32(reader, "top_left", 0, (pic_size - 1) as u64) {
            Ok(v) => v,
            Err(e) => {
                proof {
                    lemma_rectangles_error_persists(d, p, pic_size, width, (index + 1) as nat, count as nat);
                }
                return Err(e);
            },
        };
        let bottom_right = match read_bounded_u32(reader, "bottom_right", 0, (pic_size - 1) as u64) {
            Ok(v) => v,
            Err(e) => {
                proof {
                    lemma_rectangles_error_persists(d, p, pic_size, width, (index + 1) as nat, count as nat);
                }
                return Err(e);
            },
        };
        let valid = top_left <= bottom_right && top_left % width <= bottom_right % width;
        if !valid {
            proof {
                lemma_rectangles_error_persists(d, p, pic_size, width, (index + 1) as nat, count as nat);
            }
            return Err(
                PictureParameterSetError::InvalidSliceGroupRectangle {
                    index,
                    top_left,
                    bottom_right,
                },
            );
        }
        rectangles.push(SliceGroupRectangle { top_left, bottom_right });
        index = index + 1;
    }
    Ok(rectangles)
}

fn parse_slice_group_ids(
    reader: &mut BitReader,
    count: u32,
    id_width: usize,
    group_count: u8,
) -> (r: Result<Vec<u8>, PictureParameterSetError>)
    requires
        old(reader).wf(),
        id_width <= 8,
        group_count >= 1,
    ensures
        final(reader).wf(),
        final(reader).data() == old(reader).data(),
        match r {
            Ok(v) => spec_repeat(
                slice_group_id_item(id_width, group_count),
                old(reader).data(),
                old(reader).pos(),
                count as nat,
            ) == Ok::<(Seq<u8>, int), PictureParameterSetError>((v@, final(reader).pos())),
            Err(e) => spec_repeat(
                slice_group_id_item(id_width, group_count),
                old(reader).data(),
                old(reader).pos(),
                count as nat,
            ) == Err::<(Seq<u8>, int), PictureParameterSetError>(e),
        },
{
    let ghost d = reader.data();
    let ghost p = reader.pos();
    let mut slice_group_ids: Vec<u8> = Vec::new();
    let mut index: u32 = 0;
    while index < count
        invariant
            reader.wf(),
            reader.data() == d,
            d == old(reader).data(),
            p == old(reader).pos(),
            id_width <= 8,
            group_count >= 1,
            index <= count,
            spec_repeat(slice_group_id_item(id_width, group_count), d, p, index as nat) == Ok::<
                (Seq<u8>, int),
                PictureParameterSetError,
            >((slice_group_ids@, reader.pos())),
        decreases count - index,
    {
        let id = match read_u8(reader, id_width) {
            Ok(v) => v,
            Err(e) => {
                proof {
                    lemma_repeat_error_persists(
                        slice_group_id_item(id_width, group_count),
                        d,
                        p,
                        (index + 1) as nat,
                        count as nat,
                    );
                }
                return Err(e);
            },
        };
        if id >= group_count {
            proof {
                lemma_repeat_error_persists(
                    slice_group_id_item(id_width, group_count),
                    d,
                    p,
                    (index + 1) as nat,
                    count as nat,
                );
            }
            return Err(out_of_range("slice_group_id", id as u64, 0, (group_count - 1) as u64));
        }
        slice_group_ids.push(id);
        index = index + 1;
    }
    Ok(slice_group_ids)
}

fn slice_group_id_width(groups_minus1: u8) -> (width: usize)
    requires
        1 <= groups_minus1 <= 7,
    ensures
        width == bits_needed(groups_minus1 as nat),
        1 <= width <= 3,
{
    proof {
        reveal_with_fuel(bits_needed, 4);
    }
    if groups_minus1 >= 4 {
        3
    } else if groups_minus1 >= 2 {
        2
    } else {
        1
    }
}

fn parse_slice_group_map(
    reader: &mut BitReader,
    map_type: u8,
    groups_minus1: u8,
    pic_size: u32,
    width: u32,
) -> (r: Result<SliceGroups, PictureParameterSetError>)
    requires
        old(reader).wf(),
        1 <= groups_minus1 <= 7,
        pic_size >= 1,
        width >= 1,
    ensures
        final(reader).wf(),
        final(reader).data() == old(reader).data(),
        match r {
            Ok(groups) => slice_group_map_syntax(
                old(reader).data(),
                old(reader).pos(),
                map_type as u64,
                groups_minus1 as u64,
                pic_size,
                width,
            ) == Ok::<(SliceGroupsView, int), PictureParameterSetError>(
                (groups@, final(reader).pos()),
            ),
            Err(e) => slice_group_map_syntax(
                old(reader).data(),
                old(reader).pos(),
                map_type as u64,
                groups_minus1 as u64,
                pic_size,
                width,
            ) == Err::<(SliceGroupsView, int), PictureParameterSetError>(e),
        },
{
    let group_count = groups_minus1 + 1;
    if map_type == 0 {
        let run_lengths = parse_run_lengths(reader, group_count, pic_size)?;
        Ok(SliceGroups::Interleaved { run_lengths })
    } else if map_type == 1 {
        Ok(SliceGroups::Dispersed { group_count })
    } else if map_type == 2 {
        let rectangles = parse_rectangles(reader, groups_minus1, pic_size, width)?;
        Ok(SliceGroups::Foreground { rectangles })
    } else if map_type <= 5 {
        if group_count != 2 {
            return Err(out_of_range("num_slice_groups_minus1", groups_minus1 as u64, 1, 1));
        }
        let direction = read_bit(reader)?;
        let change_rate_minus1 = read_bounded_u32(
            reader,
            "slice_group_change_rate_minus1",
            0,
            (pic_size - 1) as u64,
        )?;
        let change_type = if map_type == 3 {
            SliceGroupChangeType::BoxOut
        } else if map_type == 4 {
            SliceGroupChangeType::RasterScan
        } else {
            SliceGroupChangeType::Wipe
        };
        Ok(SliceGroups::Changing { change_type, direction, change_rate: change_rate_minus1 + 1 })
    } else if map_type == 6 {
        if pic_size > MAX_EXPLICIT_SLICE_GROUP_MAP_UNITS {
            return Err(
                PictureParameterSetError::Unsupported {
                    feature: "explicit slice-group map exceeding 1048576 map units",
                },
            );
        }
        let pic_size_in_map_units_minus1 = read_bounded_u32(
            reader,
            "pic_size_in_map_units_minus1",
            0,
            (pic_size - 1) as u64,
        )?;
        if pic_size_in_map_units_minus1 != pic_size - 1 {
            return Err(
                out_of_range(
                    "pic_size_in_map_units_minus1",
                    pic_size_in_map_units_minus1 as u64,
                    (pic_size - 1) as u64,
                    (pic_size - 1) as u64,
                ),
            );
        }
        let id_width = slice_group_id_width(groups_minus1);
        let slice_group_ids = parse_slice_group_ids(reader, pic_size, id_width, group_count)?;
        Ok(SliceGroups::Explicit { group_count, slice_group_ids })
    } else {
        Err(out_of_range("slice_group_map_type", map_type as u64, 0, 6))
    }
}

fn parse_slice_groups(reader: &mut BitReader, sps: &SequenceParameterSet) -> (r: Result<
    Option<SliceGroups>,
    PictureParameterSetError,
>)
    requires
        old(reader).wf(),
    ensures
        final(reader).wf(),
        final(reader).data() == old(reader).data(),
        match r {
            Ok(groups) => pps_slice_groups(old(reader).data(), old(reader).pos(), *sps) == Ok::<
                (Option<SliceGroupsView>, int),
                PictureParameterSetError,
            >((optional_slice_groups_view(groups), final(reader).pos())),
            Err(e) => pps_slice_groups(old(reader).data(), old(reader).pos(), *sps) == Err::<
                (Option<SliceGroupsView>, int),
                PictureParameterSetError,
            >(e),
        },
{
    let num_slice_groups_minus1 = read_bounded_u8(reader, "num_slice_groups_minus1", 0, 7)?;
    if num_slice_groups_minus1 == 0 {
        return Ok(None);
    }
    let pic_size = picture_size_in_map_units(sps)?;
    proof {
        assert(sps.pic_width_in_mbs >= 1) by (nonlinear_arith)
            requires
                sps.pic_width_in_mbs * sps.pic_height_in_map_units != 0,
        ;
    }
    let map_type = read_bounded_u8(reader, "slice_group_map_type", 0, 6)?;
    let groups = parse_slice_group_map(
        reader,
        map_type,
        num_slice_groups_minus1,
        pic_size,
        sps.pic_width_in_mbs,
    )?;
    Ok(Some(groups))
}

// ---------------------------------------------------------------------------
// The picture parameter set.
// ---------------------------------------------------------------------------

/// The reference-count and weighted-prediction fields.
pub open spec fn pps_references(d: Seq<u8>, p: int) -> Result<
    ((u8, u8, bool, u8), int),
    PictureParameterSetError,
> {
    match pps_bounded(d, p, "num_ref_idx_l0_default_active_minus1", 0, 31) {
        Err(e) => Err(e),
        Ok((l0_minus1, p1)) => match pps_bounded(
            d,
            p1,
            "num_ref_idx_l1_default_active_minus1",
            0,
            31,
        ) {
            Err(e) => Err(e),
            Ok((l1_minus1, p2)) => match pps_bit(d, p2) {
                Err(e) => Err(e),
                Ok((weighted_pred, p3)) => match pps_bits(d, p3, 2) {
                    Err(e) => Err(e),
                    Ok((bipred, p4)) => if bipred > 2 {
                        Err(spec_out_of_range("weighted_bipred_idc", bipred, 0, 2))
                    } else {
                        Ok(
                            (
                                (
                                    (l0_minus1 + 1) as u8,
                                    (l1_minus1 + 1) as u8,
                                    weighted_pred,
                                    bipred as u8,
                                ),
                                p4,
                            ),
                        )
                    },
                },
            },
        },
    }
}

fn parse_references(reader: &mut BitReader) -> (r: Result<(u8, u8, bool, u8), PictureParameterSetError>)
    requires
        old(reader).wf(),
    ensures
        final(reader).wf(),
        final(reader).data() == old(reader).data(),
        parsed(pps_references(old(reader).data(), old(reader).pos()), r, final(reader).pos()),
{
    let num_ref_idx_l0_default_active = read_bounded_u8(
        reader,
        "num_ref_idx_l0_default_active_minus1",
        0,
        31,
    )? + 1;
    let num_ref_idx_l1_default_active = read_bounded_u8(
        reader,
        "num_ref_idx_l1_default_active_minus1",
        0,
        31,
    )? + 1;
    let weighted_pred = read_bit(reader)?;
    let weighted_bipred_idc = read_u8(reader, 2)?;
    if weighted_bipred_idc > 2 {
        return Err(out_of_range("weighted_bipred_idc", weighted_bipred_idc as u64, 0, 2));
    }
    Ok(
        (
            num_ref_idx_l0_default_active,
            num_ref_idx_l1_default_active,
            weighted_pred,
            weighted_bipred_idc,
        ),
    )
}

/// The luma QP range offset for a luma bit depth: six per bit above eight.
pub open spec fn qp_bd_offset_y(bit_depth_luma: u8) -> int {
    (if bit_depth_luma >= 8 {
        bit_depth_luma - 8
    } else {
        0
    }) * 6
}

/// The initial quantization fields: `pic_init_qp_minus26` down to
/// `-26 - QpBdOffsetY`, `pic_init_qs_minus26` and the chroma QP offset.
pub open spec fn pps_quantization(d: Seq<u8>, p: int, bit_depth_luma: u8) -> Result<
    ((i64, i64, i64), int),
    PictureParameterSetError,
> {
    match pps_bounded_se(
        d,
        p,
        "pic_init_qp_minus26",
        (-26 - qp_bd_offset_y(bit_depth_luma)) as i64,
        25i64,
    ) {
        Err(e) => Err(e),
        Ok((qp_minus26, p1)) => match pps_bounded_se(d, p1, "pic_init_qs_minus26", -26i64, 25i64) {
            Err(e) => Err(e),
            Ok((qs_minus26, p2)) => match pps_bounded_se(d, p2, "chroma_qp_index_offset", -12i64, 12i64) {
                Err(e) => Err(e),
                Ok((chroma_offset, p3)) => Ok(((qp_minus26, qs_minus26, chroma_offset), p3)),
            },
        },
    }
}

fn parse_quantization(reader: &mut BitReader, bit_depth_luma: u8) -> (r: Result<
    (i64, i64, i64),
    PictureParameterSetError,
>)
    requires
        old(reader).wf(),
    ensures
        final(reader).wf(),
        final(reader).data() == old(reader).data(),
        parsed(pps_quantization(old(reader).data(), old(reader).pos(), bit_depth_luma), r, final(reader).pos()),
        r matches Ok((qp, qs, chroma)) ==> -26 - qp_bd_offset_y(bit_depth_luma) <= qp <= 25 && -26
            <= qs <= 25 && -12 <= chroma <= 12,
{
    let depth_above_8: u8 = if bit_depth_luma >= 8 {
        bit_depth_luma - 8
    } else {
        0
    };
    let qp_bd_offset = depth_above_8 as i64 * 6;
    let pic_init_qp_minus26 = read_bounded_se(reader, "pic_init_qp_minus26", -26 - qp_bd_offset, 25)?;
    let pic_init_qs_minus26 = read_bounded_se(reader, "pic_init_qs_minus26", -26, 25)?;
    let chroma_qp_index_offset = read_bounded_se(reader, "chroma_qp_index_offset", -12, 12)?;
    Ok((pic_init_qp_minus26, pic_init_qs_minus26, chroma_qp_index_offset))
}

/// A scaling-list error reported as a PPS error.
pub open spec fn pps_scaling_error(e: ScalingListError) -> PictureParameterSetError {
    match e {
        ScalingListError::Bitstream(inner) => PictureParameterSetError::Bitstream(inner),
        ScalingListError::DeltaScaleOutOfRange(value) => PictureParameterSetError::SignedValueOutOfRange {
            field: "delta_scale",
            value,
            minimum: -128i64,
            maximum: 127i64,
        },
    }
}

fn scaling_error(e: ScalingListError) -> (r: PictureParameterSetError)
    ensures
        r == pps_scaling_error(e),
{
    match e {
        ScalingListError::Bitstream(inner) => PictureParameterSetError::Bitstream(inner),
        ScalingListError::DeltaScaleOutOfRange(value) => PictureParameterSetError::SignedValueOutOfRange {
            field: "delta_scale",
            value,
            minimum: -128,
            maximum: 127,
        },
    }
}

/// The number of scaling lists a PPS carries: six 4x4 lists, and with the
/// 8x8 transform six more for 4:4:4 and two otherwise.
pub open spec fn picture_list_count(chroma_format: ChromaFormat, transform_8x8_mode: bool) -> nat {
    6 + if transform_8x8_mode {
        if chroma_format == ChromaFormat::Yuv444 {
            6nat
        } else {
            2nat
        }
    } else {
        0nat
    }
}

/// The optional trailing fields: when more RBSP data follows, the 8x8
/// transform flag, optional scaling matrices and the second chroma QP offset;
/// otherwise no 8x8 transform, no matrices and the second offset equal to the
/// first.
pub open spec fn pps_extension(
    d: Seq<u8>,
    p: int,
    chroma_format: ChromaFormat,
    chroma_qp_index_offset: i64,
) -> Result<((bool, Option<ScalingMatricesView>, i64), int), PictureParameterSetError> {
    if !spec_more_rbsp_data(d, p) {
        Ok(((false, None, chroma_qp_index_offset), p))
    } else {
        match pps_bit(d, p) {
            Err(e) => Err(e),
            Ok((transform_8x8_mode, p1)) => match pps_bit(d, p1) {
                Err(e) => Err(e),
                Ok((present, p2)) => match (if present {
                    match scaling_lists_syntax(
                        d,
                        p2,
                        picture_list_count(chroma_format, transform_8x8_mode),
                    ) {
                        Err(e) => Err(pps_scaling_error(e)),
                        Ok((lists, q)) => Ok((Some(lists), q)),
                    }
                } else {
                    Ok((None, p2))
                }) {
                    Err(e) => Err(e),
                    Ok((matrices, p3)) => match pps_bounded_se(
                        d,
                        p3,
                        "second_chroma_qp_index_offset",
                        -12i64,
                        12i64,
                    ) {
                        Err(e) => Err(e),
                        Ok((second, p4)) => Ok(((transform_8x8_mode, matrices, second), p4)),
                    },
                },
            },
        }
    }
}

fn parse_extension(
    reader: &mut BitReader,
    chroma_format: ChromaFormat,
    chroma_qp_index_offset: i64,
) -> (r: Result<(bool, Option<PictureScalingMatrices>, i64), PictureParameterSetError>)
    requires
        old(reader).wf(),
        -12 <= chroma_qp_index_offset <= 12,
    ensures
        final(reader).wf(),
        final(reader).data() == old(reader).data(),
        match r {
            Ok((transform_8x8_mode, matrices, second)) => pps_extension(
                old(reader).data(),
                old(reader).pos(),
                chroma_format,
                chroma_qp_index_offset,
            ) == Ok::<((bool, Option<ScalingMatricesView>, i64), int), PictureParameterSetError>(
                (
                    (
                        transform_8x8_mode,
                        match matrices {
                            Some(m) => Some(m@),
                            None => None,
                        },
                        second,
                    ),
                    final(reader).pos(),
                ),
            ),
            Err(e) => pps_extension(
                old(reader).data(),
                old(reader).pos(),
                chroma_format,
                chroma_qp_index_offset,
            ) == Err::<((bool, Option<ScalingMatricesView>, i64), int), PictureParameterSetError>(e),
        },
        r matches Ok((_, _, second)) ==> -12 <= second <= 12,
{
    if !reader.more_rbsp_data() {
        return Ok((false, None, chroma_qp_index_offset));
    }
    let transform_8x8_mode = read_bit(reader)?;
    let scaling_matrices = if read_bit(reader)? {
        let is_yuv444 = match chroma_format {
            ChromaFormat::Yuv444 => true,
            _ => false,
        };
        let list_count: usize = 6 + if transform_8x8_mode {
            if is_yuv444 {
                6
            } else {
                2
            }
        } else {
            0
        };
        match parse_scaling_lists(reader, list_count) {
            Ok((lists_4x4, lists_8x8)) => Some(PictureScalingMatrices { lists_4x4, lists_8x8 }),
            Err(e) => return Err(scaling_error(e)),
        }
    } else {
        None
    };
    let second_chroma_qp_index_offset = read_bounded_se(
        reader,
        "second_chroma_qp_index_offset",
        -12,
        12,
    )?;
    Ok((transform_8x8_mode, scaling_matrices, second_chroma_qp_index_offset))
}

/// The fields every picture parameter set carries, through
/// `redundant_pic_cnt_present_flag`, resolving the referenced SPS through
/// `lookup`: the PPS with the optional trailing fields at their defaults (no
/// 8x8 transform, no scaling matrices, the second chroma QP offset equal to
/// the first), and the position where the carried fields end.
pub open spec fn pps_core_syntax<L: SequenceParameterSetLookup>(d: Seq<u8>, lookup: &L) -> Result<
    (PictureParameterSetView, int),
    PictureParameterSetError,
> {
    match pps_bounded(d, 0, "pic_parameter_set_id", 0, 255) {
        Err(e) => Err(e),
        Ok((pps_id, p1)) => match pps_bounded(d, p1, "seq_parameter_set_id", 0, 31) {
            Err(e) => Err(e),
            Ok((sps_id, p2)) => match lookup.spec_sequence_parameter_set(sps_id as u8) {
                None => Err(
                    PictureParameterSetError::MissingSequenceParameterSet {
                        seq_parameter_set_id: sps_id as u8,
                    },
                ),
                Some(sps) => match pps_bit(d, p2) {
                    Err(e) => Err(e),
                    Ok((entropy_coding_mode, p3)) => match pps_bit(d, p3) {
                        Err(e) => Err(e),
                        Ok((bottom_field, p4)) => match pps_slice_groups(d, p4, sps) {
                            Err(e) => Err(e),
                            Ok((slice_groups, p5)) => match pps_references(d, p5) {
                                Err(e) => Err(e),
                                Ok(((l0, l1, weighted_pred, bipred), p6)) => match pps_quantization(
                                    d,
                                    p6,
                                    sps.bit_depth_luma,
                                ) {
                                    Err(e) => Err(e),
                                    Ok(((qp_minus26, qs_minus26, chroma_offset), p7)) => match pps_bit(
                                        d,
                                        p7,
                                    ) {
                                        Err(e) => Err(e),
                                        Ok((deblocking, p8)) => match pps_bit(d, p8) {
                                            Err(e) => Err(e),
                                            Ok((constrained_intra, p9)) => match pps_bit(d, p9) {
                                                Err(e) => Err(e),
                                                Ok((redundant, p10)) => Ok(
                                                    (
                                                        PictureParameterSetView {
                                                            pic_parameter_set_id: pps_id as u8,
                                                            seq_parameter_set_id: sps_id as u8,
                                                            entropy_coding_mode,
                                                            bottom_field_pic_order_in_frame_present: bottom_field,
                                                            slice_groups,
                                                            num_ref_idx_l0_default_active: l0,
                                                            num_ref_idx_l1_default_active: l1,
                                                            weighted_pred,
                                                            weighted_bipred_idc: bipred,
                                                            pic_init_qp: (qp_minus26 + 26) as i16,
                                                            pic_init_qs: (qs_minus26 + 26) as i8,
                                                            chroma_qp_index_offset: chroma_offset as i8,
                                                            deblocking_filter_control_present: deblocking,
                                                            constrained_intra_pred: constrained_intra,
                                                            redundant_pic_cnt_present: redundant,
                                                            transform_8x8_mode: false,
                                                            scaling_matrices: None,
                                                            second_chroma_qp_index_offset: chroma_offset as i8,
                                                        },
                                                        p10,
                                                    ),
                                                ),
                                            },
                                        },
                                    },
                                },
                            },
                        },
                    },
                },
            },
        },
    }
}

/// The complete picture parameter set syntax over an RBSP, resolving the
/// referenced SPS through `lookup`, in syntax order: the fields every PPS
/// carries, the optional trailing fields when more RBSP data follows, and the
/// RBSP trailing bits.
pub open spec fn picture_parameter_set_syntax<L: SequenceParameterSetLookup>(
    d: Seq<u8>,
    lookup: &L,
) -> Result<PictureParameterSetView, PictureParameterSetError> {
    match pps_core_syntax(d, lookup) {
        Err(e) => Err(e),
        Ok((core, p10)) => match pps_extension(
            d,
            p10,
            lookup.spec_sequence_parameter_set(core.seq_parameter_set_id)->Some_0.chroma_format,
            core.chroma_qp_index_offset as i64,
        ) {
            Err(e) => Err(e),
            Ok(((transform_8x8_mode, scaling_matrices, second), p11)) => if !spec_rbsp_trailing_bits(
                d,
                p11,
            ) {
                Err(PictureParameterSetError::InvalidRbspTrailingBits)
            } else {
                Ok(
                    PictureParameterSetView {
                        transform_8x8_mode,
                        scaling_matrices,
                        second_chroma_qp_index_offset: second as i8,
                        ..core
                    },
                )
            },
        },
    }
}

fn parse_rbsp_trailing_bits(reader: &mut BitReader) -> (r: Result<(), PictureParameterSetError>)
    requires
        old(reader).wf(),
    ensures
        final(reader).wf(),
        final(reader).data() == old(reader).data(),
        r is Ok <==> spec_rbsp_trailing_bits(old(reader).data(), old(reader).pos()),
        r matches Err(e) ==> e == PictureParameterSetError::InvalidRbspTrailingBits,
{
    if reader.read_rbsp_trailing_bits() {
        Ok(())
    } else {
        Err(PictureParameterSetError::InvalidRbspTrailingBits)
    }
}

/// Parses an H.264 picture parameter set from its RBSP bytes.
///
/// The NAL header and emulation-prevention bytes must already have been
/// removed. The referenced SPS is resolved before SPS-dependent fields are
/// parsed. Every syntax loop is bounded by H.264 limits or the SPS picture
/// dimensions.
#[verifier::rlimit(60)]
pub fn parse_picture_parameter_set(
    rbsp: &[u8],
    sequence_parameter_sets: &impl SequenceParameterSetLookup,
) -> (r: Result<PictureParameterSet, PictureParameterSetError>)
    ensures
        match r {
            Ok(pps) => picture_parameter_set_syntax(rbsp@, sequence_parameter_sets) == Ok::<
                PictureParameterSetView,
                PictureParameterSetError,
            >(pps@),
            Err(e) => picture_parameter_set_syntax(rbsp@, sequence_parameter_sets) == Err::<
                PictureParameterSetView,
                PictureParameterSetError,
            >(e),
        },
{
    let mut reader = BitReader::new(rbsp);
    let pic_parameter_set_id = read_bounded_u8(&mut reader, "pic_parameter_set_id", 0, 255)?;
    let seq_parameter_set_id = read_bounded_u8(&mut reader, "seq_parameter_set_id", 0, 31)?;
    let sps = match sequence_parameter_sets.sequence_parameter_set(seq_parameter_set_id) {
        Some(sps) => sps,
        None => {
            return Err(
                PictureParameterSetError::MissingSequenceParameterSet { seq_parameter_set_id },
            );
        },
    };
    let entropy_coding_mode = read_bit(&mut reader)?;
    let bottom_field_pic_order_in_frame_present = read_bit(&mut reader)?;
    let slice_groups = parse_slice_groups(&mut reader, sps)?;
    let (
        num_ref_idx_l0_default_active,
        num_ref_idx_l1_default_active,
        weighted_pred,
        weighted_bipred_idc,
    ) = parse_references(&mut reader)?;
    let (pic_init_qp_minus26, pic_init_qs_minus26, chroma_qp_index_offset) = parse_quantization(
        &mut reader,
        sps.bit_depth_luma,
    )?;
    let deblocking_filter_control_present = read_bit(&mut reader)?;
    let constrained_intra_pred = read_bit(&mut reader)?;
    let redundant_pic_cnt_present = read_bit(&mut reader)?;
    let (transform_8x8_mode, scaling_matrices, second_chroma_qp_index_offset) = parse_extension(
        &mut reader,
        sps.chroma_format,
        chroma_qp_index_offset,
    )?;
    parse_rbsp_trailing_bits(&mut reader)?;
    Ok(
        PictureParameterSet {
            pic_parameter_set_id,
            seq_parameter_set_id,
            entropy_coding_mode,
            bottom_field_pic_order_in_frame_present,
            slice_groups,
            num_ref_idx_l0_default_active,
            num_ref_idx_l1_default_active,
            weighted_pred,
            weighted_bipred_idc,
            pic_init_qp: (pic_init_qp_minus26 + 26) as i16,
            pic_init_qs: (pic_init_qs_minus26 + 26) as i8,
            chroma_qp_index_offset: chroma_qp_index_offset as i8,
            deblocking_filter_control_present,
            constrained_intra_pred,
            redundant_pic_cnt_present,
            transform_8x8_mode,
            scaling_matrices,
            second_chroma_qp_index_offset: second_chroma_qp_index_offset as i8,
        },
    )
}

proof fn lemma_rectangles_len(d: Seq<u8>, p: int, pic_size: u32, width: u32, n: nat)
    ensures
        rectangles_syntax(d, p, pic_size, width, n) matches Ok((rectangles, _)) ==> rectangles.len()
            == n,
    decreases n,
{
    if n > 0 {
        lemma_rectangles_len(d, p, pic_size, width, (n - 1) as nat);
    }
}

/// The number of slice groups, if any are declared, lies from two through
/// eight.
pub open spec fn group_count_in_range(groups: Option<SliceGroupsView>) -> bool {
    match groups {
        Some(g) => 2 <= g.group_count() <= 8,
        None => true,
    }
}

proof fn lemma_slice_group_count(d: Seq<u8>, sps: SequenceParameterSet)
    ensures
        forall|p: int|
            #[trigger] pps_slice_groups(d, p, sps) is Ok ==> group_count_in_range(
                pps_slice_groups(d, p, sps)->Ok_0.0,
            ),
{
    assert forall|p: int| #[trigger] pps_slice_groups(d, p, sps) is Ok implies group_count_in_range(
        pps_slice_groups(d, p, sps)->Ok_0.0,
    ) by {
        let (groups_minus1, p1) = pps_bounded(d, p, "num_slice_groups_minus1", 0, 7)->Ok_0;
        if groups_minus1 != 0 {
            let pic_size = spec_picture_size_in_map_units(sps)->Ok_0;
            let (map_type, p2) = pps_bounded(d, p1, "slice_group_map_type", 0, 6)->Ok_0;
            lemma_repeat_len(run_length_item(pic_size), d, p2, (groups_minus1 + 1) as nat);
            lemma_rectangles_len(d, p2, pic_size, sps.pic_width_in_mbs, groups_minus1 as nat);
        }
    }
}

/// The scaling lists of a PPS hold 8x8 lists only with the 8x8 transform,
/// and beyond the first two only for 4:4:4.
pub open spec fn picture_lists_consistent(
    matrices: Option<ScalingMatricesView>,
    chroma_format: ChromaFormat,
    transform_8x8_mode: bool,
) -> bool {
    match matrices {
        Some(m) => forall|i: int|
            0 <= i < 6 && (!transform_8x8_mode || (chroma_format != ChromaFormat::Yuv444 && i >= 2))
                ==> #[trigger] m.lists_8x8[i] is None,
        None => true,
    }
}

proof fn lemma_extension_constraints(d: Seq<u8>, chroma_format: ChromaFormat)
    ensures
        forall|p: int, chroma_offset: i64|
            -12 <= chroma_offset <= 12 && #[trigger] pps_extension(d, p, chroma_format, chroma_offset)
                is Ok ==> {
                let (transform_8x8_mode, matrices, second) = pps_extension(
                    d,
                    p,
                    chroma_format,
                    chroma_offset,
                )->Ok_0.0;
                &&& picture_lists_consistent(matrices, chroma_format, transform_8x8_mode)
                &&& -12 <= second <= 12
            },
{
    assert forall|p: int, chroma_offset: i64|
        -12 <= chroma_offset <= 12 && #[trigger] pps_extension(d, p, chroma_format, chroma_offset)
            is Ok implies {
        let (transform_8x8_mode, matrices, second) = pps_extension(
            d,
            p,
            chroma_format,
            chroma_offset,
        )->Ok_0.0;
        &&& picture_lists_consistent(matrices, chroma_format, transform_8x8_mode)
        &&& -12 <= second <= 12
    } by {
        if spec_more_rbsp_data(d, p) {
            let (transform_8x8_mode, p1) = pps_bit(d, p)->Ok_0;
            let (present, p2) = pps_bit(d, p1)->Ok_0;
            if present {
                lemma_scaling_lists_slots(
                    d,
                    p2,
                    picture_list_count(chroma_format, transform_8x8_mode),
                );
            }
        }
    }
}

/// Law: every picture parameter set the parser accepts refers to an SPS that
/// the lookup holds, and keeps its fields within the H.264 ranges the parser
/// checks: reference counts from 1 through 32, a weighted-biprediction mode
/// up to 2, QPs within the range of the SPS bit depth, chroma QP offsets
/// within plus or minus twelve, two to eight slice groups when any are
/// declared, and 8x8 scaling lists only where the transform mode and the
/// chroma format allow them.
pub proof fn lemma_accepted_pps_constraints<L: SequenceParameterSetLookup>(d: Seq<u8>, lookup: &L)
    ensures
        picture_parameter_set_syntax(d, lookup) matches Ok(pps) ==> {
            &&& pps.seq_parameter_set_id <= 31
            &&& lookup.spec_sequence_parameter_set(pps.seq_parameter_set_id) is Some
            &&& 1 <= pps.num_ref_idx_l0_default_active <= 32
            &&& 1 <= pps.num_ref_idx_l1_default_active <= 32
            &&& pps.weighted_bipred_idc <= 2
            &&& -qp_bd_offset_y(
                lookup.spec_sequence_parameter_set(pps.seq_parameter_set_id)->Some_0.bit_depth_luma,
            ) <= pps.pic_init_qp <= 51
            &&& 0 <= pps.pic_init_qs <= 51
            &&& -12 <= pps.chroma_qp_index_offset <= 12
            &&& -12 <= pps.second_chroma_qp_index_offset <= 12
            &&& group_count_in_range(pps.slice_groups)
            &&& picture_lists_consistent(
                pps.scaling_matrices,
                lookup.spec_sequence_parameter_set(pps.seq_parameter_set_id)->Some_0.chroma_format,
                pps.transform_8x8_mode,
            )
        },
{
    if let Ok(_) = picture_parameter_set_syntax(d, lookup) {
        let (_, p1) = pps_bounded(d, 0, "pic_parameter_set_id", 0, 255)->Ok_0;
        let (sps_id, _) = pps_bounded(d, p1, "seq_parameter_set_id", 0, 31)->Ok_0;
        let sps = lookup.spec_sequence_parameter_set(sps_id as u8)->Some_0;
        lemma_slice_group_count(d, sps);
        lemma_extension_constraints(d, sps.chroma_format);
    }
}

// ---------------------------------------------------------------------------
// Parsing a prefix of the input.
// ---------------------------------------------------------------------------

proof fn lemma_rectangles_extend(
    d: Seq<u8>,
    e: Seq<u8>,
    p: int,
    pic_size: u32,
    width: u32,
    n: nat,
)
    requires
        d.is_prefix_of(e),
        0 <= p,
    ensures
        extends(
            rectangles_syntax(d, p, pic_size, width, n),
            rectangles_syntax(e, p, pic_size, width, n),
            p,
        ),
    decreases n,
{
    lemma_reads_extend(d, e);
    if n > 0 {
        lemma_rectangles_extend(d, e, p, pic_size, width, (n - 1) as nat);
    }
}

proof fn lemma_slice_group_items_extend(d: Seq<u8>, e: Seq<u8>)
    requires
        d.is_prefix_of(e),
    ensures
        forall|pic_size: u32, p: int, n: nat|
            0 <= p ==> extends(
                #[trigger] spec_repeat(run_length_item(pic_size), d, p, n),
                spec_repeat(run_length_item(pic_size), e, p, n),
                p,
            ),
        forall|width: usize, group_count: u8, p: int, n: nat|
            0 <= p ==> extends(
                #[trigger] spec_repeat(slice_group_id_item(width, group_count), d, p, n),
                spec_repeat(slice_group_id_item(width, group_count), e, p, n),
                p,
            ),
        forall|p: int, pic_size: u32, width: u32, n: nat|
            0 <= p ==> extends(
                #[trigger] rectangles_syntax(d, p, pic_size, width, n),
                rectangles_syntax(e, p, pic_size, width, n),
                p,
            ),
{
    lemma_reads_extend(d, e);
    assert forall|pic_size: u32, p: int, n: nat| 0 <= p implies extends(
        #[trigger] spec_repeat(run_length_item(pic_size), d, p, n),
        spec_repeat(run_length_item(pic_size), e, p, n),
        p,
    ) by {
        assert forall|q: int| 0 <= q implies extends(
            #[trigger] run_length_item(pic_size)(d, q),
            run_length_item(pic_size)(e, q),
            q,
        ) by {}
        lemma_repeat_extends(run_length_item(pic_size), d, e, p, n);
    }
    assert forall|width: usize, group_count: u8, p: int, n: nat| 0 <= p implies extends(
        #[trigger] spec_repeat(slice_group_id_item(width, group_count), d, p, n),
        spec_repeat(slice_group_id_item(width, group_count), e, p, n),
        p,
    ) by {
        assert forall|q: int| 0 <= q implies extends(
            #[trigger] slice_group_id_item(width, group_count)(d, q),
            slice_group_id_item(width, group_count)(e, q),
            q,
        ) by {}
        lemma_repeat_extends(slice_group_id_item(width, group_count), d, e, p, n);
    }
    assert forall|p: int, pic_size: u32, width: u32, n: nat| 0 <= p implies extends(
        #[trigger] rectangles_syntax(d, p, pic_size, width, n),
        rectangles_syntax(e, p, pic_size, width, n),
        p,
    ) by {
        lemma_rectangles_extend(d, e, p, pic_size, width, n);
    }
}

proof fn lemma_slice_groups_extend(d: Seq<u8>, e: Seq<u8>)
    requires
        d.is_prefix_of(e),
    ensures
        forall|p: int, sps: SequenceParameterSet|
            0 <= p ==> extends(
                #[trigger] pps_slice_groups(d, p, sps),
                pps_slice_groups(e, p, sps),
                p,
            ),
{
    lemma_reads_extend(d, e);
    lemma_slice_group_items_extend(d, e);
    assert forall|p: int, map_type: u64, groups_minus1: u64, pic_size: u32, width: u32|
        0 <= p implies extends(
        #[trigger] slice_group_map_syntax(d, p, map_type, groups_minus1, pic_size, width),
        slice_group_map_syntax(e, p, map_type, groups_minus1, pic_size, width),
        p,
    ) by {}
}

proof fn lemma_core_extends<L: SequenceParameterSetLookup>(d: Seq<u8>, e: Seq<u8>, lookup: &L)
    requires
        d.is_prefix_of(e),
    ensures
        extends(pps_core_syntax(d, lookup), pps_core_syntax(e, lookup), 0),
{
    lemma_reads_extend(d, e);
    lemma_slice_groups_extend(d, e);
    assert forall|p: int| 0 <= p implies extends(
        #[trigger] pps_references(d, p),
        pps_references(e, p),
        p,
    ) by {}
    assert forall|p: int, bit_depth_luma: u8| 0 <= p implies extends(
        #[trigger] pps_quantization(d, p, bit_depth_luma),
        pps_quantization(e, p, bit_depth_luma),
        p,
    ) by {}
}

proof fn lemma_extension_extends(
    d: Seq<u8>,
    e: Seq<u8>,
    p: int,
    chroma_format: ChromaFormat,
    chroma_qp_index_offset: i64,
)
    requires
        d.is_prefix_of(e),
        d.len() < e.len(),
        0 <= p,
        spec_more_rbsp_data(d, p),
    ensures
        spec_more_rbsp_data(e, p),
        extends(
            pps_extension(d, p, chroma_format, chroma_qp_index_offset),
            pps_extension(e, p, chroma_format, chroma_qp_index_offset),
            p,
        ),
{
    lemma_reads_extend(d, e);
    if let Ok((transform_8x8_mode, p1)) = pps_bit(d, p) {
        if let Ok((_, p2)) = pps_bit(d, p1) {
            lemma_scaling_lists_extend(
                d,
                e,
                p2,
                picture_list_count(chroma_format, transform_8x8_mode),
            );
        }
    }
}

/// The PPS in `d` carries the optional fields that may follow
/// `redundant_pic_cnt_present_flag`: more RBSP data follows that flag.
pub open spec fn pps_has_optional_fields<L: SequenceParameterSetLookup>(
    d: Seq<u8>,
    lookup: &L,
) -> bool {
    pps_core_syntax(d, lookup) matches Ok((_, end)) && spec_more_rbsp_data(d, end)
}

/// Law: cutting an accepted picture parameter set short by any number of
/// bytes makes it invalid, unless the PPS carries the optional fields after
/// `redundant_pic_cnt_present_flag`. A cut that is accepted even so reads as
/// the same PPS with those fields at their defaults.
pub proof fn lemma_truncated_pps<L: SequenceParameterSetLookup>(rbsp: Seq<u8>, len: int, lookup: &L)
    requires
        0 <= len < rbsp.len(),
        picture_parameter_set_syntax(rbsp, lookup) is Ok,
    ensures
        picture_parameter_set_syntax(rbsp.subrange(0, len), lookup) matches Ok(cut) ==> {
            &&& pps_has_optional_fields(rbsp, lookup)
            &&& cut == pps_core_syntax(rbsp, lookup)->Ok_0.0
        },
{
    let d = rbsp.subrange(0, len);
    assert(d.is_prefix_of(rbsp));
    lemma_core_extends(d, rbsp, lookup);
    if let Ok(cut) = picture_parameter_set_syntax(d, lookup) {
        let (core, p10) = pps_core_syntax(d, lookup)->Ok_0;
        let sps = lookup.spec_sequence_parameter_set(core.seq_parameter_set_id)->Some_0;
        if spec_more_rbsp_data(d, p10) {
            lemma_extension_extends(
                d,
                rbsp,
                p10,
                sps.chroma_format,
                core.chroma_qp_index_offset as i64,
            );
        }
    }
}

/// Law: the fields every accepted PPS carries end with three flags in syntax
/// order, each the bit as read: `deblocking_filter_control_present_flag`
/// right after the `chroma_qp_index_offset` code, then
/// `constrained_intra_pred_flag`, then `redundant_pic_cnt_present_flag`.
#[verifier::rlimit(40)]
pub proof fn lemma_pps_closing_flags<L: SequenceParameterSetLookup>(d: Seq<u8>, lookup: &L)
    ensures
        picture_parameter_set_syntax(d, lookup) matches Ok(v) ==> pps_core_syntax(d, lookup) matches Ok(
            (_, end),
        ) && {
            &&& v.deblocking_filter_control_present == bit_at(d, end - 3)
            &&& v.constrained_intra_pred == bit_at(d, end - 2)
            &&& v.redundant_pic_cnt_present == bit_at(d, end - 1)
            &&& exists|q: int|
                #[trigger] spec_read_se(d, q) == Ok::<(i64, int), BitReaderError>(
                    (v.chroma_qp_index_offset as i64, end - 3),
                )
        },
{
    if let Ok(v) = picture_parameter_set_syntax(d, lookup) {
        let (_, p1) = pps_bounded(d, 0, "pic_parameter_set_id", 0, 255)->Ok_0;
        let (sps_id, p2) = pps_bounded(d, p1, "seq_parameter_set_id", 0, 31)->Ok_0;
        let sps = lookup.spec_sequence_parameter_set(sps_id as u8)->Some_0;
        let (_, p3) = pps_bit(d, p2)->Ok_0;
        let (_, p4) = pps_bit(d, p3)->Ok_0;
        let (_, p5) = pps_slice_groups(d, p4, sps)->Ok_0;
        let (_, p6) = pps_references(d, p5)->Ok_0;
        let (_, qa) = pps_bounded_se(
            d,
            p6,
            "pic_init_qp_minus26",
            (-26 - qp_bd_offset_y(sps.bit_depth_luma)) as i64,
            25i64,
        )->Ok_0;
        let (_, qb) = pps_bounded_se(d, qa, "pic_init_qs_minus26", -26i64, 25i64)->Ok_0;
        assert(spec_read_se(d, qb) == Ok::<(i64, int), BitReaderError>(
            (v.chroma_qp_index_offset as i64, pps_core_syntax(d, lookup)->Ok_0.1 - 3),
        ));
    }
}

/// Law: the fields every accepted PPS carries, in syntax order: the PPS and
/// SPS identifier codes, the entropy-coding and bottom-field flags, the slice
/// groups, the list-0 and list-1 reference counts in `minus1` form, the
/// weighted-prediction flag, the 2-bit weighted-biprediction mode, the
/// initial QP and QS in `minus26` form and the chroma QP offset as signed
/// codes, and the three closing flags.
#[verifier::rlimit(80)]
pub proof fn lemma_pps_core_fields<L: SequenceParameterSetLookup>(d: Seq<u8>, lookup: &L)
    ensures
        picture_parameter_set_syntax(d, lookup) matches Ok(v) ==> match spec_read_ues(d, 0, 2) {
            Ok((ids, q2)) => {
                &&& v.pic_parameter_set_id == ids[0]
                &&& v.seq_parameter_set_id == ids[1]
                &&& v.entropy_coding_mode == bit_at(d, q2)
                &&& v.bottom_field_pic_order_in_frame_present == bit_at(d, q2 + 1)
                &&& match pps_slice_groups(
                    d,
                    q2 + 2,
                    lookup.spec_sequence_parameter_set(v.seq_parameter_set_id)->Some_0,
                ) {
                    Ok((groups, q5)) => v.slice_groups == groups && match spec_read_ues(d, q5, 2) {
                        Ok((refs, q6)) => {
                            &&& v.num_ref_idx_l0_default_active == refs[0] + 1
                            &&& v.num_ref_idx_l1_default_active == refs[1] + 1
                            &&& v.weighted_pred == bit_at(d, q6)
                            &&& v.weighted_bipred_idc == bits_value(d, q6 + 1, 2)
                            &&& match spec_read_ses(d, q6 + 3, 3) {
                                Ok((qps, q7)) => {
                                    &&& v.pic_init_qp == qps[0] + 26
                                    &&& v.pic_init_qs == qps[1] + 26
                                    &&& v.chroma_qp_index_offset == qps[2]
                                    &&& v.deblocking_filter_control_present == bit_at(d, q7)
                                    &&& v.constrained_intra_pred == bit_at(d, q7 + 1)
                                    &&& v.redundant_pic_cnt_present == bit_at(d, q7 + 2)
                                },
                                Err(_) => false,
                            }
                        },
                        Err(_) => false,
                    },
                    Err(_) => false,
                }
            },
            Err(_) => false,
        },
{
    reveal_with_fuel(spec_repeat, 4);
    if let Ok(v) = picture_parameter_set_syntax(d, lookup) {
        let (_, p1) = pps_bounded(d, 0, "pic_parameter_set_id", 0, 255)->Ok_0;
        let (sps_id, p2) = pps_bounded(d, p1, "seq_parameter_set_id", 0, 31)->Ok_0;
        let sps = lookup.spec_sequence_parameter_set(sps_id as u8)->Some_0;
        let (_, p4) = pps_bit(d, p2 + 1)->Ok_0;
        let (_, p5) = pps_slice_groups(d, p4, sps)->Ok_0;
        let (_, r1) = pps_bounded(d, p5, "num_ref_idx_l0_default_active_minus1", 0, 31)->Ok_0;
        let (_, r2) = pps_bounded(d, r1, "num_ref_idx_l1_default_active_minus1", 0, 31)->Ok_0;
        lemma_bits_value_within(d, r2 + 1, 2, 8);
        let (_, p6) = pps_references(d, p5)->Ok_0;
        let (_, qa) = pps_bounded_se(
            d,
            p6,
            "pic_init_qp_minus26",
            (-26 - qp_bd_offset_y(sps.bit_depth_luma)) as i64,
            25i64,
        )->Ok_0;
        let (_, qb) = pps_bounded_se(d, qa, "pic_init_qs_minus26", -26i64, 25i64)->Ok_0;
        let (_, qc) = pps_bounded_se(d, qb, "chroma_qp_index_offset", -12i64, 12i64)->Ok_0;
    }
}

/// Law: when more RBSP data follows the fields every PPS carries, the
/// optional fields are the 8x8-transform flag, the scaling-matrix presence
/// flag and, after the matrices when present, the second chroma QP offset as
/// a signed code; otherwise there is no 8x8 transform, no matrices and the
/// second offset equals the first.
pub proof fn lemma_pps_optional_fields(
    d: Seq<u8>,
    p: int,
    chroma_format: ChromaFormat,
    chroma_qp_index_offset: i64,
)
    requires
        0 <= p,
    ensures
        pps_extension(d, p, chroma_format, chroma_qp_index_offset) matches Ok(
            ((transform_8x8_mode, matrices, second), end),
        ) ==> if spec_more_rbsp_data(d, p) {
            &&& transform_8x8_mode == bit_at(d, p)
            &&& (matrices is Some) == bit_at(d, p + 1)
            &&& match matrices {
                None => spec_read_se(d, p + 2) matches Ok((code, e)) && second == code && e == end,
                Some(m) => match scaling_lists_syntax(
                    d,
                    p + 2,
                    picture_list_count(chroma_format, transform_8x8_mode),
                ) {
                    Ok((lists, q)) => m == lists && (spec_read_se(d, q) matches Ok((code, e))
                        && second == code && e == end),
                    Err(_) => false,
                },
            }
        } else {
            !transform_8x8_mode && matrices is None && second == chroma_qp_index_offset && end == p
        },
{
}

proof fn lemma_run_lengths_are_codes(d: Seq<u8>, q: int, pic_size: u32, n: nat)
    requires
        1 <= pic_size,
    ensures
        spec_repeat(run_length_item(pic_size), d, q, n) matches Ok((runs, e)) ==> match spec_read_ues(
            d,
            q,
            n,
        ) {
            Ok((codes, e2)) => e2 == e && runs.len() == n && codes.len() == n && forall|i: int|
                0 <= i < n ==> #[trigger] runs[i] == codes[i] + 1,
            Err(_) => false,
        },
    decreases n,
{
    if n > 0 {
        lemma_run_lengths_are_codes(d, q, pic_size, (n - 1) as nat);
        if let Ok((runs, e)) = spec_repeat(run_length_item(pic_size), d, q, n) {
            let (before, mid) = spec_repeat(run_length_item(pic_size), d, q, (n - 1) as nat)->Ok_0;
            let (codes, _) = spec_read_ues(d, q, (n - 1) as nat)->Ok_0;
            assert((|d: Seq<u8>, q: int| spec_read_ue(d, q))(d, mid) == spec_read_ue(d, mid));
            let (code, _) = spec_read_ue(d, mid)->Ok_0;
            let (minus1, _) = pps_bounded(d, mid, "run_length_minus1", 0, (pic_size - 1) as u64)->Ok_0;
            assert(minus1 == code);
            let (run, _) = run_length_item(pic_size)(d, mid)->Ok_0;
            assert(run == minus1 + 1);
            assert(runs[n - 1] == run);
            assert forall|i: int| 0 <= i < n implies #[trigger] runs[i] == codes.push(code)[i] + 1 by {
                if i < n - 1 {
                    assert(runs[i] == before[i]);
                }
            }
        }
    }
}

#[verifier::rlimit(80)]
proof fn lemma_rectangles_are_codes(d: Seq<u8>, q: int, pic_size: u32, width: u32, n: nat)
    requires
        1 <= pic_size,
    ensures
        rectangles_syntax(d, q, pic_size, width, n) matches Ok((rectangles, e)) ==> match spec_read_ues(
            d,
            q,
            2 * n,
        ) {
            Ok((codes, e2)) => e2 == e && rectangles.len() == n && codes.len() == 2 * n && forall|i: int|
                0 <= i < n ==> #[trigger] rectangles[i].top_left == codes[2 * i]
                    && rectangles[i].bottom_right == codes[2 * i + 1],
            Err(_) => false,
        },
    decreases n,
{
    reveal_with_fuel(spec_repeat, 3);
    if n > 0 {
        lemma_rectangles_are_codes(d, q, pic_size, width, (n - 1) as nat);
        if let Ok((rectangles, e)) = rectangles_syntax(d, q, pic_size, width, n) {
            let (before, mid) = rectangles_syntax(d, q, pic_size, width, (n - 1) as nat)->Ok_0;
            let (codes, _) = spec_read_ues(d, q, (2 * (n - 1)) as nat)->Ok_0;
            assert((|d: Seq<u8>, q: int| spec_read_ue(d, q))(d, mid) == spec_read_ue(d, mid));
            let (top_left, mid2) = spec_read_ue(d, mid)->Ok_0;
            assert((|d: Seq<u8>, q: int| spec_read_ue(d, q))(d, mid2) == spec_read_ue(d, mid2));
            let (bottom_right, _) = spec_read_ue(d, mid2)->Ok_0;
            assert(spec_read_ues(d, q, (2 * (n - 1) + 1) as nat) == Ok::<(Seq<u64>, int), BitReaderError>(
                (codes.push(top_left), mid2),
            ));
            let all = codes.push(top_left).push(bottom_right);
            let (rectangle, _) = rectangle_syntax(d, mid, n - 1, pic_size, width)->Ok_0;
            assert(rectangles[n - 1] == rectangle);
            assert(rectangle.top_left == top_left && rectangle.bottom_right == bottom_right);
            assert forall|i: int| 0 <= i < n implies #[trigger] rectangles[i].top_left == all[2 * i]
                && rectangles[i].bottom_right == all[2 * i + 1] by {
                if i < n - 1 {
                    assert(rectangles[i] == before[i]);
                }
            }
        }
    }
}

proof fn lemma_slice_group_ids_are_bits(d: Seq<u8>, q: int, width: usize, group_count: u8, n: nat)
    requires
        width <= 8,
    ensures
        spec_repeat(slice_group_id_item(width, group_count), d, q, n) matches Ok((ids, e)) ==> {
            &&& e == q + n * width
            &&& ids.len() == n
            &&& forall|i: int| 0 <= i < n ==> #[trigger] ids[i] == bits_value(d, q + i * width, width as nat)
        },
    decreases n,
{
    if n > 0 {
        lemma_slice_group_ids_are_bits(d, q, width, group_count, (n - 1) as nat);
        if let Ok((ids, e)) = spec_repeat(slice_group_id_item(width, group_count), d, q, n) {
            let (before, mid) = spec_repeat(
                slice_group_id_item(width, group_count),
                d,
                q,
                (n - 1) as nat,
            )->Ok_0;
            assert(mid == q + (n - 1) * width);
            assert(q + (n - 1) * width + width == q + n * width) by (nonlinear_arith);
            lemma_bits_value_within(d, mid, width as nat, 8);
            assert forall|i: int| 0 <= i < n implies #[trigger] ids[i] == bits_value(
                d,
                q + i * width,
                width as nat,
            ) by {
                if i < n - 1 {
                    assert(ids[i] == before[i]);
                }
            }
        }
    }
}

/// Law: the slice-group syntax of a PPS is `num_slice_groups_minus1` and,
/// with more than one group, `slice_group_map_type` and the map: one
/// run length per group in `minus1` form (type 0); nothing (type 1); the
/// top-left and bottom-right corners of each foreground rectangle (type 2);
/// the change direction flag and the change rate in `minus1` form (types 3
/// to 5, box-out, raster scan and wipe); or the map size in `minus1` form
/// followed by one fixed-width group identifier per map unit, each as wide as
/// the largest identifier needs (type 6).
#[verifier::rlimit(40)]
pub proof fn lemma_slice_groups_fields(d: Seq<u8>, p: int, sps: SequenceParameterSet)
    ensures
        pps_slice_groups(d, p, sps) matches Ok((groups, end)) ==> match spec_read_ue(d, p) {
            Ok((groups_minus1, q1)) => if groups_minus1 == 0 {
                groups is None && end == q1
            } else {
                match spec_read_ue(d, q1) {
                    Ok((map_type, q2)) => match groups {
                        None => false,
                        Some(SliceGroupsView::Interleaved { run_lengths }) => map_type == 0 && match spec_read_ues(
                            d,
                            q2,
                            (groups_minus1 + 1) as nat,
                        ) {
                            Ok((codes, e)) => e == end && run_lengths.len() == groups_minus1 + 1
                                && forall|i: int|
                                0 <= i <= groups_minus1 ==> #[trigger] run_lengths[i] == codes[i] + 1,
                            Err(_) => false,
                        },
                        Some(SliceGroupsView::Dispersed { group_count }) => map_type == 1
                            && group_count == groups_minus1 + 1 && end == q2,
                        Some(SliceGroupsView::Foreground { rectangles }) => map_type == 2 && match spec_read_ues(
                            d,
                            q2,
                            (2 * groups_minus1) as nat,
                        ) {
                            Ok((codes, e)) => e == end && rectangles.len() == groups_minus1 && forall|i: int|
                                0 <= i < groups_minus1 ==> #[trigger] rectangles[i].top_left == codes[2 * i]
                                    && rectangles[i].bottom_right == codes[2 * i + 1],
                            Err(_) => false,
                        },
                        Some(SliceGroupsView::Changing { change_type, direction, change_rate }) => {
                            &&& change_type == (if map_type == 3 {
                                SliceGroupChangeType::BoxOut
                            } else if map_type == 4 {
                                SliceGroupChangeType::RasterScan
                            } else {
                                SliceGroupChangeType::Wipe
                            })
                            &&& 3 <= map_type <= 5
                            &&& direction == bit_at(d, q2)
                            &&& spec_read_ue(d, q2 + 1) matches Ok((rate_minus1, e)) && change_rate
                                == rate_minus1 + 1 && e == end
                        },
                        Some(SliceGroupsView::Explicit { group_count, slice_group_ids }) => {
                            let width = bits_needed(groups_minus1 as nat);
                            &&& map_type == 6
                            &&& group_count == groups_minus1 + 1
                            &&& spec_read_ue(d, q2) matches Ok((size_minus1, q3)) && {
                                &&& slice_group_ids.len() == size_minus1 + 1
                                &&& end == q3 + slice_group_ids.len() * width
                                &&& forall|i: int|
                                    0 <= i < slice_group_ids.len() ==> #[trigger] slice_group_ids[i]
                                        == bits_value(d, q3 + i * width, width)
                            }
                        },
                    },
                    Err(_) => false,
                }
            },
            Err(_) => false,
        },
{
    if let Ok((Some(groups), end)) = pps_slice_groups(d, p, sps) {
        let (groups_minus1, q1) = spec_read_ue(d, p)->Ok_0;
        let pic_size = spec_picture_size_in_map_units(sps)->Ok_0;
        let (map_type, q2) = spec_read_ue(d, q1)->Ok_0;
        if map_type == 0 {
            lemma_run_lengths_are_codes(d, q2, pic_size, (groups_minus1 + 1) as nat);
        } else if map_type == 2 {
            lemma_rectangles_are_codes(d, q2, pic_size, sps.pic_width_in_mbs, groups_minus1 as nat);
        } else if map_type == 6 {
            reveal_with_fuel(bits_needed, 4);
            let (size_minus1, q3) = spec_read_ue(d, q2)->Ok_0;
            lemma_slice_group_ids_are_bits(
                d,
                q3,
                bits_needed(groups_minus1 as nat) as usize,
                (groups_minus1 + 1) as u8,
                pic_size as nat,
            );
        }
    }
}

} // verus!
