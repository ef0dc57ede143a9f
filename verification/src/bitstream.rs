//! Bitstream parsing primitives shared by the supported codecs.
//!
//! Bits are read most-significant bit first, matching the bit ordering used by
//! H.264 and H.265 syntax elements.
use vstd::prelude::*;
use vstd::arithmetic::power2::{
    pow2,
    lemma_pow2_pos,
    lemma_pow2_unfold,
    lemma_pow2_strictly_increases,
    lemma2_to64,
    lemma2_to64_rest,
};
use vstd::bits::lemma_u64_shl_is_mul;
use crate::text::{decimal, push_decimal};

verus! {

/// An error returned while reading a bitstream syntax element.
#[derive(Clone, Copy, Debug, PartialEq, Eq, Structural)]
pub enum BitReaderError {
    /// The input ended before the requested number of bits were available.
    UnexpectedEof {
        /// The number of bits required by the operation.
        requested: usize,
        /// The number of bits remaining, saturated at `usize::MAX`.
        remaining: usize,
    },
    /// A fixed-width read requested an unsupported width.
    InvalidWidth {
        /// The requested width in bits.
        width: usize,
        /// The largest supported width in bits.
        maximum: usize,
    },
    /// A variable-length value cannot be represented by its return type.
    Overflow,
}

impl BitReaderError {
    /// The human-readable description of the error.
    pub open spec fn description(&self) -> Seq<char> {
        match *self {
            BitReaderError::UnexpectedEof { requested, remaining } => "unexpected end of input: requested "@
                + decimal(requested as nat) + " bits, "@ + decimal(remaining as nat) + " remain"@,
            BitReaderError::InvalidWidth { width, maximum } => "invalid bit width "@ + decimal(
                width as nat,
            ) + "; maximum is "@ + decimal(maximum as nat),
            BitReaderError::Overflow => "decoded value overflows its return type"@,
        }
    }

    /// Renders the human-readable description of the error.
    pub fn to_string(&self) -> (text: String)
        ensures
            text@ == self.description(),
    {
        match *self {
            BitReaderError::UnexpectedEof { requested, remaining } => {
                let mut text = String::from_str("unexpected end of input: requested ");
                push_decimal(&mut text, requested as u64);
                text.append(" bits, ");
                push_decimal(&mut text, remaining as u64);
                text.append(" remain");
                text
            },
            BitReaderError::InvalidWidth { width, maximum } => {
                let mut text = String::from_str("invalid bit width ");
                push_decimal(&mut text, width as u64);
                text.append("; maximum is ");
                push_decimal(&mut text, maximum as u64);
                text
            },
            BitReaderError::Overflow => String::from_str("decoded value overflows its return type"),
        }
    }
}

// ---------------------------------------------------------------------------
// Mathematical model of a bit sequence.
// ---------------------------------------------------------------------------

/// Number of bits held by `data`.
pub open spec fn total_bits(data: Seq<u8>) -> int {
    (data.len() * 8) as int
}

/// The bit at position `i` of `data`, counting from the most significant bit
/// of the first byte.
pub open spec fn bit_at(data: Seq<u8>, i: int) -> bool {
    (data[i / 8] & (0x80u8 >> ((i % 8) as u8))) != 0u8
}

/// The unsigned value of the `width` bits starting at `start`, most
/// significant bit first.
pub open spec fn bits_value(data: Seq<u8>, start: int, width: nat) -> nat
    decreases width,
{
    if width == 0 {
        0
    } else {
        2 * bits_value(data, start, (width - 1) as nat) + (if bit_at(data, start + width - 1) {
            1nat
        } else {
            0nat
        })
    }
}

/// `x` as a `usize`, saturated at `usize::MAX`.
pub open spec fn saturating_usize(x: int) -> usize {
    if x > usize::MAX {
        usize::MAX
    } else {
        x as usize
    }
}

/// The error reported when `requested` bits are needed at position `pos`.
pub open spec fn eof_error(data: Seq<u8>, pos: int, requested: usize) -> BitReaderError {
    BitReaderError::UnexpectedEof {
        requested,
        remaining: saturating_usize(total_bits(data) - pos),
    }
}

/// The number of consecutive zero bits starting at `pos`.
pub open spec fn zero_run(data: Seq<u8>, pos: int) -> nat
    decreases total_bits(data) - pos,
{
    if pos < 0 || pos >= total_bits(data) || bit_at(data, pos) {
        0
    } else {
        1 + zero_run(data, pos + 1)
    }
}

/// A value of `width` bits read as a two's-complement number.
pub open spec fn twos_complement(value: int, width: nat) -> int {
    if width > 0 && value >= pow2((width - 1) as nat) {
        value - pow2(width)
    } else {
        value
    }
}

/// The signed value that the Exp-Golomb code number `code` stands for:
/// 0, 1, -1, 2, -2, ...
pub open spec fn signed_code_value(code: int) -> int {
    if code % 2 == 0 {
        -(code / 2)
    } else {
        (code + 1) / 2
    }
}

// ---------------------------------------------------------------------------
// What each read yields, as a function of the input and the position: the
// value and the position after the read, or the error.
// ---------------------------------------------------------------------------

/// Reading one bit at `pos`.
pub open spec fn spec_read_bit(data: Seq<u8>, pos: int) -> Result<(bool, int), BitReaderError> {
    if pos >= total_bits(data) {
        Err(eof_error(data, pos, 1))
    } else {
        Ok((bit_at(data, pos), pos + 1))
    }
}

/// Reading an unsigned field of `width` bits at `pos`.
pub open spec fn spec_read_bits(data: Seq<u8>, pos: int, width: usize) -> Result<
    (u64, int),
    BitReaderError,
> {
    if width > 64 {
        Err(BitReaderError::InvalidWidth { width, maximum: 64 })
    } else if width > total_bits(data) - pos {
        Err(eof_error(data, pos, width))
    } else {
        Ok((bits_value(data, pos, width as nat) as u64, pos + width))
    }
}

/// Reading a signed two's-complement field of `width` bits at `pos`.
pub open spec fn spec_read_signed_bits(data: Seq<u8>, pos: int, width: usize) -> Result<
    (i64, int),
    BitReaderError,
> {
    if width == 0 || width > 64 {
        Err(BitReaderError::InvalidWidth { width, maximum: 64 })
    } else {
        match spec_read_bits(data, pos, width) {
            Err(e) => Err(e),
            Ok((value, end)) => Ok((twos_complement(value as int, width as nat) as i64, end)),
        }
    }
}

/// Skipping `count` bits at `pos`.
pub open spec fn spec_skip_bits(data: Seq<u8>, pos: int, count: usize) -> Result<
    ((), int),
    BitReaderError,
> {
    if count > total_bits(data) - pos {
        Err(eof_error(data, pos, count))
    } else {
        Ok(((), pos + count))
    }
}

/// Decoding an unsigned Exp-Golomb code at `pos`: `z` zero bits, a one bit and
/// a `z`-bit suffix stand for `2^z - 1 + suffix`. More than 64 leading zeros,
/// or a value above `u64::MAX`, is an overflow.
pub open spec fn spec_read_ue(data: Seq<u8>, pos: int) -> Result<(u64, int), BitReaderError> {
    let z = zero_run(data, pos);
    if z > 64 {
        Err(BitReaderError::Overflow)
    } else if pos + z >= total_bits(data) {
        Err(eof_error(data, total_bits(data), 1))
    } else {
        let suffix_start = pos + z + 1;
        if z > total_bits(data) - suffix_start {
            Err(eof_error(data, suffix_start, z as usize))
        } else {
            let value = pow2(z) - 1 + bits_value(data, suffix_start, z);
            if value > u64::MAX {
                Err(BitReaderError::Overflow)
            } else {
                Ok((value as u64, suffix_start + z))
            }
        }
    }
}

/// Decoding a signed Exp-Golomb code at `pos`.
pub open spec fn spec_read_se(data: Seq<u8>, pos: int) -> Result<(i64, int), BitReaderError> {
    match spec_read_ue(data, pos) {
        Err(e) => Err(e),
        Ok((code, end)) => {
            let value = signed_code_value(code as int);
            if value > i64::MAX {
                Err(BitReaderError::Overflow)
            } else {
                Ok((value as i64, end))
            }
        },
    }
}

/// The input from `pos` to its end is a valid `rbsp_trailing_bits` syntax
/// structure: one to eight bits, a one bit followed by zero bits.
pub open spec fn spec_rbsp_trailing_bits(data: Seq<u8>, pos: int) -> bool {
    &&& 1 <= total_bits(data) - pos <= 8
    &&& bit_at(data, pos)
    &&& forall|i: int| pos < i < total_bits(data) ==> !bit_at(data, i)
}

/// More syntax follows at `pos`: the input has not ended and what remains is
/// not just the trailing bits.
pub open spec fn spec_more_rbsp_data(data: Seq<u8>, pos: int) -> bool {
    pos < total_bits(data) && !spec_rbsp_trailing_bits(data, pos)
}

/// Relates an executed read to what the model says it yields: on success the
/// value and the new position `end` agree with the model; on failure the error
/// agrees and the position `end` is still `start`.
pub open spec fn read_outcome<T>(
    expected: Result<(T, int), BitReaderError>,
    result: Result<T, BitReaderError>,
    start: int,
    end: int,
) -> bool {
    match result {
        Ok(value) => expected == Ok::<(T, int), BitReaderError>((value, end)),
        Err(e) => expected == Err::<(T, int), BitReaderError>(e) && end == start,
    }
}

/// Relates an executed parse step to the syntax model: on success the model
/// yields the same value and ends at `end`; on failure it yields the same
/// error.
pub open spec fn parsed<T, E>(expected: Result<(T, int), E>, result: Result<T, E>, end: int) -> bool {
    match result {
        Ok(value) => expected == Ok::<(T, int), E>((value, end)),
        Err(e) => expected == Err::<(T, int), E>(e),
    }
}

/// `n` consecutive syntax elements, each parsed by `item` where the previous
/// one ended.
pub open spec fn spec_repeat<T, E>(
    item: spec_fn(Seq<u8>, int) -> Result<(T, int), E>,
    data: Seq<u8>,
    pos: int,
    n: nat,
) -> Result<(Seq<T>, int), E>
    decreases n,
{
    if n == 0 {
        Ok((Seq::empty(), pos))
    } else {
        match spec_repeat(item, data, pos, (n - 1) as nat) {
            Err(e) => Err(e),
            Ok((items, end)) => match item(data, end) {
                Err(e) => Err(e),
                Ok((x, next)) => Ok((items.push(x), next)),
            },
        }
    }
}

/// `n` consecutive unsigned Exp-Golomb codes starting at `pos`.
pub open spec fn spec_read_ues(data: Seq<u8>, pos: int, n: nat) -> Result<(Seq<u64>, int), BitReaderError> {
    spec_repeat(|d: Seq<u8>, q: int| spec_read_ue(d, q), data, pos, n)
}

/// `n` consecutive signed Exp-Golomb codes starting at `pos`.
pub open spec fn spec_read_ses(data: Seq<u8>, pos: int, n: nat) -> Result<(Seq<i64>, int), BitReaderError> {
    spec_repeat(|d: Seq<u8>, q: int| spec_read_se(d, q), data, pos, n)
}

/// A successful repetition yields exactly `n` items.
pub proof fn lemma_repeat_len<T, E>(
    item: spec_fn(Seq<u8>, int) -> Result<(T, int), E>,
    data: Seq<u8>,
    pos: int,
    n: nat,
)
    ensures
        spec_repeat(item, data, pos, n) matches Ok((items, _)) ==> items.len() == n,
    decreases n,
{
    if n > 0 {
        lemma_repeat_len(item, data, pos, (n - 1) as nat);
    }
}

/// Once a repetition has failed, every longer repetition fails the same way.
pub proof fn lemma_repeat_error_persists<T, E>(
    item: spec_fn(Seq<u8>, int) -> Result<(T, int), E>,
    data: Seq<u8>,
    pos: int,
    k: nat,
    m: nat,
)
    requires
        k <= m,
        spec_repeat(item, data, pos, k) is Err,
    ensures
        spec_repeat(item, data, pos, m) == spec_repeat(item, data, pos, k),
    decreases m - k,
{
    if k < m {
        lemma_repeat_error_persists(item, data, pos, k, (m - 1) as nat);
    }
}

// ---------------------------------------------------------------------------
// Lemmas about the model.
// ---------------------------------------------------------------------------

/// A value of `width` bits is below `2^width`.
pub proof fn lemma_bits_value_bound(data: Seq<u8>, start: int, width: nat)
    ensures
        bits_value(data, start, width) < pow2(width),
    decreases width,
{
    if width > 0 {
        lemma_bits_value_bound(data, start, (width - 1) as nat);
        lemma_pow2_unfold(width);
    } else {
        lemma2_to64();
    }
}

/// A field of at most `bound` bits is below `2^bound`.
pub proof fn lemma_bits_value_within(data: Seq<u8>, start: int, width: nat, bound: nat)
    requires
        width <= bound,
    ensures
        bits_value(data, start, width) < pow2(bound),
        bound == 8 ==> bits_value(data, start, width) < 0x100,
        bound == 16 ==> bits_value(data, start, width) < 0x10000,
        bound == 32 ==> bits_value(data, start, width) < 0x1_0000_0000,
{
    lemma_bits_value_bound(data, start, width);
    lemma_pow2_le(width, bound);
    lemma2_to64();
}

/// Law: reading `w1 + w2` bits at once yields the concatenation of reading
/// `w1` bits and then `w2` bits.
pub proof fn lemma_bits_value_concat(data: Seq<u8>, start: int, w1: nat, w2: nat)
    ensures
        bits_value(data, start, w1 + w2) == bits_value(data, start, w1) * pow2(w2) + bits_value(
            data,
            start + w1,
            w2,
        ),
    decreases w2,
{
    if w2 == 0 {
        lemma2_to64();
    } else {
        lemma_bits_value_concat(data, start, w1, (w2 - 1) as nat);
        lemma_pow2_unfold(w2);
        let a = bits_value(data, start, w1) as int;
        let p = pow2((w2 - 1) as nat) as int;
        assert(2 * (a * p) == a * (2 * p)) by (nonlinear_arith);
    }
}

/// Law: two consecutive fixed-width reads of `w1` and `w2` bits succeed
/// exactly when one read of `w1 + w2` bits does, and the combined read yields
/// the first value shifted left by `w2` plus the second.
pub proof fn lemma_read_bits_concat(data: Seq<u8>, pos: int, w1: usize, w2: usize)
    requires
        0 <= pos <= total_bits(data),
        w1 + w2 <= 64,
    ensures
        match (spec_read_bits(data, pos, w1), spec_read_bits(data, pos + w1, w2)) {
            (Ok((a, p1)), Ok((b, p2))) => p1 == pos + w1 && spec_read_bits(
                data,
                pos,
                (w1 + w2) as usize,
            ) == Ok::<(u64, int), BitReaderError>(((a * pow2(w2 as nat) + b) as u64, p2)),
            _ => spec_read_bits(data, pos, (w1 + w2) as usize) is Err,
        },
{
    lemma_bits_value_concat(data, pos, w1 as nat, w2 as nat);
    lemma_bits_value_bound(data, pos, (w1 + w2) as nat);
    lemma_bits_value_bound(data, pos, w1 as nat);
    lemma_bits_value_bound(data, pos + w1, w2 as nat);
    lemma_pow2_le(w1 as nat, 64);
    lemma_pow2_le(w2 as nat, 64);
    lemma_pow2_le((w1 + w2) as nat, 64);
    lemma2_to64();
}

/// Powers of two grow with their exponent.
pub proof fn lemma_pow2_le(e1: nat, e2: nat)
    requires
        e1 <= e2,
    ensures
        pow2(e1) <= pow2(e2),
{
    if e1 < e2 {
        lemma_pow2_strictly_increases(e1, e2);
    }
}

/// Law: a zero-width fixed read yields zero and consumes nothing, wherever
/// the reader stands.
pub proof fn lemma_read_zero_bits(data: Seq<u8>, pos: int)
    requires
        0 <= pos <= total_bits(data),
    ensures
        spec_read_bits(data, pos, 0) == Ok::<(u64, int), BitReaderError>((0, pos)),
        spec_skip_bits(data, pos, 0) == Ok::<((), int), BitReaderError>(((), pos)),
{
}

/// A zero bit extends the run of zeros that follows it.
proof fn lemma_zero_run_step(data: Seq<u8>, pos: int)
    requires
        0 <= pos < total_bits(data),
        !bit_at(data, pos),
    ensures
        zero_run(data, pos) == 1 + zero_run(data, pos + 1),
{
}

/// The integer value of a `width`-bit two's-complement field lies within the
/// signed range of that width.
pub proof fn lemma_twos_complement_range(value: int, width: nat)
    requires
        1 <= width,
        0 <= value < pow2(width),
    ensures
        -pow2((width - 1) as nat) <= twos_complement(value, width) < pow2((width - 1) as nat),
{
    lemma_pow2_unfold(width);
}

/// Law: bits are read most significant bit first, so the eight bits that
/// start at a byte boundary read as that byte.
pub proof fn lemma_aligned_byte_read(data: Seq<u8>, k: int)
    requires
        0 <= k < data.len(),
    ensures
        spec_read_bits(data, 8 * k, 8) == Ok::<(u64, int), BitReaderError>((data[k] as u64, 8 * k + 8)),
{
    reveal_with_fuel(bits_value, 9);
    assert((8 * k + 0) / 8 == k && (8 * k + 0) % 8 == 0);
    assert((8 * k + 1) / 8 == k && (8 * k + 1) % 8 == 1);
    assert((8 * k + 2) / 8 == k && (8 * k + 2) % 8 == 2);
    assert((8 * k + 3) / 8 == k && (8 * k + 3) % 8 == 3);
    assert((8 * k + 4) / 8 == k && (8 * k + 4) % 8 == 4);
    assert((8 * k + 5) / 8 == k && (8 * k + 5) % 8 == 5);
    assert((8 * k + 6) / 8 == k && (8 * k + 6) % 8 == 6);
    assert((8 * k + 7) / 8 == k && (8 * k + 7) % 8 == 7);
    assert(0x80u8 >> 0u8 == 0x80u8) by (bit_vector);
    assert(0x80u8 >> 1u8 == 0x40u8) by (bit_vector);
    assert(0x80u8 >> 2u8 == 0x20u8) by (bit_vector);
    assert(0x80u8 >> 3u8 == 0x10u8) by (bit_vector);
    assert(0x80u8 >> 4u8 == 0x08u8) by (bit_vector);
    assert(0x80u8 >> 5u8 == 0x04u8) by (bit_vector);
    assert(0x80u8 >> 6u8 == 0x02u8) by (bit_vector);
    assert(0x80u8 >> 7u8 == 0x01u8) by (bit_vector);
    let b = data[k];
    assert(b as u64 == ((((((((if b & 0x80u8 != 0u8 { 1u64 } else { 0u64 })) * 2 + (if b & 0x40u8 != 0u8 { 1u64 } else { 0u64 })) * 2 + (if b & 0x20u8 != 0u8 { 1u64 } else { 0u64 })) * 2 + (if b & 0x10u8 != 0u8 { 1u64 } else { 0u64 })) * 2 + (if b & 0x08u8 != 0u8 { 1u64 } else { 0u64 })) * 2 + (if b & 0x04u8 != 0u8 { 1u64 } else { 0u64 })) * 2 + (if b & 0x02u8 != 0u8 { 1u64 } else { 0u64 })) * 2 + (if b & 0x01u8 != 0u8 { 1u64 } else { 0u64 })) by (bit_vector);
    lemma_bits_value_within(data, 8 * k, 8, 8);
}

/// Law: an unsigned Exp-Golomb code with `z` leading zero bits is `2z + 1`
/// bits long, has a one bit after the zeros, and stands for a value from
/// `2^z - 1` through `2^(z+1) - 2`.
pub proof fn lemma_ue_code_shape(data: Seq<u8>, pos: int)
    requires
        0 <= pos,
    ensures
        spec_read_ue(data, pos) matches Ok((value, end)) ==> {
            let z = zero_run(data, pos);
            &&& end == pos + 2 * z + 1
            &&& bit_at(data, pos + z)
            &&& pow2(z) - 1 <= value <= pow2(z + 1) - 2
        },
{
    if let Ok((value, end)) = spec_read_ue(data, pos) {
        let z = zero_run(data, pos);
        lemma_zero_run_ends_at_one(data, pos);
        lemma_bits_value_bound(data, pos + z + 1, z);
        lemma_pow2_unfold(z + 1);
    }
}

proof fn lemma_zero_run_ends_at_one(data: Seq<u8>, pos: int)
    requires
        pos + zero_run(data, pos) < total_bits(data),
        0 <= pos,
    ensures
        bit_at(data, pos + zero_run(data, pos)),
    decreases total_bits(data) - pos,
{
    if !bit_at(data, pos) {
        lemma_zero_run_ends_at_one(data, pos + 1);
    }
}

/// Law: a signed Exp-Golomb value `v` is read from the unsigned code
/// `2v - 1` when positive and `-2v` otherwise, over the same bits.
pub proof fn lemma_se_code(data: Seq<u8>, pos: int)
    ensures
        spec_read_se(data, pos) matches Ok((value, end)) ==> (spec_read_ue(data, pos) matches Ok(
            (code, e),
        ) && e == end && code == (if value > 0 {
            2 * value - 1
        } else {
            -2 * value
        })),
{
}

// ---------------------------------------------------------------------------
// Reading a prefix of the input.
// ---------------------------------------------------------------------------

/// A parse step that succeeded on a prefix of the input succeeds the same way
/// on the whole input, and ends no earlier than it started.
pub open spec fn extends<T, E>(
    on_prefix: Result<(T, int), E>,
    on_whole: Result<(T, int), E>,
    start: int,
) -> bool {
    on_prefix matches Ok((_, end)) ==> on_whole == on_prefix && start <= end
}

/// The bits of a prefix are the first bits of the whole input.
pub proof fn lemma_bit_at_prefix(d: Seq<u8>, e: Seq<u8>, i: int)
    requires
        d.is_prefix_of(e),
        0 <= i < total_bits(d),
    ensures
        bit_at(d, i) == bit_at(e, i),
{
    assert(d[i / 8] == e.subrange(0, d.len() as int)[i / 8]);
}

/// A field that lies within a prefix has the same value in the whole input.
pub proof fn lemma_bits_value_prefix(d: Seq<u8>, e: Seq<u8>, start: int, width: nat)
    requires
        d.is_prefix_of(e),
        0 <= start,
        start + width <= total_bits(d),
    ensures
        bits_value(d, start, width) == bits_value(e, start, width),
    decreases width,
{
    if width > 0 {
        lemma_bits_value_prefix(d, e, start, (width - 1) as nat);
        lemma_bit_at_prefix(d, e, start + width - 1);
    }
}

/// A run of zeros that ends within a prefix has the same length in the whole
/// input.
pub proof fn lemma_zero_run_prefix(d: Seq<u8>, e: Seq<u8>, pos: int)
    requires
        d.is_prefix_of(e),
        0 <= pos,
        pos + zero_run(d, pos) < total_bits(d),
    ensures
        zero_run(e, pos) == zero_run(d, pos),
    decreases total_bits(d) - pos,
{
    lemma_bit_at_prefix(d, e, pos);
    if !bit_at(d, pos) {
        lemma_zero_run_prefix(d, e, pos + 1);
    }
}

/// Every primitive read that succeeds on a prefix of the input yields the same
/// value and position on the whole input.
pub proof fn lemma_reads_extend(d: Seq<u8>, e: Seq<u8>)
    requires
        d.is_prefix_of(e),
    ensures
        forall|p: int| 0 <= p ==> extends(#[trigger] spec_read_bit(d, p), spec_read_bit(e, p), p),
        forall|p: int, w: usize|
            0 <= p ==> extends(#[trigger] spec_read_bits(d, p, w), spec_read_bits(e, p, w), p),
        forall|p: int| 0 <= p ==> extends(#[trigger] spec_read_ue(d, p), spec_read_ue(e, p), p),
        forall|p: int| 0 <= p ==> extends(#[trigger] spec_read_se(d, p), spec_read_se(e, p), p),
{
    assert forall|p: int| 0 <= p implies extends(#[trigger] spec_read_bit(d, p), spec_read_bit(e, p), p) by {
        if p < total_bits(d) {
            lemma_bit_at_prefix(d, e, p);
        }
    }
    assert forall|p: int, w: usize| 0 <= p implies extends(
        #[trigger] spec_read_bits(d, p, w),
        spec_read_bits(e, p, w),
        p,
    ) by {
        if w <= 64 && w <= total_bits(d) - p {
            lemma_bits_value_prefix(d, e, p, w as nat);
        }
    }
    assert forall|p: int| 0 <= p implies extends(#[trigger] spec_read_ue(d, p), spec_read_ue(e, p), p) by {
        lemma_read_ue_prefix(d, e, p);
    }
    assert forall|p: int| 0 <= p implies extends(#[trigger] spec_read_se(d, p), spec_read_se(e, p), p) by {
        lemma_read_ue_prefix(d, e, p);
    }
}

/// A repetition of items that each extend from a prefix to the whole input
/// extends too.
pub proof fn lemma_repeat_extends<T, E>(
    item: spec_fn(Seq<u8>, int) -> Result<(T, int), E>,
    d: Seq<u8>,
    e: Seq<u8>,
    pos: int,
    n: nat,
)
    requires
        0 <= pos,
        forall|q: int| 0 <= q ==> extends(#[trigger] item(d, q), item(e, q), q),
    ensures
        extends(spec_repeat(item, d, pos, n), spec_repeat(item, e, pos, n), pos),
    decreases n,
{
    if n > 0 {
        lemma_repeat_extends(item, d, e, pos, (n - 1) as nat);
    }
}

proof fn lemma_read_ue_prefix(d: Seq<u8>, e: Seq<u8>, p: int)
    requires
        d.is_prefix_of(e),
        0 <= p,
    ensures
        extends(spec_read_ue(d, p), spec_read_ue(e, p), p),
{
    let z = zero_run(d, p);
    if z <= 64 && p + z < total_bits(d) {
        lemma_zero_run_prefix(d, e, p);
        let suffix_start = p + z + 1;
        if z <= total_bits(d) - suffix_start {
            lemma_bits_value_prefix(d, e, suffix_start, z);
        }
    }
}

// ---------------------------------------------------------------------------
// The reader.
// ---------------------------------------------------------------------------

/// A non-allocating, most-significant-bit-first reader over a byte slice.
///
/// Failed reads do not advance the reader. An unsigned fixed-width read may
/// have a width from 0 through 64 bits; a zero-width read returns zero. Signed
/// reads require a width from 1 through 64 bits and use two's-complement
/// representation.
#[derive(Clone, Debug)]
pub struct BitReader<'a> {
    input: &'a [u8],
    byte_offset: usize,
    bit_offset: u8,
}

impl<'a> BitReader<'a> {
    /// The bytes being read.
    pub closed spec fn data(&self) -> Seq<u8> {
        self.input@
    }

    /// The position of the next unread bit.
    pub closed spec fn pos(&self) -> int {
        self.byte_offset * 8 + self.bit_offset
    }

    /// The reader's invariant: the position lies within the input.
    pub closed spec fn wf(&self) -> bool {
        &&& self.bit_offset < 8
        &&& self.byte_offset * 8 + self.bit_offset <= self.input@.len() * 8
    }

    /// The number of unread bits.
    pub open spec fn remaining(&self) -> int {
        total_bits(self.data()) - self.pos()
    }

    /// A well-formed reader's position lies between the start and the end of
    /// its input.
    pub proof fn lemma_pos_bounds(&self)
        requires
            self.wf(),
        ensures
            0 <= self.pos() <= total_bits(self.data()),
    {
    }

    /// Creates a reader positioned at the first bit of `input`.
    pub fn new(input: &'a [u8]) -> (reader: Self)
        ensures
            reader.wf(),
            reader.data() == input@,
            reader.pos() == 0,
    {
        BitReader { input, byte_offset: 0, bit_offset: 0 }
    }

    fn remaining_bits_u128(&self) -> (r: u128)
        requires
            self.wf(),
        ensures
            r == self.remaining(),
    {
        let remaining_bytes = (self.input.len() - self.byte_offset) as u128;
        remaining_bytes * 8 - self.bit_offset as u128
    }

    /// Returns the number of unread bits.
    ///
    /// The result saturates at `usize::MAX` if the byte slice is large enough
    /// for its bit count not to fit in `usize`.
    pub fn remaining_bits(&self) -> (r: usize)
        requires
            self.wf(),
        ensures
            r == saturating_usize(self.remaining()),
    {
        let remaining = self.remaining_bits_u128();
        if remaining > usize::MAX as u128 {
            usize::MAX
        } else {
            remaining as usize
        }
    }

    fn unexpected_eof(&self, requested: usize) -> (e: BitReaderError)
        requires
            self.wf(),
        ensures
            e == eof_error(self.data(), self.pos(), requested),
    {
        BitReaderError::UnexpectedEof { requested, remaining: self.remaining_bits() }
    }

    fn require_bits(&self, requested: usize) -> (r: Result<(), BitReaderError>)
        requires
            self.wf(),
        ensures
            r is Ok <==> requested <= self.remaining(),
            r matches Err(e) ==> e == eof_error(self.data(), self.pos(), requested),
    {
        if requested as u128 <= self.remaining_bits_u128() {
            Ok(())
        } else {
            Err(self.unexpected_eof(requested))
        }
    }

    /// Moves the position forward by `count` bits.
    fn advance_unchecked(&mut self, count: usize)
        requires
            old(self).wf(),
            count <= old(self).remaining(),
        ensures
            final(self).wf(),
            final(self).data() == old(self).data(),
            final(self).pos() == old(self).pos() + count,
    {
        let byte_advance = count / 8;
        let bit_total = self.bit_offset as usize + count % 8;
        let new_pos: Ghost<int> = Ghost(self.pos() + count);
        assert(new_pos@ == (self.byte_offset + byte_advance + bit_total / 8) * 8 + bit_total % 8);
        assert(self.byte_offset + byte_advance + bit_total / 8 <= self.input@.len());
        assert(self.input@.len() <= usize::MAX) by {
            vstd::slice::axiom_spec_len(self.input);
        }
        let byte_offset = self.byte_offset + byte_advance + bit_total / 8;
        let bit_offset = (bit_total % 8) as u8;
        self.byte_offset = byte_offset;
        self.bit_offset = bit_offset;
    }

    fn read_bit_unchecked(&mut self) -> (value: bool)
        requires
            old(self).wf(),
            old(self).remaining() >= 1,
        ensures
            final(self).wf(),
            final(self).data() == old(self).data(),
            final(self).pos() == old(self).pos() + 1,
            value == bit_at(old(self).data(), old(self).pos()),
    {
        let ghost p = self.pos();
        assert(p / 8 == self.byte_offset as int && p % 8 == self.bit_offset as int);
        let value = self.input[self.byte_offset] & (0x80u8 >> self.bit_offset) != 0;
        self.advance_unchecked(1);
        value
    }

    /// Reads one bit.
    pub fn read_bit(&mut self) -> (r: Result<bool, BitReaderError>)
        requires
            old(self).wf(),
        ensures
            final(self).wf(),
            final(self).data() == old(self).data(),
            read_outcome(spec_read_bit(old(self).data(), old(self).pos()), r, old(self).pos(), final(self).pos()),
    {
        if self.byte_offset >= self.input.len() {
            return Err(self.unexpected_eof(1));
        }
        Ok(self.read_bit_unchecked())
    }

    /// Reads an unsigned field with `width` bits.
    ///
    /// Widths greater than 64 return `BitReaderError::InvalidWidth`.
    pub fn read_bits(&mut self, width: usize) -> (r: Result<u64, BitReaderError>)
        requires
            old(self).wf(),
        ensures
            final(self).wf(),
            final(self).data() == old(self).data(),
            read_outcome(spec_read_bits(old(self).data(), old(self).pos(), width), r, old(self).pos(), final(self).pos()),
    {
        if width > 64 {
            return Err(BitReaderError::InvalidWidth { width, maximum: 64 });
        }
        match self.require_bits(width) {
            Err(e) => return Err(e),
            Ok(()) => {},
        }
        let ghost data = self.data();
        let ghost start = self.pos();
        let mut value: u64 = 0;
        let mut i: usize = 0;
        while i < width
            invariant
                self.wf(),
                self.data() == data,
                i <= width <= 64,
                width <= total_bits(data) - start,
                self.pos() == start + i,
                value == bits_value(data, start, i as nat),
            decreases width - i,
        {
            proof {
                lemma_bits_value_bound(data, start, i as nat);
                lemma_pow2_le(i as nat, 63);
                lemma2_to64_rest();
            }
            let bit = self.read_bit_unchecked();
            value = value * 2 + if bit {
                1
            } else {
                0
            };
            i = i + 1;
        }
        Ok(value)
    }

    /// Reads a signed two's-complement field with `width` bits.
    ///
    /// Valid widths are 1 through 64 bits.
    pub fn read_signed_bits(&mut self, width: usize) -> (r: Result<i64, BitReaderError>)
        requires
            old(self).wf(),
        ensures
            final(self).wf(),
            final(self).data() == old(self).data(),
            read_outcome(spec_read_signed_bits(old(self).data(), old(self).pos(), width), r, old(self).pos(), final(self).pos()),
    {
        if width < 1 || width > 64 {
            return Err(BitReaderError::InvalidWidth { width, maximum: 64 });
        }
        let ghost data = self.data();
        let ghost start = self.pos();
        let value = match self.read_bits(width) {
            Err(e) => return Err(e),
            Ok(v) => v,
        };
        proof {
            lemma_bits_value_bound(data, start, width as nat);
            lemma2_to64();
            lemma2_to64_rest();
            lemma_pow2_unfold(width as nat);
            lemma_pow2_pos((width - 1) as nat);
            if width < 64 {
                lemma_pow2_strictly_increases(width as nat, 64);
            }
        }
        let shift: u64 = (width - 1) as u64;
        proof {
            lemma_pow2_strictly_increases((width - 1) as nat, 64);
            lemma_u64_shl_is_mul(1, shift);
        }
        let half: u64 = 1u64 << shift;
        if value < half {
            Ok(value as i64)
        } else {
            let maximum: u64 = if width == 64 {
                u64::MAX
            } else {
                let w: u64 = width as u64;
                proof {
                    lemma_u64_shl_is_mul(1, w);
                }
                (1u64 << w) - 1
            };
            let complement = maximum - value;
            Ok(-(complement as i64) - 1)
        }
    }

    /// Advances by `count` bits without reading their values.
    ///
    /// If insufficient input remains, the reader is not advanced.
    pub fn skip_bits(&mut self, count: usize) -> (r: Result<(), BitReaderError>)
        requires
            old(self).wf(),
        ensures
            final(self).wf(),
            final(self).data() == old(self).data(),
            read_outcome(spec_skip_bits(old(self).data(), old(self).pos(), count), r, old(self).pos(), final(self).pos()),
    {
        match self.require_bits(count) {
            Err(e) => return Err(e),
            Ok(()) => {},
        }
        self.advance_unchecked(count);
        Ok(())
    }

    /// Decodes an unsigned Exp-Golomb (`ue(v)`) value.
    ///
    /// Prefixes or values that cannot be represented by `u64` return
    /// `BitReaderError::Overflow`. A truncated code returns
    /// `BitReaderError::UnexpectedEof`. On any error, the reader is not
    /// advanced.
    pub fn read_ue(&mut self) -> (r: Result<u64, BitReaderError>)
        requires
            old(self).wf(),
        ensures
            final(self).wf(),
            final(self).data() == old(self).data(),
            read_outcome(spec_read_ue(old(self).data(), old(self).pos()), r, old(self).pos(), final(self).pos()),
    {
        let start_byte = self.byte_offset;
        let start_bit = self.bit_offset;
        let result = self.read_ue_inner();
        if result.is_err() {
            self.byte_offset = start_byte;
            self.bit_offset = start_bit;
        }
        result
    }

    /// Decodes a signed Exp-Golomb (`se(v)`) value.
    ///
    /// Values outside the `i64` range return `BitReaderError::Overflow`.
    /// On any error, the reader is not advanced.
    pub fn read_se(&mut self) -> (r: Result<i64, BitReaderError>)
        requires
            old(self).wf(),
        ensures
            final(self).wf(),
            final(self).data() == old(self).data(),
            read_outcome(spec_read_se(old(self).data(), old(self).pos()), r, old(self).pos(), final(self).pos()),
    {
        let start_byte = self.byte_offset;
        let start_bit = self.bit_offset;
        let result = match self.read_ue() {
            Err(e) => Err(e),
            Ok(code_num) => {
                if code_num % 2 == 0 {
                    let magnitude = code_num / 2;
                    Ok(-(magnitude as i64))
                } else {
                    let magnitude = code_num / 2 + 1;
                    if magnitude > i64::MAX as u64 {
                        Err(BitReaderError::Overflow)
                    } else {
                        Ok(magnitude as i64)
                    }
                }
            },
        };
        if result.is_err() {
            self.byte_offset = start_byte;
            self.bit_offset = start_bit;
        }
        result
    }

    fn read_ue_inner(&mut self) -> (r: Result<u64, BitReaderError>)
        requires
            old(self).wf(),
        ensures
            final(self).wf(),
            final(self).data() == old(self).data(),
            r is Ok ==> read_outcome(spec_read_ue(old(self).data(), old(self).pos()), r, old(self).pos(), final(self).pos()),
            r matches Err(e) ==> spec_read_ue(old(self).data(), old(self).pos()) == Err::<(u64, int), BitReaderError>(e),
    {
        let ghost data = self.data();
        let ghost start = self.pos();
        let mut leading_zero_bits: usize = 0;
        loop
            invariant_except_break
                self.pos() == start + leading_zero_bits,
                zero_run(data, start) == leading_zero_bits + zero_run(data, self.pos()),
            invariant
                self.wf(),
                self.data() == data,
                data == old(self).data(),
                start == old(self).pos(),
                0 <= start,
                leading_zero_bits <= 64,
            ensures
                self.pos() == start + leading_zero_bits + 1,
                zero_run(data, start) == leading_zero_bits,
                start + leading_zero_bits < total_bits(data),
            decreases 65 - leading_zero_bits,
        {
            let ghost p = self.pos();
            match self.read_bit() {
                Err(e) => {
                    assert(zero_run(data, p) == 0);
                    return Err(e);
                },
                Ok(true) => {
                    assert(zero_run(data, p) == 0);
                    break ;
                },
                Ok(false) => {
                    proof {
                        lemma_zero_run_step(data, p);
                    }
                    leading_zero_bits = leading_zero_bits + 1;
                    if leading_zero_bits > 64 {
                        return Err(BitReaderError::Overflow);
                    }
                },
            }
        }
        assert(zero_run(data, start) == leading_zero_bits);
        if leading_zero_bits == 0 {
            proof {
                lemma2_to64();
            }
            return Ok(0);
        }
        let ghost suffix_start = self.pos();
        let suffix = match self.read_bits(leading_zero_bits) {
            Err(e) => return Err(e),
            Ok(s) => s,
        };
        proof {
            lemma2_to64();
            lemma2_to64_rest();
            lemma_bits_value_bound(data, suffix_start, leading_zero_bits as nat);
        }
        if leading_zero_bits == 64 {
            return if suffix == 0 {
                Ok(u64::MAX)
            } else {
                Err(BitReaderError::Overflow)
            };
        }
        let shift: u64 = leading_zero_bits as u64;
        proof {
            lemma_pow2_strictly_increases(leading_zero_bits as nat, 64);
            lemma_u64_shl_is_mul(1, shift);
            lemma_pow2_unfold((leading_zero_bits + 1) as nat);
            lemma_pow2_le((leading_zero_bits + 1) as nat, 64);
        }
        Ok(((1u64 << shift) - 1) + suffix)
    }

    /// Consumes the `rbsp_trailing_bits` syntax structure, reporting whether
    /// what remains of the input is exactly that structure.
    pub(crate) fn read_rbsp_trailing_bits(&mut self) -> (valid: bool)
        requires
            old(self).wf(),
        ensures
            final(self).wf(),
            final(self).data() == old(self).data(),
            valid == spec_rbsp_trailing_bits(old(self).data(), old(self).pos()),
            valid ==> final(self).pos() == total_bits(old(self).data()),
    {
        let ghost d = self.data();
        let ghost start = self.pos();
        let remaining = self.remaining_bits();
        if remaining == 0 || remaining > 8 {
            return false;
        }
        match self.read_bit() {
            Ok(true) => {},
            _ => return false,
        }
        while self.remaining_bits() != 0
            invariant
                self.wf(),
                self.data() == d,
                d == old(self).data(),
                start == old(self).pos(),
                1 <= total_bits(d) - start <= 8,
                bit_at(d, start),
                start < self.pos() <= total_bits(d),
                forall|i: int| start < i < self.pos() ==> !bit_at(d, i),
            decreases total_bits(d) - self.pos(),
        {
            let ghost q = self.pos();
            match self.read_bit() {
                Ok(false) => {},
                _ => {
                    assert(start < q < total_bits(d));
                    assert(!spec_rbsp_trailing_bits(d, start));
                    return false;
                },
            }
        }
        true
    }

    /// Reports whether more syntax follows the current position, without
    /// consuming anything.
    pub(crate) fn more_rbsp_data(&self) -> (more: bool)
        requires
            self.wf(),
        ensures
            more == spec_more_rbsp_data(self.data(), self.pos()),
    {
        let remaining = self.remaining_bits();
        if remaining == 0 || remaining > 8 {
            return remaining != 0;
        }
        let mut trailing = BitReader {
            input: self.input,
            byte_offset: self.byte_offset,
            bit_offset: self.bit_offset,
        };
        !trailing.read_rbsp_trailing_bits()
    }
}

} // verus!
