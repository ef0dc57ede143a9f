//! Codec-neutral NAL unit framing and raw byte sequence payload extraction.
use std::borrow::Cow;
use vstd::prelude::*;
use vstd::slice::{slice_subrange, slice_to_vec};
use crate::text::{decimal, hex_byte, push_decimal, push_hex_byte};

verus! {

// ---------------------------------------------------------------------------
// Annex B framing.
// ---------------------------------------------------------------------------

/// The length of the start code (`00 00 01` or `00 00 00 01`) that begins at
/// offset `o` of `s`, or 0 when none begins there.
pub open spec fn start_code_len(s: Seq<u8>, o: int) -> int {
    if 0 <= o && o + 3 <= s.len() && s[o] == 0 && s[o + 1] == 0 && s[o + 2] == 1 {
        3
    } else if 0 <= o && o + 4 <= s.len() && s[o] == 0 && s[o + 1] == 0 && s[o + 2] == 0 && s[o
        + 3] == 1 {
        4
    } else {
        0
    }
}

/// The first start code at or after `from`: its offset and the offset of the
/// payload that follows it.
pub open spec fn first_start_code(s: Seq<u8>, from: int) -> Option<(int, int)>
    decreases s.len() - from,
{
    if from < 0 || from + 3 > s.len() {
        None
    } else if start_code_len(s, from) > 0 {
        Some((from, from + start_code_len(s, from)))
    } else {
        first_start_code(s, from + 1)
    }
}

/// `end` moved back over the zero bytes that precede it, but not before
/// `start`.
pub open spec fn trimmed_end(s: Seq<u8>, start: int, end: int) -> int
    decreases end - start,
{
    if end > start && s[end - 1] == 0 {
        trimmed_end(s, start, end - 1)
    } else {
        end
    }
}

/// The bounds of the unit whose payload begins at `payload_start`, and the
/// payload start of the unit after it, if any.
pub open spec fn unit_bounds(s: Seq<u8>, payload_start: int) -> (int, int, Option<int>) {
    match first_start_code(s, payload_start) {
        Some((code, next)) => (payload_start, trimmed_end(s, payload_start, code), Some(next)),
        None => (payload_start, trimmed_end(s, payload_start, s.len() as int), None),
    }
}

/// A start code found at or after `from` lies at or after `from`, and no start
/// code begins between `from` and it.
pub proof fn lemma_first_start_code(s: Seq<u8>, from: int)
    requires
        0 <= from,
    ensures
        first_start_code(s, from) matches Some((code, next)) ==> {
            &&& from <= code
            &&& code + 3 <= s.len()
            &&& start_code_len(s, code) > 0
            &&& next == code + start_code_len(s, code)
            &&& forall|o: int| from <= o < code ==> start_code_len(s, o) == 0
        },
        first_start_code(s, from) is None ==> forall|o: int| from <= o ==> start_code_len(s, o) == 0,
    decreases s.len() - from,
{
    if from + 3 <= s.len() && start_code_len(s, from) == 0 {
        lemma_first_start_code(s, from + 1);
    }
}

/// The trimmed end lies between `start` and `end`, only zero bytes were
/// removed, and the unit does not end in a zero byte.
pub proof fn lemma_trimmed_end(s: Seq<u8>, start: int, end: int)
    requires
        0 <= start <= end <= s.len(),
    ensures
        start <= trimmed_end(s, start, end) <= end,
        forall|i: int| trimmed_end(s, start, end) <= i < end ==> s[i] == 0,
        trimmed_end(s, start, end) > start ==> s[trimmed_end(s, start, end) - 1] != 0,
    decreases end - start,
{
    if end > start && s[end - 1] == 0 {
        lemma_trimmed_end(s, start, end - 1);
    }
}

/// Law: a unit produced by the framing contains no three-byte start code
/// prefix `00 00 01` and does not end in a zero byte.
pub proof fn lemma_unit_is_clean(s: Seq<u8>, payload_start: int)
    requires
        0 <= payload_start <= s.len(),
    ensures
        ({
            let (start, end, _) = unit_bounds(s, payload_start);
            &&& start <= end <= s.len()
            &&& forall|o: int|
                start <= o && o + 3 <= end ==> !(#[trigger] s[o] == 0 && s[o + 1] == 0 && s[o + 2] == 1)
            &&& end > start ==> s[end - 1] != 0
        }),
{
    lemma_first_start_code(s, payload_start);
    match first_start_code(s, payload_start) {
        Some((code, next)) => {
            lemma_trimmed_end(s, payload_start, code);
            let end = trimmed_end(s, payload_start, code);
            assert forall|o: int| payload_start <= o && o + 3 <= end implies !(#[trigger] s[o] == 0 && s[o + 1]
                == 0 && s[o + 2] == 1) by {
                assert(start_code_len(s, o) == 0);
            }
        },
        None => {
            lemma_trimmed_end(s, payload_start, s.len() as int);
            let end = trimmed_end(s, payload_start, s.len() as int);
            assert forall|o: int| payload_start <= o && o + 3 <= end implies !(#[trigger] s[o] == 0 && s[o + 1]
                == 0 && s[o + 2] == 1) by {
                assert(start_code_len(s, o) == 0);
            }
        },
    }
}

/// Law: after each unit the cursor moves strictly forward and stays within the
/// stream, so framing a stream ends after finitely many units.
pub proof fn lemma_framing_advances(s: Seq<u8>, payload_start: int)
    requires
        0 <= payload_start <= s.len(),
    ensures
        unit_bounds(s, payload_start).2 matches Some(following) ==> payload_start < following
            <= s.len(),
{
    lemma_first_start_code(s, payload_start);
}

/// Law: a unit ends either where zero bytes and then a start code (`00 00 01`
/// or `00 00 00 01`) follow it, the next unit beginning right after that
/// code, or at the end of the stream with only zero bytes after it and no
/// `00 00 01` anywhere from the unit's start on.
pub proof fn lemma_unit_ends_at_start_code(s: Seq<u8>, payload_start: int)
    requires
        0 <= payload_start <= s.len(),
    ensures
        ({
            let (start, end, following) = unit_bounds(s, payload_start);
            match following {
                Some(next) => exists|code: int|
                    #![trigger s[code]]
                    {
                        &&& end <= code
                        &&& forall|i: int| end <= i < code ==> s[i] == 0
                        &&& {
                            ||| next == code + 3 && s[code] == 0 && s[code + 1] == 0 && s[code + 2] == 1
                            ||| next == code + 4 && s[code] == 0 && s[code + 1] == 0 && s[code + 2] == 0
                                && s[code + 3] == 1
                        }
                    },
                None => {
                    &&& forall|i: int| end <= i < s.len() ==> s[i] == 0
                    &&& forall|o: int|
                        start <= o && o + 3 <= s.len() ==> !(#[trigger] s[o] == 0 && s[o + 1] == 0
                            && s[o + 2] == 1)
                },
            }
        }),
{
    lemma_first_start_code(s, payload_start);
    match first_start_code(s, payload_start) {
        Some((code, next)) => {
            lemma_trimmed_end(s, payload_start, code);
            assert(s[code] == 0);
        },
        None => {
            lemma_trimmed_end(s, payload_start, s.len() as int);
            assert forall|o: int| payload_start <= o && o + 3 <= s.len() implies !(#[trigger] s[o] == 0
                && s[o + 1] == 0 && s[o + 2] == 1) by {
                assert(start_code_len(s, o) == 0);
            }
        },
    }
}

/// A borrowing cursor over NAL units in an Annex B byte stream.
///
/// Three-byte (`00 00 01`) and four-byte (`00 00 00 01`) start codes are
/// recognized. Bytes before the first start code are ignored. Zero bytes
/// immediately before a start code or at the end of the stream are treated as
/// leading or trailing zeros rather than as part of a NAL unit.
///
/// Consecutive start codes and a final start code produce empty NAL units. The
/// returned slices borrow directly from the input stream. Once `next` has
/// returned `None`, it keeps returning `None`.
#[derive(Clone, Debug)]
pub struct AnnexBNalUnits<'a> {
    input: &'a [u8],
    payload_start: Option<usize>,
}

impl<'a> AnnexBNalUnits<'a> {
    /// The stream being framed.
    pub closed spec fn data(&self) -> Seq<u8> {
        self.input@
    }

    /// The offset of the payload of the next unit, if any remains.
    pub closed spec fn cursor(&self) -> Option<int> {
        match self.payload_start {
            Some(p) => Some(p as int),
            None => None,
        }
    }

    /// The cursor lies within the stream.
    pub closed spec fn wf(&self) -> bool {
        self.payload_start matches Some(p) ==> p <= self.input@.len()
    }

    /// Creates a cursor over the NAL units in `input`.
    pub fn new(input: &'a [u8]) -> (units: Self)
        ensures
            units.wf(),
            units.data() == input@,
            units.cursor() == (match first_start_code(input@, 0) {
                Some((_, next)) => Some(next),
                None => None::<int>,
            }),
    {
        proof {
            lemma_first_start_code(input@, 0);
        }
        let payload_start = match find_start_code(input, 0) {
            Some((_, next)) => Some(next),
            None => None,
        };
        AnnexBNalUnits { input, payload_start }
    }

    /// Returns the next NAL unit, or `None` once the stream is exhausted.
    pub fn next(&mut self) -> (unit: Option<&'a [u8]>)
        requires
            old(self).wf(),
        ensures
            final(self).wf(),
            final(self).data() == old(self).data(),
            match old(self).cursor() {
                None => unit is None && final(self).cursor() is None,
                Some(payload_start) => {
                    let (start, end, following) = unit_bounds(old(self).data(), payload_start);
                    &&& unit matches Some(u) && u@ == old(self).data().subrange(start, end)
                    &&& final(self).cursor() == following
                },
            },
    {
        let payload_start = match self.payload_start {
            None => return None,
            Some(p) => p,
        };
        proof {
            lemma_first_start_code(self.input@, payload_start as int);
        }
        match find_start_code(self.input, payload_start) {
            Some((start_code_start, next_payload_start)) => {
                self.payload_start = Some(next_payload_start);
                let payload_end = trim_trailing_zeros(self.input, payload_start, start_code_start);
                Some(slice_subrange(self.input, payload_start, payload_end))
            },
            None => {
                self.payload_start = None;
                let payload_end = trim_trailing_zeros(self.input, payload_start, self.input.len());
                Some(slice_subrange(self.input, payload_start, payload_end))
            },
        }
    }
}

/// Returns a borrowing cursor over NAL units in an Annex B byte stream.
pub fn annex_b_nal_units(input: &[u8]) -> (units: AnnexBNalUnits<'_>)
    ensures
        units.wf(),
        units.data() == input@,
        units.cursor() == (match first_start_code(input@, 0) {
            Some((_, next)) => Some(next),
            None => None::<int>,
        }),
{
    AnnexBNalUnits::new(input)
}

fn find_start_code(input: &[u8], from: usize) -> (r: Option<(usize, usize)>)
    ensures
        match first_start_code(input@, from as int) {
            Some((code, next)) => r matches Some((c, n)) && c == code && n == next,
            None => r is None,
        },
{
    proof {
        lemma_first_start_code(input@, from as int);
    }
    let mut offset = from;
    while input.len() >= 3 && offset <= input.len() - 3
        invariant
            from <= offset,
            first_start_code(input@, from as int) == first_start_code(input@, offset as int),
        decreases input@.len() - offset,
    {
        if input[offset] == 0 && input[offset + 1] == 0 {
            if input[offset + 2] == 1 {
                return Some((offset, offset + 3));
            }
            if input[offset + 2] == 0 && offset + 3 < input.len() && input[offset + 3] == 1 {
                return Some((offset, offset + 4));
            }
        }
        offset = offset + 1;
    }
    None
}

fn trim_trailing_zeros(input: &[u8], start: usize, end: usize) -> (r: usize)
    requires
        start <= end <= input@.len(),
    ensures
        r == trimmed_end(input@, start as int, end as int),
        start <= r <= end,
{
    proof {
        lemma_trimmed_end(input@, start as int, end as int);
    }
    let ghost original_end = end;
    let mut end = end;
    while end > start && input[end - 1] == 0
        invariant
            start <= end <= original_end <= input@.len(),
            trimmed_end(input@, start as int, end as int) == trimmed_end(
                input@,
                start as int,
                original_end as int,
            ),
        decreases end - start,
    {
        end = end - 1;
    }
    end
}

// ---------------------------------------------------------------------------
// Emulation prevention.
// ---------------------------------------------------------------------------

/// An error found while converting an encoded byte sequence payload to RBSP.
#[derive(Clone, Copy, Debug, PartialEq, Eq, Structural)]
pub enum RbspError {
    /// An unescaped `00 00 00`, `00 00 01`, or `00 00 02` sequence occurred.
    ForbiddenSequence {
        /// The offset of the forbidden byte after the two zero bytes.
        offset: usize,
        /// The forbidden byte, in the range `00` through `02`.
        byte: u8,
    },
    /// An emulation-prevention byte was followed by a byte greater than `03`.
    InvalidEmulationPrevention {
        /// The offset of the emulation-prevention byte.
        offset: usize,
        /// The byte following the emulation-prevention byte.
        following: u8,
    },
}

impl RbspError {
    /// The human-readable description of the error.
    pub open spec fn description(&self) -> Seq<char> {
        match *self {
            RbspError::ForbiddenSequence { offset, byte } => "forbidden unescaped sequence ending in 0x"@
                + hex_byte(byte) + " at byte offset "@ + decimal(offset as nat),
            RbspError::InvalidEmulationPrevention { offset, following } => "emulation-prevention byte at offset "@
                + decimal(offset as nat) + " is followed by invalid byte 0x"@ + hex_byte(following),
        }
    }

    /// Renders the human-readable description of the error.
    pub fn to_string(&self) -> (text: String)
        ensures
            text@ == self.description(),
    {
        match *self {
            RbspError::ForbiddenSequence { offset, byte } => {
                let mut text = String::from_str("forbidden unescaped sequence ending in 0x");
                push_hex_byte(&mut text, byte);
                text.append(" at byte offset ");
                push_decimal(&mut text, offset as u64);
                text
            },
            RbspError::InvalidEmulationPrevention { offset, following } => {
                let mut text = String::from_str("emulation-prevention byte at offset ");
                push_decimal(&mut text, offset as u64);
                text.append(" is followed by invalid byte 0x");
                push_hex_byte(&mut text, following);
                text
            },
        }
    }
}

/// The state of the scan over an encoded payload: the payload bytes kept so
/// far, the number of zero bytes just seen (at most two), and the number of
/// emulation-prevention bytes removed.
pub type EbspScan = (Seq<u8>, nat, nat);

/// One step of the scan, over the byte at offset `i`.
pub open spec fn ebsp_step(s: Seq<u8>, i: int, state: EbspScan) -> Result<EbspScan, RbspError> {
    let byte = s[i];
    let (kept, zeros, removed) = state;
    if zeros == 2 && byte <= 2 {
        Err(RbspError::ForbiddenSequence { offset: i as usize, byte })
    } else if zeros == 2 && byte == 3 {
        if i + 1 < s.len() && s[i + 1] > 3 {
            Err(RbspError::InvalidEmulationPrevention { offset: i as usize, following: s[i + 1] })
        } else {
            Ok((kept, 0, removed + 1))
        }
    } else {
        let zeros_after: nat = if byte == 0 {
            if zeros + 1 > 2 {
                2
            } else {
                zeros + 1
            }
        } else {
            0
        };
        Ok((kept.push(byte), zeros_after, removed))
    }
}

/// The scan over the first `k` bytes of `s`.
pub open spec fn ebsp_scan(s: Seq<u8>, k: nat) -> Result<EbspScan, RbspError>
    decreases k,
{
    if k == 0 {
        Ok((Seq::empty(), 0, 0))
    } else {
        match ebsp_scan(s, (k - 1) as nat) {
            Err(e) => Err(e),
            Ok(state) => ebsp_step(s, k - 1, state),
        }
    }
}

/// Once the scan has failed, it fails with the same error on every longer
/// prefix.
proof fn lemma_ebsp_scan_error_persists(s: Seq<u8>, k: nat, m: nat)
    requires
        k <= m,
        ebsp_scan(s, k) is Err,
    ensures
        ebsp_scan(s, m) == ebsp_scan(s, k),
    decreases m - k,
{
    if k < m {
        lemma_ebsp_scan_error_persists(s, k, (m - 1) as nat);
    }
}

/// Law: every byte of the scanned prefix is either kept or removed as an
/// emulation-prevention byte; with none removed, the kept bytes are the prefix
/// itself.
pub proof fn lemma_ebsp_scan_accounts_for_every_byte(s: Seq<u8>, k: nat)
    requires
        k <= s.len(),
        ebsp_scan(s, k) is Ok,
    ensures
        ({
            let (kept, _, removed) = ebsp_scan(s, k)->Ok_0;
            &&& kept.len() + removed == k
            &&& removed == 0 ==> kept == s.subrange(0, k as int)
        }),
    decreases k,
{
    if k > 0 {
        lemma_ebsp_scan_accounts_for_every_byte(s, (k - 1) as nat);
        let (kept, _, removed) = ebsp_scan(s, (k - 1) as nat)->Ok_0;
        if removed == 0 {
            assert(s.subrange(0, k as int) == s.subrange(0, k - 1).push(s[k - 1]));
        }
    }
}

/// Byte `i` of `s` is an emulation-prevention byte: a `03` right after two
/// zero bytes.
pub open spec fn is_emulation_prevention(s: Seq<u8>, i: int) -> bool {
    2 <= i < s.len() && s[i - 2] == 0 && s[i - 1] == 0 && s[i] == 3
}

/// Byte `i` of `s` breaks the payload rules: a byte up to `02` right after two
/// zero bytes, or an emulation-prevention byte followed by a byte above `03`.
pub open spec fn breaks_payload_rules(s: Seq<u8>, i: int) -> bool {
    ||| 2 <= i < s.len() && s[i - 2] == 0 && s[i - 1] == 0 && s[i] <= 2
    ||| is_emulation_prevention(s, i) && i + 1 < s.len() && s[i + 1] > 3
}

/// `e` reports the first byte of `s` that breaks the payload rules: its offset,
/// and the byte itself or, after an emulation-prevention byte, the byte that
/// follows it.
pub open spec fn first_rule_broken(s: Seq<u8>, e: RbspError) -> bool {
    match e {
        RbspError::ForbiddenSequence { offset, byte } => {
            &&& breaks_payload_rules(s, offset as int)
            &&& forall|j: int| 0 <= j < offset ==> !#[trigger] breaks_payload_rules(s, j)
            &&& 2 <= offset < s.len() && s[offset - 2] == 0 && s[offset - 1] == 0
            &&& byte == s[offset as int] && byte <= 2
        },
        RbspError::InvalidEmulationPrevention { offset, following } => {
            &&& breaks_payload_rules(s, offset as int)
            &&& forall|j: int| 0 <= j < offset ==> !#[trigger] breaks_payload_rules(s, j)
            &&& is_emulation_prevention(s, offset as int)
            &&& offset + 1 < s.len() && following == s[offset + 1] && following > 3
        },
    }
}

/// The first `k` bytes of `s` without their emulation-prevention bytes.
pub open spec fn without_emulation_prevention(s: Seq<u8>, k: nat) -> Seq<u8>
    decreases k,
{
    if k == 0 {
        Seq::empty()
    } else if is_emulation_prevention(s, k - 1) {
        without_emulation_prevention(s, (k - 1) as nat)
    } else {
        without_emulation_prevention(s, (k - 1) as nat).push(s[k - 1])
    }
}

/// The number of zero bytes, up to two, that end the first `k` bytes of `s`.
pub open spec fn trailing_zeros(s: Seq<u8>, k: int) -> nat {
    if k >= 1 && s[k - 1] == 0 {
        if k >= 2 && s[k - 2] == 0 {
            2
        } else {
            1
        }
    } else {
        0
    }
}

/// Law: the scan over the first `k` bytes succeeds exactly when none of them
/// breaks the payload rules; it then keeps every byte but the
/// emulation-prevention bytes, and removes some byte exactly when one of them
/// is an emulation-prevention byte; a failed scan reports the first byte that
/// breaks the rules.
pub proof fn lemma_ebsp_scan_removes_emulation_prevention(s: Seq<u8>, k: nat)
    requires
        k <= s.len(),
        s.len() <= usize::MAX,
    ensures
        ebsp_scan(s, k) is Ok <==> forall|i: int| 0 <= i < k ==> !#[trigger] breaks_payload_rules(s, i),
        ebsp_scan(s, k) matches Ok((kept, zeros, removed)) ==> {
            &&& kept == without_emulation_prevention(s, k)
            &&& zeros == trailing_zeros(s, k as int)
            &&& (removed == 0 <==> forall|i: int|
                0 <= i < k ==> !#[trigger] is_emulation_prevention(s, i))
        },
        ebsp_scan(s, k) matches Err(e) ==> first_rule_broken(s, e),
    decreases k,
{
    if k > 0 {
        let j = k - 1;
        lemma_ebsp_scan_removes_emulation_prevention(s, j as nat);
        if ebsp_scan(s, j as nat) is Ok {
            let (kept, zeros, removed) = ebsp_scan(s, j as nat)->Ok_0;
            if ebsp_scan(s, k) is Ok {
                assert forall|i: int| 0 <= i < k implies !#[trigger] breaks_payload_rules(s, i) by {
                    if i < j {
                        assert(!breaks_payload_rules(s, i));
                    }
                }
                let (_, _, removed_after) = ebsp_scan(s, k)->Ok_0;
                if removed_after == 0 {
                    assert forall|i: int| 0 <= i < k implies !#[trigger] is_emulation_prevention(s, i) by {
                        if i < j {
                            assert(!is_emulation_prevention(s, i));
                        }
                    }
                } else if removed == 0 {
                    assert(is_emulation_prevention(s, j));
                }
            } else {
                assert(breaks_payload_rules(s, j));
            }
        } else {
            let i = choose|i: int| 0 <= i < j && #[trigger] breaks_payload_rules(s, i);
            assert(0 <= i < k && breaks_payload_rules(s, i));
        }
    }
}

/// Converts an encoded byte sequence payload (EBSP) to an RBSP.
///
/// Emulation-prevention bytes in `00 00 03` sequences are removed. A terminal
/// `00 00 03` is valid. The input is borrowed when it contains no
/// emulation-prevention bytes; otherwise the returned payload owns a buffer
/// shorter than the input.
///
/// Unescaped `00 00 00`, `00 00 01`, and `00 00 02` sequences are rejected.
/// A `00 00 03` sequence followed by a byte greater than `03` is also rejected.
/// A byte is removed exactly when it is a `03` right after two zero bytes of
/// the input.
pub fn rbsp_from_ebsp(ebsp: &[u8]) -> (r: Result<Cow<'_, [u8]>, RbspError>)
    ensures
        match ebsp_scan(ebsp@, ebsp@.len()) {
            Err(e) => r == Err::<Cow<'_, [u8]>, RbspError>(e),
            Ok((kept, _, removed)) => r matches Ok(payload) && payload@ == kept && (payload matches Cow::Borrowed(
                _,
            ) <==> removed == 0),
        },
        r matches Ok(Cow::Borrowed(b)) ==> b@ == ebsp@,
        r matches Ok(Cow::Owned(v)) ==> v@.len() < ebsp@.len(),
        r is Ok <==> forall|i: int| 0 <= i < ebsp@.len() ==> !#[trigger] breaks_payload_rules(ebsp@, i),
        r matches Ok(payload) ==> payload@ == without_emulation_prevention(ebsp@, ebsp@.len()),
        r matches Err(e) ==> first_rule_broken(ebsp@, e),
        r matches Ok(payload) ==> (payload matches Cow::Borrowed(_) <==> forall|i: int|
            0 <= i < ebsp@.len() ==> !#[trigger] is_emulation_prevention(ebsp@, i)),
{
    proof {
        assert(ebsp@.len() == ebsp.len());
        lemma_ebsp_scan_removes_emulation_prevention(ebsp@, ebsp@.len());
    }
    let mut rbsp: Option<Vec<u8>> = None;
    let mut zero_count: u8 = 0;
    let mut offset: usize = 0;

    while offset < ebsp.len()
        invariant
            offset <= ebsp@.len(),
            ebsp_scan(ebsp@, offset as nat) is Ok,
            ebsp_scan(ebsp@, offset as nat)->Ok_0.1 == zero_count as nat,
            rbsp matches Some(v) ==> v@ == ebsp_scan(ebsp@, offset as nat)->Ok_0.0
                && ebsp_scan(ebsp@, offset as nat)->Ok_0.2 > 0,
            rbsp is None ==> ebsp_scan(ebsp@, offset as nat)->Ok_0.0 == ebsp@.subrange(0, offset as int)
                && ebsp_scan(ebsp@, offset as nat)->Ok_0.2 == 0,
        decreases ebsp@.len() - offset,
    {
        let byte = ebsp[offset];
        if zero_count == 2 {
            if byte <= 2 {
                proof {
                    lemma_ebsp_scan_error_persists(ebsp@, (offset + 1) as nat, ebsp@.len());
                    lemma_ebsp_scan_removes_emulation_prevention(ebsp@, ebsp@.len());
                }
                return Err(RbspError::ForbiddenSequence { offset, byte });
            }
            if byte == 3 {
                if offset + 1 < ebsp.len() {
                    let following = ebsp[offset + 1];
                    if following > 3 {
                        proof {
                            lemma_ebsp_scan_error_persists(ebsp@, (offset + 1) as nat, ebsp@.len());
                            lemma_ebsp_scan_removes_emulation_prevention(ebsp@, ebsp@.len());
                        }
                        return Err(RbspError::InvalidEmulationPrevention { offset, following });
                    }
                }
                if rbsp.is_none() {
                    rbsp = Some(slice_to_vec(slice_subrange(ebsp, 0, offset)));
                }
                zero_count = 0;
                offset = offset + 1;
                continue ;
            }
        }
        match rbsp {
            Some(ref mut output) => {
                output.push(byte);
            },
            None => {},
        }
        zero_count = if byte == 0 {
            if zero_count >= 2 {
                2
            } else {
                zero_count + 1
            }
        } else {
            0
        };
        offset = offset + 1;
        proof {
            if rbsp is None {
                assert(ebsp@.subrange(0, offset as int) == ebsp@.subrange(0, offset - 1).push(byte));
            }
        }
    }
    proof {
        lemma_ebsp_scan_accounts_for_every_byte(ebsp@, ebsp@.len());
        assert(ebsp@.subrange(0, ebsp@.len() as int) == ebsp@);
    }
    Ok(
        match rbsp {
            Some(output) => Cow::Owned(output),
            None => Cow::Borrowed(ebsp),
        },
    )
}

} // verus!
