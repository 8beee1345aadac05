//! The sliding-window scanner.
//!
//! One left-to-right pass over the buffer. At each offset the header bytes
//! are tested against the range heuristic, the geometry is computed, and both
//! axes are validated; an accepted candidate puts the scanner into a skipping
//! state for the whole candidate size, so that structures nested inside an
//! accepted table are never reported.

use vstd::prelude::*;
use vstd::slice::slice_subrange;

use crate::geometry::FormatVariant;
use crate::geometry::calc_table_size;
use crate::geometry::header_size;
use crate::geometry::spec_header_size;
use crate::geometry::spec_table_size;
use crate::table::TableParms;
use crate::table::spec_x_axis;
use crate::table::spec_y_axis;
use crate::validate::LeniencyPolicy;
use crate::validate::axis_valid;

verus! {

/// The header range heuristic on one axis-count byte: tables smaller than
/// 2x2 or at least 30 entries wide are ignored.
pub open spec fn spec_count_in_range(b: u8) -> bool {
    1 < b < 30
}

/// The declared X-axis length at a candidate offset.
pub open spec fn spec_x_at(bytes: Seq<u8>, off: int, variant: FormatVariant) -> u8 {
    match variant {
        FormatVariant::Compact => bytes[off],
        FormatVariant::Tagged => bytes[off + 1],
    }
}

/// The declared Y-axis length at a candidate offset.
pub open spec fn spec_y_at(bytes: Seq<u8>, off: int, variant: FormatVariant) -> u8 {
    match variant {
        FormatVariant::Compact => bytes[off + 1],
        FormatVariant::Tagged => bytes[off + 2],
    }
}

/// The header heuristic holds at an offset: the header fits in the buffer,
/// both declared axis lengths are in range, and for the `Tagged` variant the
/// leading marker byte is zero.
pub open spec fn spec_header_match(bytes: Seq<u8>, off: int, variant: FormatVariant) -> bool {
    &&& 0 <= off
    &&& off + spec_header_size(variant) <= bytes.len()
    &&& spec_count_in_range(spec_x_at(bytes, off, variant))
    &&& spec_count_in_range(spec_y_at(bytes, off, variant))
    &&& (variant is Tagged ==> bytes[off] == 0)
}

/// The size a candidate at this offset would have, from its header bytes.
pub open spec fn spec_size_at(bytes: Seq<u8>, off: int, variant: FormatVariant) -> nat {
    spec_table_size(
        spec_x_at(bytes, off, variant) as nat,
        spec_y_at(bytes, off, variant) as nat,
        variant,
    )
}

/// A candidate at this offset is accepted: the header heuristic holds, the
/// whole region lies inside the buffer, and both its axes are acceptably
/// monotonic.
pub open spec fn spec_candidate_ok(
    bytes: Seq<u8>,
    off: int,
    variant: FormatVariant,
    policy: LeniencyPolicy,
) -> bool {
    let x = spec_x_at(bytes, off, variant) as nat;
    let y = spec_y_at(bytes, off, variant) as nat;
    let size = spec_size_at(bytes, off, variant);
    let region = bytes.subrange(off, off + size);
    &&& spec_header_match(bytes, off, variant)
    &&& off + size <= bytes.len()
    &&& axis_valid(spec_x_axis(region, x, variant), policy)
    &&& axis_valid(spec_y_axis(region, x, y, variant), policy)
}

/// Clips a cursor position to the scan bound.
pub open spec fn spec_scan_clip(next: int, end: int) -> int {
    if next <= end {
        next
    } else {
        end
    }
}

/// The sequence of offsets the scan accepts between `off` and `end`: walk
/// byte by byte; on an accepted candidate, record its offset and resume one
/// past the end of the whole candidate.
pub open spec fn spec_scan(
    bytes: Seq<u8>,
    off: int,
    end: int,
    variant: FormatVariant,
    policy: LeniencyPolicy,
) -> Seq<int>
    decreases end - off,
{
    if off >= end {
        Seq::empty()
    } else if spec_candidate_ok(bytes, off, variant, policy) {
        seq![off] + spec_scan(
            bytes,
            spec_scan_clip(off + spec_size_at(bytes, off, variant) + 1, end),
            end,
            variant,
            policy,
        )
    } else {
        spec_scan(bytes, off + 1, end, variant, policy)
    }
}

/// The parameter record an accepted candidate at `off` carries: its fields
/// are the header's declared lengths, the geometry size, the offset itself,
/// the discovery index `count`, and a view of exactly the candidate's bytes.
pub open spec fn spec_parms_at(
    bytes: Seq<u8>,
    off: int,
    count: int,
    variant: FormatVariant,
    t: TableParms,
) -> bool {
    &&& t.x_val == spec_x_at(bytes, off, variant) as u32
    &&& t.y_val == spec_y_at(bytes, off, variant) as u32
    &&& t.start as int == off
    &&& t.size == spec_size_at(bytes, off, variant)
    &&& t.count as int == count
    &&& t.variant == variant
    &&& t.data_slice@ == bytes.subrange(off, off + spec_size_at(bytes, off, variant))
}

/// The discovery offsets of a sequence of accepted candidates.
pub open spec fn spec_starts(tables: Seq<TableParms>) -> Seq<int> {
    Seq::new(tables.len(), |k: int| tables[k].start as int)
}

/// What a completed scan of `bytes` up to `end` returns: one record per
/// offset of [`spec_scan`], in discovery order, with sequential discovery
/// indices.
pub open spec fn spec_scan_post(
    bytes: Seq<u8>,
    end: int,
    variant: FormatVariant,
    policy: LeniencyPolicy,
    tables: Seq<TableParms>,
) -> bool {
    let offs = spec_scan(bytes, 0, end, variant, policy);
    &&& tables.len() == offs.len()
    &&& forall|k: int|
        0 <= k < offs.len() ==> spec_parms_at(bytes, offs[k], k, variant, #[trigger] tables[k])
}

/// The scanner's explicit state: examining the current offset, or fast
/// forwarding through the remaining bytes of an accepted candidate.
#[derive(Clone, Copy, PartialEq, Eq, Structural, Debug)]
pub enum ScanState {
    Scanning,
    Skipping { remaining: usize },
}

/// The offset at which the scanner will next examine a candidate, given its
/// state at the current offset.
pub open spec fn spec_resume(state: ScanState, off: int) -> int {
    match state {
        ScanState::Scanning => off,
        ScanState::Skipping { remaining } => off + remaining,
    }
}

/// Tests one offset: reads the header, applies the range heuristic, computes
/// the geometry, rejects a region that would run past the buffer end, and
/// validates both axes.
fn candidate_at<'a>(
    bytes: &'a [u8],
    offset: usize,
    count: u32,
    variant: FormatVariant,
    policy: LeniencyPolicy,
) -> (r: Option<TableParms<'a>>)
    requires
        offset < bytes@.len(),
        bytes@.len() <= u32::MAX,
    ensures
        r is Some <==> spec_candidate_ok(bytes@, offset as int, variant, policy),
        r matches Some(t) ==> spec_parms_at(bytes@, offset as int, count as int, variant, t),
{
    let len: usize = bytes.len();
    let hdr: usize = header_size(variant);
    if len - offset < hdr {
        return None;
    }
    let x_b: u8;
    let y_b: u8;
    match variant {
        FormatVariant::Compact => {
            x_b = bytes[offset];
            y_b = bytes[offset + 1];
        },
        FormatVariant::Tagged => {
            if bytes[offset] != 0 {
                return None;
            }
            x_b = bytes[offset + 1];
            y_b = bytes[offset + 2];
        },
    }
    if !(x_b > 1 && x_b < 30 && y_b > 1 && y_b < 30) {
        return None;
    }
    let size: usize = calc_table_size(x_b as u32, y_b as u32, variant);
    if size > len - offset {
        return None;
    }
    let region: &[u8] = slice_subrange(bytes, offset, offset + size);
    let t = TableParms {
        x_val: x_b as u32,
        y_val: y_b as u32,
        start: offset as u32,
        size,
        count,
        variant,
        data_slice: region,
    };
    let outcome = t.check_table_validity(policy);
    if outcome.is_valid() {
        Some(t)
    } else {
        None
    }
}

/// Scans `bytes` left to right up to (exclusive) `max_address`, reporting
/// every accepted candidate in discovery order with a sequential discovery
/// index, and suppressing candidates nested inside an accepted one by
/// skipping past its whole region.
///
/// An accepted candidate may extend beyond `max_address`, but never beyond
/// the buffer itself.
pub fn scan<'a>(
    bytes: &'a [u8],
    max_address: usize,
    variant: FormatVariant,
    policy: LeniencyPolicy,
) -> (tables: Vec<TableParms<'a>>)
    requires
        max_address <= bytes@.len(),
        bytes@.len() <= u32::MAX,
    ensures
        spec_scan_post(bytes@, max_address as int, variant, policy, tables@),
{
    let ghost end: int = max_address as int;
    let mut tables: Vec<TableParms<'a>> = Vec::new();
    let mut state: ScanState = ScanState::Scanning;
    let mut offset: usize = 0;
    while offset < max_address
        invariant
            offset <= max_address <= bytes@.len() <= u32::MAX,
            end == max_address as int,
            tables@.len() <= offset,
            state matches ScanState::Skipping { remaining } ==> remaining >= 1,
            spec_scan(bytes@, 0, end, variant, policy) == spec_starts(tables@) + spec_scan(
                bytes@,
                spec_scan_clip(spec_resume(state, offset as int), end),
                end,
                variant,
                policy,
            ),
            forall|k: int|
                0 <= k < tables@.len() ==> spec_parms_at(
                    bytes@,
                    tables@[k].start as int,
                    k,
                    variant,
                    #[trigger] tables@[k],
                ),
        decreases max_address - offset,
    {
        match state {
            ScanState::Skipping { remaining } => {
                if remaining > 1 {
                    state = ScanState::Skipping { remaining: remaining - 1 };
                } else {
                    state = ScanState::Scanning;
                }
            },
            ScanState::Scanning => {
                let found = candidate_at(bytes, offset, tables.len() as u32, variant, policy);
                match found {
                    Some(t) => {
                        proof {
                            let offs = spec_starts(tables@);
                            let sz = spec_size_at(bytes@, offset as int, variant);
                            assert(spec_scan(bytes@, offset as int, end, variant, policy) == seq![
                                offset as int,
                            ] + spec_scan(
                                bytes@,
                                spec_scan_clip(offset as int + sz + 1, end),
                                end,
                                variant,
                                policy,
                            ));
                            assert(spec_starts(tables@.push(t)) =~= offs.push(offset as int));
                            assert(offs + (seq![offset as int] + spec_scan(
                                bytes@,
                                spec_scan_clip(offset as int + sz + 1, end),
                                end,
                                variant,
                                policy,
                            )) =~= offs.push(offset as int) + spec_scan(
                                bytes@,
                                spec_scan_clip(offset as int + sz + 1, end),
                                end,
                                variant,
                                policy,
                            ));
                        }
                        state = ScanState::Skipping { remaining: t.size };
                        tables.push(t);
                    },
                    None => {
                        proof {
                            assert(spec_scan(bytes@, offset as int, end, variant, policy)
                                == spec_scan(bytes@, offset as int + 1, end, variant, policy));
                        }
                    },
                }
            },
        }
        offset = offset + 1;
    }
    proof {
        assert(spec_scan_clip(spec_resume(state, offset as int), end) == end);
        assert(spec_scan(bytes@, end, end, variant, policy) == Seq::<int>::empty());
        assert(spec_starts(tables@) + Seq::<int>::empty() =~= spec_starts(tables@));
    }
    tables
}

/// Every offset a scan reports lies in `[off, end)` and is an accepted
/// candidate, and each reported offset lies strictly past the whole region
/// of the one before it: skip-ahead suppresses every candidate nested inside
/// an accepted one, and reported offsets ascend strictly.
pub proof fn lemma_scan_offsets(
    bytes: Seq<u8>,
    off: int,
    end: int,
    variant: FormatVariant,
    policy: LeniencyPolicy,
)
    ensures
        forall|k: int|
            0 <= k < spec_scan(bytes, off, end, variant, policy).len() ==> {
                &&& off <= #[trigger] spec_scan(bytes, off, end, variant, policy)[k] < end
                &&& spec_candidate_ok(
                    bytes,
                    spec_scan(bytes, off, end, variant, policy)[k],
                    variant,
                    policy,
                )
            },
        forall|k: int|
            0 <= k < spec_scan(bytes, off, end, variant, policy).len() - 1
                ==> #[trigger] spec_scan(bytes, off, end, variant, policy)[k + 1] > spec_scan(
                bytes,
                off,
                end,
                variant,
                policy,
            )[k] + spec_size_at(bytes, spec_scan(bytes, off, end, variant, policy)[k], variant),
    decreases end - off,
{
    if off >= end {
    } else if spec_candidate_ok(bytes, off, variant, policy) {
        let sz = spec_size_at(bytes, off, variant);
        let next = spec_scan_clip(off + sz + 1, end);
        let rest = spec_scan(bytes, next, end, variant, policy);
        lemma_scan_offsets(bytes, next, end, variant, policy);
        assert(spec_scan(bytes, off, end, variant, policy) == seq![off] + rest);
        assert forall|k: int|
            0 <= k < spec_scan(bytes, off, end, variant, policy).len() implies {
            &&& off <= #[trigger] spec_scan(bytes, off, end, variant, policy)[k] < end
            &&& spec_candidate_ok(
                bytes,
                spec_scan(bytes, off, end, variant, policy)[k],
                variant,
                policy,
            )
        } by {
            if k == 0 {
                assert(spec_scan(bytes, off, end, variant, policy)[0] == off);
            } else {
                assert(spec_scan(bytes, off, end, variant, policy)[k] == rest[k - 1]);
                assert(next <= rest[k - 1] < end && spec_candidate_ok(
                    bytes,
                    rest[k - 1],
                    variant,
                    policy,
                ));
            }
        }
        assert forall|k: int|
            0 <= k < spec_scan(bytes, off, end, variant, policy).len() - 1 implies #[trigger] spec_scan(
            bytes,
            off,
            end,
            variant,
            policy,
        )[k + 1] > spec_scan(bytes, off, end, variant, policy)[k] + spec_size_at(
            bytes,
            spec_scan(bytes, off, end, variant, policy)[k],
            variant,
        ) by {
            if k == 0 {
                assert(spec_scan(bytes, off, end, variant, policy)[0] == off);
                assert(spec_scan(bytes, off, end, variant, policy)[1] == rest[0]);
                assert(next <= rest[0] < end && spec_candidate_ok(bytes, rest[0], variant, policy));
            } else {
                assert(spec_scan(bytes, off, end, variant, policy)[k] == rest[k - 1]);
                assert(spec_scan(bytes, off, end, variant, policy)[k + 1] == rest[k]);
                assert(rest[(k - 1) + 1] > rest[k - 1] + spec_size_at(bytes, rest[k - 1], variant));
            }
        }
    } else {
        lemma_scan_offsets(bytes, off + 1, end, variant, policy);
        let r1 = spec_scan(bytes, off + 1, end, variant, policy);
        assert(spec_scan(bytes, off, end, variant, policy) == r1);
        assert forall|k: int|
            0 <= k < spec_scan(bytes, off, end, variant, policy).len() implies {
            &&& off <= #[trigger] spec_scan(bytes, off, end, variant, policy)[k] < end
            &&& spec_candidate_ok(
                bytes,
                spec_scan(bytes, off, end, variant, policy)[k],
                variant,
                policy,
            )
        } by {
            assert(off + 1 <= r1[k] < end && spec_candidate_ok(bytes, r1[k], variant, policy));
        }
        assert forall|k: int|
            0 <= k < spec_scan(bytes, off, end, variant, policy).len() - 1 implies #[trigger] spec_scan(
            bytes,
            off,
            end,
            variant,
            policy,
        )[k + 1] > spec_scan(bytes, off, end, variant, policy)[k] + spec_size_at(
            bytes,
            spec_scan(bytes, off, end, variant, policy)[k],
            variant,
        ) by {
            assert(r1[k + 1] > r1[k] + spec_size_at(bytes, r1[k], variant));
        }
    }
}

/// A stretch of the buffer with no accepted candidate contributes nothing.
pub proof fn lemma_scan_none(
    bytes: Seq<u8>,
    off: int,
    end: int,
    variant: FormatVariant,
    policy: LeniencyPolicy,
)
    requires
        forall|j: int| off <= j < end ==> !spec_candidate_ok(bytes, j, variant, policy),
    ensures
        spec_scan(bytes, off, end, variant, policy) == Seq::<int>::empty(),
    decreases end - off,
{
    if off >= end {
    } else {
        lemma_scan_none(bytes, off + 1, end, variant, policy);
    }
}

/// Walking over a stretch with no accepted candidate reaches its far end.
pub proof fn lemma_scan_advance_to(
    bytes: Seq<u8>,
    off: int,
    o: int,
    end: int,
    variant: FormatVariant,
    policy: LeniencyPolicy,
)
    requires
        off <= o <= end,
        forall|j: int| off <= j < o ==> !spec_candidate_ok(bytes, j, variant, policy),
    ensures
        spec_scan(bytes, off, end, variant, policy) == spec_scan(bytes, o, end, variant, policy),
    decreases o - off,
{
    if off < o {
        lemma_scan_advance_to(bytes, off + 1, o, end, variant, policy);
    }
}

/// A buffer whose only accepted candidate below the bound starts at `o`
/// yields exactly that one offset: the scan finds an embedded well-formed
/// table, and reports it once.
pub proof fn lemma_scan_single(
    bytes: Seq<u8>,
    o: int,
    end: int,
    variant: FormatVariant,
    policy: LeniencyPolicy,
)
    requires
        0 <= o < end,
        spec_candidate_ok(bytes, o, variant, policy),
        forall|j: int|
            0 <= j < end && j != o ==> !spec_candidate_ok(bytes, j, variant, policy),
    ensures
        spec_scan(bytes, 0, end, variant, policy) == seq![o],
{
    lemma_scan_advance_to(bytes, 0, o, end, variant, policy);
    let next = spec_scan_clip(o + spec_size_at(bytes, o, variant) + 1, end);
    lemma_scan_none(bytes, next, end, variant, policy);
    assert(seq![o] + Seq::<int>::empty() =~= seq![o]);
}

/// Reported offsets ascend strictly even across gaps: a later candidate
/// starts past the whole region of any earlier one.
pub proof fn lemma_scan_offsets_ascending(
    bytes: Seq<u8>,
    off: int,
    end: int,
    variant: FormatVariant,
    policy: LeniencyPolicy,
    i: int,
    j: int,
)
    requires
        0 <= i < j < spec_scan(bytes, off, end, variant, policy).len(),
    ensures
        spec_scan(bytes, off, end, variant, policy)[j] > spec_scan(bytes, off, end, variant, policy)[i]
            + spec_size_at(bytes, spec_scan(bytes, off, end, variant, policy)[i], variant),
    decreases j - i,
{
    lemma_scan_offsets(bytes, off, end, variant, policy);
    let r = spec_scan(bytes, off, end, variant, policy);
    if j == i + 1 {
        assert(r[i + 1] > r[i] + spec_size_at(bytes, r[i], variant));
    } else {
        lemma_scan_offsets_ascending(bytes, off, end, variant, policy, i, j - 1);
        assert(r[(j - 1) + 1] > r[j - 1] + spec_size_at(bytes, r[j - 1], variant));
    }
}

/// What the scan's postcondition means record by record: every reported
/// candidate is well-formed, holds exactly its region's bytes, has both axes
/// acceptably monotonic, lies whole inside the buffer and starts below the
/// bound, carries its discovery index, and starts past the whole region of
/// every candidate reported before it.
pub proof fn lemma_scan_results<'a>(
    bytes: Seq<u8>,
    end: int,
    variant: FormatVariant,
    policy: LeniencyPolicy,
    tables: Seq<TableParms<'a>>,
)
    requires
        0 <= end <= bytes.len(),
        spec_scan_post(bytes, end, variant, policy, tables),
    ensures
        forall|k: int|
            0 <= k < tables.len() ==> {
                &&& (#[trigger] tables[k]).wf()
                &&& tables[k].spec_axes_valid(policy)
                &&& tables[k].data_slice@ == bytes.subrange(
                    tables[k].start as int,
                    tables[k].start + tables[k].size,
                )
                &&& 0 <= tables[k].start < end
                &&& tables[k].start + tables[k].size <= bytes.len()
                &&& tables[k].count == k
                &&& tables[k].variant == variant
            },
        forall|i: int, j: int|
            0 <= i < j < tables.len() ==> (#[trigger] tables[j]).start > (#[trigger] tables[i]).start
                + tables[i].size,
{
    let offs = spec_scan(bytes, 0, end, variant, policy);
    lemma_scan_offsets(bytes, 0, end, variant, policy);
    assert forall|k: int| 0 <= k < tables.len() implies {
        &&& (#[trigger] tables[k]).wf()
        &&& tables[k].spec_axes_valid(policy)
        &&& tables[k].data_slice@ == bytes.subrange(
            tables[k].start as int,
            tables[k].start + tables[k].size,
        )
        &&& 0 <= tables[k].start < end
        &&& tables[k].start + tables[k].size <= bytes.len()
        &&& tables[k].count == k
        &&& tables[k].variant == variant
    } by {
        assert(spec_parms_at(bytes, offs[k], k, variant, tables[k]));
        assert(spec_candidate_ok(bytes, offs[k], variant, policy));
    }
    assert forall|i: int, j: int|
        0 <= i < j < tables.len() implies (#[trigger] tables[j]).start > (#[trigger] tables[i]).start
        + tables[i].size by {
        assert(spec_parms_at(bytes, offs[i], i, variant, tables[i]));
        assert(spec_parms_at(bytes, offs[j], j, variant, tables[j]));
        lemma_scan_offsets_ascending(bytes, 0, end, variant, policy, i, j);
    }
}

/// Determinism: two result sequences that both satisfy the scan's
/// postcondition for one buffer, bound, variant and policy agree in length,
/// in every candidate's parameters, and in every candidate's bytes.
pub proof fn lemma_scan_deterministic<'a, 'b>(
    bytes: Seq<u8>,
    end: int,
    variant: FormatVariant,
    policy: LeniencyPolicy,
    r1: Seq<TableParms<'a>>,
    r2: Seq<TableParms<'b>>,
)
    requires
        spec_scan_post(bytes, end, variant, policy, r1),
        spec_scan_post(bytes, end, variant, policy, r2),
    ensures
        r1.len() == r2.len(),
        forall|k: int|
            0 <= k < r1.len() ==> {
                &&& (#[trigger] r1[k]).x_val == r2[k].x_val
                &&& r1[k].y_val == r2[k].y_val
                &&& r1[k].start == r2[k].start
                &&& r1[k].size == r2[k].size
                &&& r1[k].count == r2[k].count
                &&& r1[k].variant == r2[k].variant
                &&& r1[k].data_slice@ == r2[k].data_slice@
            },
{
    let offs = spec_scan(bytes, 0, end, variant, policy);
    assert forall|k: int| 0 <= k < r1.len() implies {
        &&& (#[trigger] r1[k]).x_val == r2[k].x_val
        &&& r1[k].y_val == r2[k].y_val
        &&& r1[k].start == r2[k].start
        &&& r1[k].size == r2[k].size
        &&& r1[k].count == r2[k].count
        &&& r1[k].variant == r2[k].variant
        &&& r1[k].data_slice@ == r2[k].data_slice@
    } by {
        assert(spec_parms_at(bytes, offs[k], k, variant, r1[k]));
        assert(spec_parms_at(bytes, offs[k], k, variant, r2[k]));
    }
}

} // verus!
