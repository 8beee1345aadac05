//! Candidate table regions and their structural projections.
//!
//! A [`TableParms`] is a read-only view of one buffer sub-range for one
//! format variant. Within the sub-range the layout is the header, then
//! `x_val` bytes of X-axis, then `y_val` stride blocks of `x_val + 1` bytes
//! each: one leading Y-axis marker byte and `x_val` bytes of row payload.

use vstd::prelude::*;
use vstd::slice::slice_subrange;
use vstd::slice::slice_to_vec;

use crate::geometry::FormatVariant;
use crate::geometry::header_size;
use crate::geometry::spec_header_size;
use crate::geometry::spec_table_size;
use crate::validate::AxisKind;
use crate::validate::LeniencyPolicy;
use crate::validate::ValidationOutcome;
use crate::validate::axis_step_ok;
use crate::validate::axis_valid;
use crate::validate::test_axis_goes_increasing;

verus! {

/// The X-axis of a table region: the `x_val` bytes just after the header.
pub open spec fn spec_x_axis(data: Seq<u8>, x_val: nat, variant: FormatVariant) -> Seq<u8> {
    data.subrange(
        spec_header_size(variant) as int,
        spec_header_size(variant) + x_val as int,
    )
}

/// Absolute position, within a table region, of the Y-axis marker byte that
/// leads stride block `i`.
pub open spec fn spec_stride_base(x_val: nat, variant: FormatVariant, i: int) -> int {
    spec_header_size(variant) + x_val + i * (x_val + 1)
}

/// The Y-axis of a table region: the first byte of each stride block.
pub open spec fn spec_y_axis(data: Seq<u8>, x_val: nat, y_val: nat, variant: FormatVariant) -> Seq<
    u8,
> {
    Seq::new(y_val, |i: int| data[spec_stride_base(x_val, variant, i)])
}

/// Row `i` of a table region: the `x_val` payload bytes of stride block `i`,
/// after its leading marker byte.
pub open spec fn spec_row(data: Seq<u8>, x_val: nat, variant: FormatVariant, i: int) -> Seq<u8> {
    data.subrange(
        spec_stride_base(x_val, variant, i) + 1,
        spec_stride_base(x_val, variant, i) + 1 + x_val,
    )
}

/// All `y_val` rows of a table region.
pub open spec fn spec_rows(data: Seq<u8>, x_val: nat, y_val: nat, variant: FormatVariant) -> Seq<
    Seq<u8>,
> {
    Seq::new(y_val, |i: int| spec_row(data, x_val, variant, i))
}

/// Every byte of stride block `i` lies between the end of the X-axis and the
/// end of the table region.
pub proof fn lemma_stride_in_table(x_val: nat, y_val: nat, i: int, variant: FormatVariant)
    requires
        0 <= i < y_val,
        1 <= x_val,
    ensures
        spec_header_size(variant) + x_val <= spec_stride_base(x_val, variant, i),
        spec_stride_base(x_val, variant, i) + 1 + x_val <= spec_table_size(x_val, y_val, variant),
    decreases i,
{
    if i == 0 {
        assert(spec_stride_base(x_val, variant, 0) + 1 + x_val <= spec_table_size(
            x_val,
            y_val,
            variant,
        )) by (nonlinear_arith)
            requires
                1 <= x_val,
                1 <= y_val,
        ;
    } else {
        lemma_stride_in_table(x_val, (y_val - 1) as nat, i - 1, variant);
        assert(i * (x_val + 1) == (i - 1) * (x_val + 1) + (x_val + 1)) by (nonlinear_arith);
        assert(x_val * ((y_val - 1) as nat) + x_val == x_val * y_val) by (nonlinear_arith)
            requires
                y_val >= 1,
        ;
    }
}

/// One candidate table region: its axis lengths, its absolute position and
/// size within the scanned buffer, its discovery index, its header variant,
/// and a borrowed view of its bytes.
#[derive(Clone, Copy, Debug)]
pub struct TableParms<'a> {
    pub x_val: u32,
    pub y_val: u32,
    pub start: u32,
    pub size: usize,
    pub count: u32,
    pub variant: FormatVariant,
    pub data_slice: &'a [u8],
}

impl<'a> TableParms<'a> {
    /// Well-formedness: both axis lengths are in the heuristic range, the
    /// size matches the geometry formula, and the borrowed slice holds at
    /// least the whole region.
    pub open spec fn wf(self) -> bool {
        &&& 1 < self.x_val < 30
        &&& 1 < self.y_val < 30
        &&& self.size == spec_table_size(self.x_val as nat, self.y_val as nat, self.variant)
        &&& self.size <= self.data_slice@.len()
    }

    /// The X-axis of this candidate.
    pub open spec fn spec_x_axis_of(self) -> Seq<u8> {
        spec_x_axis(self.data_slice@, self.x_val as nat, self.variant)
    }

    /// The Y-axis of this candidate.
    pub open spec fn spec_y_axis_of(self) -> Seq<u8> {
        spec_y_axis(self.data_slice@, self.x_val as nat, self.y_val as nat, self.variant)
    }

    /// Both axes of this candidate are acceptably monotonic.
    pub open spec fn spec_axes_valid(self, policy: LeniencyPolicy) -> bool {
        &&& axis_valid(self.spec_x_axis_of(), policy)
        &&& axis_valid(self.spec_y_axis_of(), policy)
    }

    /// Extracts the X-axis: `x_val` bytes taken immediately after the header.
    pub fn get_x_axis(&self) -> (axis: Vec<u8>)
        requires
            self.wf(),
        ensures
            axis@ == self.spec_x_axis_of(),
    {
        let hdr: usize = header_size(self.variant);
        slice_to_vec(slice_subrange(self.data_slice, hdr, hdr + self.x_val as usize))
    }

    /// Extracts the Y-axis: the first byte of each `(x_val + 1)`-byte stride
    /// block in the post-X-axis region.
    pub fn get_y_axis(&self) -> (axis: Vec<u8>)
        requires
            self.wf(),
        ensures
            axis@ == self.spec_y_axis_of(),
    {
        let hdr: usize = header_size(self.variant);
        let x: usize = self.x_val as usize;
        let y: usize = self.y_val as usize;
        let mut axis: Vec<u8> = Vec::new();
        let mut i: usize = 0;
        while i < y
            invariant
                i <= y,
                axis@.len() == i,
                self.wf(),
                hdr == spec_header_size(self.variant),
                x == self.x_val && y == self.y_val,
                forall|j: int|
                    0 <= j < i ==> axis@[j] == self.data_slice@[spec_stride_base(
                        x as nat,
                        self.variant,
                        j,
                    )],
            decreases y - i,
        {
            proof {
                lemma_stride_in_table(x as nat, y as nat, i as int, self.variant);
                assert(i * (x + 1) <= (y - 1) * (x + 1) < spec_table_size(
                    x as nat,
                    y as nat,
                    self.variant,
                )) by (nonlinear_arith)
                    requires
                        0 <= i < y,
                        1 <= x,
                ;
            }
            let pos: usize = hdr + x + i * (x + 1);
            axis.push(self.data_slice[pos]);
            i = i + 1;
        }
        proof {
            assert(axis@ =~= self.spec_y_axis_of());
        }
        axis
    }

    /// Extracts the rows: for each stride block, the `x_val` payload bytes
    /// after its leading marker byte.
    pub fn get_rows(&self) -> (rows: Vec<Vec<u8>>)
        requires
            self.wf(),
        ensures
            rows@.len() == self.y_val as nat,
            forall|i: int|
                0 <= i < self.y_val ==> #[trigger] rows@[i]@ == spec_row(
                    self.data_slice@,
                    self.x_val as nat,
                    self.variant,
                    i,
                ),
    {
        let hdr: usize = header_size(self.variant);
        let x: usize = self.x_val as usize;
        let y: usize = self.y_val as usize;
        let mut rows: Vec<Vec<u8>> = Vec::new();
        let mut i: usize = 0;
        while i < y
            invariant
                i <= y,
                rows@.len() == i,
                self.wf(),
                hdr == spec_header_size(self.variant),
                x == self.x_val && y == self.y_val,
                forall|j: int|
                    0 <= j < i ==> #[trigger] rows@[j]@ == spec_row(
                        self.data_slice@,
                        x as nat,
                        self.variant,
                        j,
                    ),
            decreases y - i,
        {
            proof {
                lemma_stride_in_table(x as nat, y as nat, i as int, self.variant);
                assert(i * (x + 1) <= (y - 1) * (x + 1) < spec_table_size(
                    x as nat,
                    y as nat,
                    self.variant,
                )) by (nonlinear_arith)
                    requires
                        0 <= i < y,
                        1 <= x,
                ;
            }
            let base: usize = hdr + x + i * (x + 1);
            let row: Vec<u8> = slice_to_vec(slice_subrange(self.data_slice, base + 1, base + 1 + x));
            rows.push(row);
            i = i + 1;
        }
        rows
    }

    /// Absolute end of this candidate: its start plus its size.
    pub fn get_table_end(&self) -> (end: u32)
        requires
            self.start + self.size <= u32::MAX,
        ensures
            end == self.start + self.size,
    {
        self.start + self.size as u32
    }

    /// Validates both axes of this candidate under the given policy: the
    /// X-axis first, then the Y-axis. The outcome is `Valid` exactly when
    /// both axes are acceptably monotonic; otherwise it names the first
    /// failing axis and the first failing position within it.
    pub fn check_table_validity(&self, policy: LeniencyPolicy) -> (outcome: ValidationOutcome)
        requires
            self.wf(),
        ensures
            outcome is Valid <==> self.spec_axes_valid(policy),
            outcome matches ValidationOutcome::Invalid { axis: k, position } ==> {
                ||| {
                    &&& k == AxisKind::X
                    &&& !axis_valid(self.spec_x_axis_of(), policy)
                    &&& 0 < position < self.spec_x_axis_of().len()
                    &&& !axis_step_ok(
                        self.spec_x_axis_of()[position - 1],
                        self.spec_x_axis_of()[position as int],
                        policy,
                    )
                }
                ||| {
                    &&& k == AxisKind::Y
                    &&& axis_valid(self.spec_x_axis_of(), policy)
                    &&& !axis_valid(self.spec_y_axis_of(), policy)
                    &&& 0 < position < self.spec_y_axis_of().len()
                    &&& !axis_step_ok(
                        self.spec_y_axis_of()[position - 1],
                        self.spec_y_axis_of()[position as int],
                        policy,
                    )
                }
            },
    {
        let x_axis: Vec<u8> = self.get_x_axis();
        let x_outcome: ValidationOutcome = test_axis_goes_increasing(
            x_axis.as_slice(),
            AxisKind::X,
            policy,
        );
        match x_outcome {
            ValidationOutcome::Invalid { .. } => x_outcome,
            ValidationOutcome::Valid => {
                let y_axis: Vec<u8> = self.get_y_axis();
                test_axis_goes_increasing(y_axis.as_slice(), AxisKind::Y, policy)
            },
        }
    }
}

} // verus!
