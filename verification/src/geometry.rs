//! Table geometry: the two header format variants and the size formula.

use vstd::prelude::*;

verus! {

/// The two header shapes a table region may start with.
///
/// `Compact` is a 2-byte header holding `x_count, y_count`. `Tagged` is a
/// 3-byte header holding a zero marker byte followed by `x_count, y_count`.
#[derive(Clone, Copy, PartialEq, Eq, Structural, Debug)]
pub enum FormatVariant {
    Compact,
    Tagged,
}

/// Number of header bytes of a variant: 2 for `Compact`, 3 for `Tagged`.
pub open spec fn spec_header_size(variant: FormatVariant) -> nat {
    match variant {
        FormatVariant::Compact => 2,
        FormatVariant::Tagged => 3,
    }
}

/// Executable counterpart of [`spec_header_size`].
pub fn header_size(variant: FormatVariant) -> (n: usize)
    ensures
        n == spec_header_size(variant),
{
    match variant {
        FormatVariant::Compact => 2,
        FormatVariant::Tagged => 3,
    }
}

/// Total byte size of a table region: the header, the contiguous X-axis,
/// one Y-axis marker byte per row, and the row payloads themselves.
pub open spec fn spec_table_size(x_val: nat, y_val: nat, variant: FormatVariant) -> nat {
    spec_header_size(variant) + x_val + y_val + x_val * y_val
}

/// Computes the byte size of a candidate table region from its axis lengths
/// and header variant.
pub fn calc_table_size(x_val: u32, y_val: u32, variant: FormatVariant) -> (size: usize)
    requires
        x_val < 30,
        y_val < 30,
    ensures
        size == spec_table_size(x_val as nat, y_val as nat, variant),
{
    proof {
        assert(x_val * y_val < 900) by (nonlinear_arith)
            requires
                x_val < 30,
                y_val < 30,
        ;
    }
    header_size(variant) + x_val as usize + y_val as usize + (x_val as usize) * (y_val as usize)
}

} // verus!
