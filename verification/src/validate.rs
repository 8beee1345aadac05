//! Axis monotonicity validation.
//!
//! Calibration axes are index breakpoints and must be strictly increasing,
//! but some table compilers emit placeholder zeros before the real data
//! begins. The leniency toward such a leading zero run is configurable.

use vstd::prelude::*;

verus! {

/// How the validator treats values that are not strictly increasing.
///
/// `LeadingZeroRun` accepts any step whose predecessor is zero, so a run of
/// zeros at the very start of an axis (e.g. `[0, 0, 3, 5]`) does not count as
/// a monotonicity violation. `Strict` demands a strict increase after the
/// first element.
#[derive(Clone, Copy, PartialEq, Eq, Structural, Debug)]
pub enum LeniencyPolicy {
    LeadingZeroRun,
    Strict,
}

/// Which of the two axes of a candidate failed validation.
#[derive(Clone, Copy, PartialEq, Eq, Structural, Debug)]
pub enum AxisKind {
    X,
    Y,
}

/// Owned outcome of validating a candidate or one of its axes.
#[derive(Clone, Copy, PartialEq, Eq, Structural, Debug)]
pub enum ValidationOutcome {
    Valid,
    Invalid { axis: AxisKind, position: usize },
}

impl ValidationOutcome {
    /// True exactly on the `Valid` outcome.
    pub fn is_valid(&self) -> (r: bool)
        ensures
            r == (*self is Valid),
    {
        match self {
            ValidationOutcome::Valid => true,
            ValidationOutcome::Invalid { .. } => false,
        }
    }
}

/// One acceptable step of an axis: the value grows strictly, or, under the
/// `LeadingZeroRun` policy, the previous value is still zero.
pub open spec fn axis_step_ok(prev: u8, cur: u8, policy: LeniencyPolicy) -> bool {
    cur > prev || (policy == LeniencyPolicy::LeadingZeroRun && prev == 0)
}

/// An axis is acceptably monotonic when every adjacent step is acceptable.
/// Empty and single-element axes are trivially valid.
pub open spec fn axis_valid(axis: Seq<u8>, policy: LeniencyPolicy) -> bool {
    forall|i: int| 0 < i < axis.len() ==> axis_step_ok(axis[i - 1], #[trigger] axis[i], policy)
}

/// Executable counterpart of [`axis_step_ok`].
fn step_ok(prev: u8, cur: u8, policy: LeniencyPolicy) -> (r: bool)
    ensures
        r == axis_step_ok(prev, cur, policy),
{
    cur > prev || (matches!(policy, LeniencyPolicy::LeadingZeroRun) && prev == 0)
}

/// Checks that an axis is acceptably monotonic under the given policy.
///
/// On failure the outcome carries the given axis kind and the position of the
/// first value that breaks the rule; everything before that position is
/// acceptable.
pub fn test_axis_goes_increasing(axis: &[u8], kind: AxisKind, policy: LeniencyPolicy) -> (outcome:
    ValidationOutcome)
    ensures
        outcome is Valid <==> axis_valid(axis@, policy),
        outcome matches ValidationOutcome::Invalid { axis: k, position } ==> {
            &&& k == kind
            &&& 0 < position < axis@.len()
            &&& !axis_step_ok(axis@[position - 1], axis@[position as int], policy)
            &&& axis_valid(axis@.subrange(0, position as int), policy)
        },
{
    if axis.len() == 0 {
        return ValidationOutcome::Valid;
    }
    let mut i: usize = 1;
    while i < axis.len()
        invariant
            1 <= i <= axis@.len(),
            axis_valid(axis@.subrange(0, i as int), policy),
        decreases axis@.len() - i,
    {
        if !step_ok(axis[i - 1], axis[i], policy) {
            proof {
                assert(!axis_valid(axis@, policy)) by {
                    if axis_valid(axis@, policy) {
                        assert(axis_step_ok(axis@[i - 1], #[trigger] axis@[i as int], policy));
                    }
                }
            }
            return ValidationOutcome::Invalid { axis: kind, position: i };
        }
        proof {
            let pre = axis@.subrange(0, i as int);
            let ext = axis@.subrange(0, i + 1);
            assert forall|j: int| 0 < j < ext.len() implies axis_step_ok(
                ext[j - 1],
                #[trigger] ext[j],
                policy,
            ) by {
                if j < i {
                    assert(axis_step_ok(pre[j - 1], #[trigger] pre[j], policy));
                    assert(ext[j - 1] == pre[j - 1] && ext[j] == pre[j]);
                } else {
                    assert(ext[j - 1] == axis@[i - 1] && ext[j] == axis@[i as int]);
                }
            }
        }
        i = i + 1;
    }
    proof {
        assert(axis@.subrange(0, axis@.len() as int) =~= axis@);
    }
    ValidationOutcome::Valid
}

} // verus!
