use vstd::prelude::*;

use crate::ext::{ext_pow, ext_pow_spec, ext_wf, ExtFp};

verus! {

/// Index of the control-column group in a register-group sequence.
pub const REGISTER_GROUP_CTRL: usize = 0;

/// Index of the data-column group in a register-group sequence.
pub const REGISTER_GROUP_DATA: usize = 1;

/// Index of the accumulation-column group in a register-group sequence.
pub const REGISTER_GROUP_ACCUM: usize = 2;

/// A register-group sequence holds exactly the three named groups.
pub const NUM_REGISTER_GROUPS: usize = 3;

/// Index of the challenge-mix vector in a globals sequence.
pub const GLOBAL_MIX: usize = 0;

/// Index of the public-output vector in a globals sequence.
pub const GLOBAL_OUT: usize = 1;

/// A globals sequence holds exactly the two named vectors.
pub const NUM_GLOBALS: usize = 2;

/// The fixed inverse-rate blowup between the trace domain and the
/// evaluation domain.
pub const INV_RATE: usize = 4;

/// Base-2 logarithm of `INV_RATE`.
pub const LOG_INV_RATE: usize = 2;

/// Number of challenge powers the fixed constraint polynomial consumes:
/// one per mixed constraint term.
pub const NUM_POLY_MIX_POWERS: usize = 3;

/// The fixed exponent schedule for the challenge powers: term `j` of the
/// constraint polynomial is weighted by the challenge raised to this
/// exponent.
pub open spec fn mix_schedule_spec(j: int) -> nat {
    if j == 0 {
        0
    } else if j == 1 {
        1
    } else {
        2
    }
}

/// The fixed exponent schedule, as host data.
pub fn mix_schedule() -> (r: Vec<u64>)
    ensures
        r@.len() == NUM_POLY_MIX_POWERS,
        forall|j: int| 0 <= j < r@.len() ==> (#[trigger] r@[j]) as nat == mix_schedule_spec(j),
{
    let mut v: Vec<u64> = Vec::new();
    v.push(0);
    v.push(1);
    v.push(2);
    v
}

/// The challenge powers every domain point sees: entry `j` is the
/// challenge raised to the fixed schedule's exponent `j`.
pub open spec fn mix_pows_spec(poly_mix: ExtFp) -> Seq<ExtFp> {
    Seq::new(NUM_POLY_MIX_POWERS as nat, |j: int| ext_pow_spec(poly_mix, mix_schedule_spec(j)))
}

/// Raise the challenge to every exponent of a schedule.  This runs once
/// per evaluation call, never once per point, so all points of a call see
/// an identical challenge weighting.
pub fn mix_powers(poly_mix: ExtFp, schedule: &Vec<u64>) -> (r: Vec<ExtFp>)
    requires
        ext_wf(poly_mix),
    ensures
        r@.len() == schedule@.len(),
        forall|j: int|
            0 <= j < r@.len() ==> #[trigger] r@[j] == ext_pow_spec(
                poly_mix,
                schedule@[j] as nat,
            ),
        forall|j: int| 0 <= j < r@.len() ==> ext_wf(#[trigger] r@[j]),
{
    let mut r: Vec<ExtFp> = Vec::new();
    let mut i: usize = 0;
    let len: usize = schedule.len();
    while i < len
        invariant
            i <= len,
            len == schedule@.len(),
            ext_wf(poly_mix),
            r@.len() == i,
            forall|j: int|
                0 <= j < i ==> #[trigger] r@[j] == ext_pow_spec(poly_mix, schedule@[j] as nat),
            forall|j: int| 0 <= j < i ==> ext_wf(#[trigger] r@[j]),
        decreases len - i,
    {
        r.push(ext_pow(poly_mix, schedule[i]));
        i = i + 1;
    }
    r
}

} // verus!
