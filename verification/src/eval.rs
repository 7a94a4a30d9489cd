use vstd::prelude::*;
use vstd::arithmetic::div_mod::{lemma_mod_bound, lemma_small_mod};

use crate::buffer::{buf_wf, FpBuffer};
use crate::errors::EvalError;
use crate::ext::{
    ext_add, ext_add_spec, ext_from_base, ext_from_base_spec, ext_mul, ext_mul_spec, ext_one_spec,
    ext_wf, ext_zero_spec, lemma_ext_mul_zero_right, lemma_ext_pow_low, ExtFp,
};
use crate::field::{
    fp_add, fp_add_spec, fp_mul, fp_mul_spec, fp_pow, fp_pow_spec, fp_wf, fp_zero, pow2_spec,
    root_of_unity, rou_spec, Fp, PRIME, ROU_MAX_PO2,
};
use crate::layout::{
    mix_pows_spec, mix_powers, mix_schedule, mix_schedule_spec, INV_RATE, LOG_INV_RATE,
    GLOBAL_MIX, GLOBAL_OUT, NUM_GLOBALS, NUM_POLY_MIX_POWERS, NUM_REGISTER_GROUPS,
    REGISTER_GROUP_ACCUM, REGISTER_GROUP_CTRL, REGISTER_GROUP_DATA,
};

verus! {

proof fn lemma_pow2_le(a: nat, b: nat)
    requires
        a <= b,
    ensures
        pow2_spec(a) <= pow2_spec(b),
        pow2_spec(a) >= 1,
    decreases b,
{
    if a < b {
        lemma_pow2_le(a, (b - 1) as nat);
    } else if a > 0 {
        lemma_pow2_le((a - 1) as nat, (a - 1) as nat);
    }
}

proof fn lemma_pow2_table()
    ensures
        pow2_spec(ROU_MAX_PO2 as nat) == 65536,
        pow2_spec((ROU_MAX_PO2 - LOG_INV_RATE) as nat) == 16384,
{
    assert(pow2_spec(0) == 1);
    assert(pow2_spec(1) == 2);
    assert(pow2_spec(2) == 4);
    assert(pow2_spec(3) == 8);
    assert(pow2_spec(4) == 16);
    assert(pow2_spec(5) == 32);
    assert(pow2_spec(6) == 64);
    assert(pow2_spec(7) == 128);
    assert(pow2_spec(8) == 256);
    assert(pow2_spec(9) == 512);
    assert(pow2_spec(10) == 1024);
    assert(pow2_spec(11) == 2048);
    assert(pow2_spec(12) == 4096);
    assert(pow2_spec(13) == 8192);
    assert(pow2_spec(14) == 16384);
    assert(pow2_spec(15) == 32768);
    assert(pow2_spec(16) == 65536);
}

/// Compute 2^k for a logarithm within the root-of-unity table's range.
fn pow2(k: usize) -> (r: usize)
    requires
        k <= ROU_MAX_PO2,
    ensures
        r == pow2_spec(k as nat),
        1 <= r <= 65536,
{
    proof {
        lemma_pow2_table();
    }
    let mut s: usize = 1;
    let mut i: usize = 0;
    while i < k
        invariant
            i <= k,
            k <= ROU_MAX_PO2,
            s == pow2_spec(i as nat),
            s <= 65536,
        decreases k - i,
    {
        proof {
            lemma_pow2_le((i + 1) as nat, ROU_MAX_PO2 as nat);
            lemma_pow2_table();
        }
        s = s * 2;
        i = i + 1;
    }
    proof {
        lemma_pow2_le(k as nat, k as nat);
    }
    s
}

/// The register groups and globals have the required counts and every
/// group buffer covers exactly the trace domain.
pub open spec fn counts_and_sizes_ok(
    groups: Seq<FpBuffer>,
    globals: Seq<FpBuffer>,
    steps: nat,
) -> bool {
    &&& groups.len() == NUM_REGISTER_GROUPS
    &&& globals.len() == NUM_GLOBALS
    &&& forall|g: int| 0 <= g < groups.len() ==> (#[trigger] groups[g])@.len() == steps
}

/// The blown-up domain still fits the root-of-unity table.
pub open spec fn po2_in_range(po2: nat) -> bool {
    po2 + LOG_INV_RATE <= ROU_MAX_PO2
}

/// The claimed trace-domain size matches its logarithm and the check
/// buffer covers exactly the blown-up evaluation domain.
pub open spec fn domain_ok(check_len: nat, po2: nat, steps: nat) -> bool {
    &&& steps == pow2_spec(po2)
    &&& check_len == steps * INV_RATE
}

/// Everything an evaluation call validates before writing anything.
pub open spec fn inputs_ok(
    groups: Seq<FpBuffer>,
    globals: Seq<FpBuffer>,
    check_len: nat,
    po2: nat,
    steps: nat,
) -> bool {
    &&& counts_and_sizes_ok(groups, globals, steps)
    &&& po2_in_range(po2)
    &&& domain_ok(check_len, po2, steps)
}

/// Validate one evaluation call's layout and domain parameters, and look
/// up the evaluation domain's root of unity.  Malformed counts or sizes
/// are rejected before the domain logarithm is examined, so a caller that
/// passes consistent buffers with an oversized `po2` sees
/// `DomainTooLarge`, and one that passes inconsistent buffers sees
/// `InvalidLayout`.
fn validate(
    check_len: usize,
    groups: &Vec<FpBuffer>,
    globals: &Vec<FpBuffer>,
    po2: usize,
    steps: usize,
) -> (r: Result<Fp, EvalError>)
    ensures
        r is Ok <==> inputs_ok(groups@, globals@, check_len as nat, po2 as nat, steps as nat),
        !counts_and_sizes_ok(groups@, globals@, steps as nat) ==> r == Err::<Fp, EvalError>(
            EvalError::InvalidLayout,
        ),
        counts_and_sizes_ok(groups@, globals@, steps as nat) && !po2_in_range(po2 as nat) ==> r
            == Err::<Fp, EvalError>(EvalError::DomainTooLarge),
        counts_and_sizes_ok(groups@, globals@, steps as nat) && po2_in_range(po2 as nat)
            && !domain_ok(check_len as nat, po2 as nat, steps as nat) ==> r == Err::<Fp, EvalError>(
            EvalError::InvalidLayout,
        ),
        r is Ok ==> r == Ok::<Fp, EvalError>(rou_spec((po2 + LOG_INV_RATE) as nat)) && fp_wf(
            rou_spec((po2 + LOG_INV_RATE) as nat),
        ) && 1 <= steps <= 16384 && check_len == steps * INV_RATE,
{
    if groups.len() != NUM_REGISTER_GROUPS {
        return Err(EvalError::InvalidLayout);
    }
    if globals.len() != NUM_GLOBALS {
        return Err(EvalError::InvalidLayout);
    }
    if groups[REGISTER_GROUP_CTRL].size() != steps || groups[REGISTER_GROUP_DATA].size() != steps
        || groups[REGISTER_GROUP_ACCUM].size() != steps {
        return Err(EvalError::InvalidLayout);
    }
    assert(counts_and_sizes_ok(groups@, globals@, steps as nat)) by {
        assert forall|g: int| 0 <= g < groups@.len() implies (#[trigger] groups@[g])@.len()
            == steps as nat by {
            assert(g == 0 || g == 1 || g == 2);
        }
    }
    if po2 > ROU_MAX_PO2 - LOG_INV_RATE {
        return Err(EvalError::DomainTooLarge);
    }
    let expected: usize = pow2(po2);
    if steps != expected {
        return Err(EvalError::InvalidLayout);
    }
    if check_len != steps * INV_RATE {
        return Err(EvalError::InvalidLayout);
    }
    proof {
        lemma_pow2_table();
        lemma_pow2_le(po2 as nat, (ROU_MAX_PO2 - LOG_INV_RATE) as nat);
    }
    match root_of_unity(po2 + LOG_INV_RATE) {
        Ok(rou) => Ok(rou),
        Err(_) => {
            proof {
                assert(false);
            }
            Err(EvalError::DomainTooLarge)
        },
    }
}

/// The fixed constraint polynomial, evaluated at one domain point.
///
/// Point `i` reads the control, data, and accumulation columns at trace
/// row `i mod steps`, weights them with the broadcast challenge powers and
/// with powers of the domain's root-of-unity term `rou^i`, folds the
/// extension-field combination back to the base field, and adds the global
/// mix and output contributions.  The value is a pure function of these
/// inputs and of nothing else, so evaluation order can never matter.
pub open spec fn eval_point_spec(
    ctrl: Seq<Fp>,
    data: Seq<Fp>,
    accum: Seq<Fp>,
    mix: Seq<Fp>,
    out: Seq<Fp>,
    pows: Seq<ExtFp>,
    rou: Fp,
    steps: nat,
    i: nat,
) -> Fp
    recommends
        steps > 0,
        pows.len() == NUM_POLY_MIX_POWERS,
        ctrl.len() == steps,
        data.len() == steps,
        accum.len() == steps,
{
    let x = fp_pow_spec(rou, i);
    let row = (i % steps) as int;
    let t0 = ctrl[row];
    let t1 = fp_mul_spec(data[row], x);
    let t2 = fp_mul_spec(accum[row], fp_mul_spec(x, x));
    let combined = ext_add_spec(
        ext_add_spec(
            ext_mul_spec(pows[0], ext_from_base_spec(t0)),
            ext_mul_spec(pows[1], ext_from_base_spec(t1)),
        ),
        ext_mul_spec(pows[2], ext_from_base_spec(t2)),
    );
    let folded = fp_add_spec(
        fp_add_spec(fp_add_spec(combined.c0, combined.c1), combined.c2),
        combined.c3,
    );
    let m0 = if mix.len() > 0 {
        mix[0]
    } else {
        fp_zero()
    };
    let o0 = if out.len() > 0 {
        out[0]
    } else {
        fp_zero()
    };
    fp_add_spec(folded, fp_add_spec(m0, o0))
}

/// The whole check buffer an evaluation call must produce: one constraint
/// value per point of the blown-up domain, each independent of the rest.
pub open spec fn check_spec(
    ctrl: Seq<Fp>,
    data: Seq<Fp>,
    accum: Seq<Fp>,
    mix: Seq<Fp>,
    out: Seq<Fp>,
    poly_mix: ExtFp,
    po2: nat,
    steps: nat,
) -> Seq<Fp> {
    Seq::new(
        (steps * INV_RATE) as nat,
        |i: int|
            eval_point_spec(
                ctrl,
                data,
                accum,
                mix,
                out,
                mix_pows_spec(poly_mix),
                rou_spec((po2 + LOG_INV_RATE) as nat),
                steps,
                i as nat,
            ),
    )
}

/// Evaluate the fixed constraint polynomial at one domain point.
fn eval_point(
    ctrl: &FpBuffer,
    data: &FpBuffer,
    accum: &FpBuffer,
    mix: &FpBuffer,
    out: &FpBuffer,
    pows: &Vec<ExtFp>,
    rou: Fp,
    steps: usize,
    i: usize,
) -> (r: Fp)
    requires
        buf_wf(*ctrl),
        buf_wf(*data),
        buf_wf(*accum),
        buf_wf(*mix),
        buf_wf(*out),
        pows@.len() == NUM_POLY_MIX_POWERS,
        forall|j: int| 0 <= j < pows@.len() ==> ext_wf(#[trigger] pows@[j]),
        fp_wf(rou),
        steps > 0,
        ctrl@.len() == steps,
        data@.len() == steps,
        accum@.len() == steps,
    ensures
        fp_wf(r),
        r == eval_point_spec(
            ctrl@,
            data@,
            accum@,
            mix@,
            out@,
            pows@,
            rou,
            steps as nat,
            i as nat,
        ),
{
    let x = fp_pow(rou, i as u64);
    let row = i % steps;
    let t0 = ctrl.get(row);
    let t1 = fp_mul(data.get(row), x);
    let t2 = fp_mul(accum.get(row), fp_mul(x, x));
    let combined = ext_add(
        ext_add(
            ext_mul(pows[0], ext_from_base(t0)),
            ext_mul(pows[1], ext_from_base(t1)),
        ),
        ext_mul(pows[2], ext_from_base(t2)),
    );
    let folded = fp_add(fp_add(fp_add(combined.c0, combined.c1), combined.c2), combined.c3);
    let m0 = if mix.size() > 0 {
        mix.get(0)
    } else {
        Fp { v: 0 }
    };
    let o0 = if out.size() > 0 {
        out.get(0)
    } else {
        Fp { v: 0 }
    };
    fp_add(folded, fp_add(m0, o0))
}

/// Fill the check buffer with one constraint value per point of the
/// blown-up evaluation domain, visiting the points in ascending order:
/// the sequential reference backend, authoritative for correctness.
///
/// On success every index of `check` holds exactly the value
/// `check_spec` assigns to it — a pure function of the inputs — so a
/// repeated call with identical inputs, or any other backend meeting this
/// contract, produces a bit-identical buffer, and no index can retain a
/// stale value from an earlier call.  On failure `check` is untouched.
pub fn eval_check(
    check: &mut FpBuffer,
    groups: &Vec<FpBuffer>,
    globals: &Vec<FpBuffer>,
    poly_mix: ExtFp,
    po2: usize,
    steps: usize,
) -> (r: Result<(), EvalError>)
    requires
        ext_wf(poly_mix),
        forall|g: int| 0 <= g < groups@.len() ==> buf_wf(#[trigger] groups@[g]),
        forall|g: int| 0 <= g < globals@.len() ==> buf_wf(#[trigger] globals@[g]),
    ensures
        final(check)@.len() == old(check)@.len(),
        final(check).residency() == old(check).residency(),
        r is Ok <==> inputs_ok(groups@, globals@, old(check)@.len(), po2 as nat, steps as nat),
        !counts_and_sizes_ok(groups@, globals@, steps as nat) ==> r == Err::<(), EvalError>(
            EvalError::InvalidLayout,
        ),
        counts_and_sizes_ok(groups@, globals@, steps as nat) && !po2_in_range(po2 as nat) ==> r
            == Err::<(), EvalError>(EvalError::DomainTooLarge),
        counts_and_sizes_ok(groups@, globals@, steps as nat) && po2_in_range(po2 as nat)
            && !domain_ok(old(check)@.len(), po2 as nat, steps as nat) ==> r == Err::<
            (),
            EvalError,
        >(EvalError::InvalidLayout),
        r is Err ==> final(check)@ == old(check)@,
        r is Ok ==> final(check)@ == check_spec(
            groups@[0]@,
            groups@[1]@,
            groups@[2]@,
            globals@[0]@,
            globals@[1]@,
            poly_mix,
            po2 as nat,
            steps as nat,
        ) && buf_wf(*final(check)),
{
    let domain = check.size();
    let rou = match validate(domain, groups, globals, po2, steps) {
        Err(e) => {
            return Err(e);
        },
        Ok(v) => v,
    };
    let schedule = mix_schedule();
    let pows = mix_powers(poly_mix, &schedule);
    proof {
        assert(pows@ =~= mix_pows_spec(poly_mix));
    }
    let ctrl = &groups[REGISTER_GROUP_CTRL];
    let data = &groups[REGISTER_GROUP_DATA];
    let accum = &groups[REGISTER_GROUP_ACCUM];
    let mix = &globals[GLOBAL_MIX];
    let out = &globals[GLOBAL_OUT];
    let mut i: usize = 0;
    while i < domain
        invariant
            i <= domain,
            ext_wf(poly_mix),
            forall|g: int| 0 <= g < groups@.len() ==> buf_wf(#[trigger] groups@[g]),
            forall|g: int| 0 <= g < globals@.len() ==> buf_wf(#[trigger] globals@[g]),
            pows@ == mix_pows_spec(poly_mix),
            pows@.len() == NUM_POLY_MIX_POWERS,
            forall|j: int| 0 <= j < pows@.len() ==> ext_wf(#[trigger] pows@[j]),
            fp_wf(rou),
            rou == rou_spec((po2 + LOG_INV_RATE) as nat),
            1 <= steps <= 16384,
            groups@.len() == NUM_REGISTER_GROUPS,
            globals@.len() == NUM_GLOBALS,
            groups@[0]@.len() == steps,
            groups@[1]@.len() == steps,
            groups@[2]@.len() == steps,
            domain == steps * INV_RATE,
            ctrl == &groups@[0],
            data == &groups@[1],
            accum == &groups@[2],
            mix == &globals@[0],
            out == &globals@[1],
            check@.len() == domain,
            check@.len() == old(check)@.len(),
            check.residency() == old(check).residency(),
            forall|k: int|
                0 <= k < i ==> #[trigger] check@[k] == eval_point_spec(
                    groups@[0]@,
                    groups@[1]@,
                    groups@[2]@,
                    globals@[0]@,
                    globals@[1]@,
                    mix_pows_spec(poly_mix),
                    rou_spec((po2 + LOG_INV_RATE) as nat),
                    steps as nat,
                    k as nat,
                ) && fp_wf(check@[k]),
        decreases domain - i,
    {
        let value = eval_point(ctrl, data, accum, mix, out, &pows, rou, steps, i);
        check.set(i, value);
        i = i + 1;
    }
    proof {
        assert(check@ =~= check_spec(
            groups@[0]@,
            groups@[1]@,
            groups@[2]@,
            globals@[0]@,
            globals@[1]@,
            poly_mix,
            po2 as nat,
            steps as nat,
        ));
    }
    Ok(())
}

/// Fill the check buffer tile by tile, the way a data-parallel dispatch
/// carves the domain into launch blocks.  The tile size is an optimization
/// knob: this backend's contract is identical to `eval_check`'s, so the
/// chosen chunking provably never changes the numeric result.
pub fn eval_check_tiled(
    check: &mut FpBuffer,
    groups: &Vec<FpBuffer>,
    globals: &Vec<FpBuffer>,
    poly_mix: ExtFp,
    po2: usize,
    steps: usize,
    tile: usize,
) -> (r: Result<(), EvalError>)
    requires
        ext_wf(poly_mix),
        forall|g: int| 0 <= g < groups@.len() ==> buf_wf(#[trigger] groups@[g]),
        forall|g: int| 0 <= g < globals@.len() ==> buf_wf(#[trigger] globals@[g]),
        tile >= 1,
    ensures
        final(check)@.len() == old(check)@.len(),
        final(check).residency() == old(check).residency(),
        r is Ok <==> inputs_ok(groups@, globals@, old(check)@.len(), po2 as nat, steps as nat),
        !counts_and_sizes_ok(groups@, globals@, steps as nat) ==> r == Err::<(), EvalError>(
            EvalError::InvalidLayout,
        ),
        counts_and_sizes_ok(groups@, globals@, steps as nat) && !po2_in_range(po2 as nat) ==> r
            == Err::<(), EvalError>(EvalError::DomainTooLarge),
        counts_and_sizes_ok(groups@, globals@, steps as nat) && po2_in_range(po2 as nat)
            && !domain_ok(old(check)@.len(), po2 as nat, steps as nat) ==> r == Err::<
            (),
            EvalError,
        >(EvalError::InvalidLayout),
        r is Err ==> final(check)@ == old(check)@,
        r is Ok ==> final(check)@ == check_spec(
            groups@[0]@,
            groups@[1]@,
            groups@[2]@,
            globals@[0]@,
            globals@[1]@,
            poly_mix,
            po2 as nat,
            steps as nat,
        ) && buf_wf(*final(check)),
{
    let domain = check.size();
    let rou = match validate(domain, groups, globals, po2, steps) {
        Err(e) => {
            return Err(e);
        },
        Ok(v) => v,
    };
    let schedule = mix_schedule();
    let pows = mix_powers(poly_mix, &schedule);
    proof {
        assert(pows@ =~= mix_pows_spec(poly_mix));
    }
    let ctrl = &groups[REGISTER_GROUP_CTRL];
    let data = &groups[REGISTER_GROUP_DATA];
    let accum = &groups[REGISTER_GROUP_ACCUM];
    let mix = &globals[GLOBAL_MIX];
    let out = &globals[GLOBAL_OUT];
    let mut start: usize = 0;
    while start < domain
        invariant
            start <= domain,
            ext_wf(poly_mix),
            forall|g: int| 0 <= g < groups@.len() ==> buf_wf(#[trigger] groups@[g]),
            forall|g: int| 0 <= g < globals@.len() ==> buf_wf(#[trigger] globals@[g]),
            pows@ == mix_pows_spec(poly_mix),
            pows@.len() == NUM_POLY_MIX_POWERS,
            forall|j: int| 0 <= j < pows@.len() ==> ext_wf(#[trigger] pows@[j]),
            fp_wf(rou),
            rou == rou_spec((po2 + LOG_INV_RATE) as nat),
            1 <= steps <= 16384,
            tile >= 1,
            groups@.len() == NUM_REGISTER_GROUPS,
            globals@.len() == NUM_GLOBALS,
            groups@[0]@.len() == steps,
            groups@[1]@.len() == steps,
            groups@[2]@.len() == steps,
            domain == steps * INV_RATE,
            ctrl == &groups@[0],
            data == &groups@[1],
            accum == &groups@[2],
            mix == &globals@[0],
            out == &globals@[1],
            check@.len() == domain,
            check@.len() == old(check)@.len(),
            check.residency() == old(check).residency(),
            forall|k: int|
                0 <= k < start ==> #[trigger] check@[k] == eval_point_spec(
                    groups@[0]@,
                    groups@[1]@,
                    groups@[2]@,
                    globals@[0]@,
                    globals@[1]@,
                    mix_pows_spec(poly_mix),
                    rou_spec((po2 + LOG_INV_RATE) as nat),
                    steps as nat,
                    k as nat,
                ) && fp_wf(check@[k]),
        decreases domain - start,
    {
        let remaining = domain - start;
        let len = if tile < remaining {
            tile
        } else {
            remaining
        };
        let end = start + len;
        let mut i: usize = start;
        while i < end
            invariant
                start <= i <= end,
                end <= domain,
                ext_wf(poly_mix),
                forall|g: int| 0 <= g < groups@.len() ==> buf_wf(#[trigger] groups@[g]),
                forall|g: int| 0 <= g < globals@.len() ==> buf_wf(#[trigger] globals@[g]),
                pows@ == mix_pows_spec(poly_mix),
                pows@.len() == NUM_POLY_MIX_POWERS,
                forall|j: int| 0 <= j < pows@.len() ==> ext_wf(#[trigger] pows@[j]),
                fp_wf(rou),
                rou == rou_spec((po2 + LOG_INV_RATE) as nat),
                1 <= steps <= 16384,
                groups@.len() == NUM_REGISTER_GROUPS,
                globals@.len() == NUM_GLOBALS,
                groups@[0]@.len() == steps,
                groups@[1]@.len() == steps,
                groups@[2]@.len() == steps,
                domain == steps * INV_RATE,
                ctrl == &groups@[0],
                data == &groups@[1],
                accum == &groups@[2],
                mix == &globals@[0],
                out == &globals@[1],
                check@.len() == domain,
                check@.len() == old(check)@.len(),
                check.residency() == old(check).residency(),
                forall|k: int|
                    0 <= k < i ==> #[trigger] check@[k] == eval_point_spec(
                        groups@[0]@,
                        groups@[1]@,
                        groups@[2]@,
                        globals@[0]@,
                        globals@[1]@,
                        mix_pows_spec(poly_mix),
                        rou_spec((po2 + LOG_INV_RATE) as nat),
                        steps as nat,
                        k as nat,
                    ) && fp_wf(check@[k]),
            decreases end - i,
        {
            let value = eval_point(ctrl, data, accum, mix, out, &pows, rou, steps, i);
            check.set(i, value);
            i = i + 1;
        }
        start = end;
    }
    proof {
        assert(check@ =~= check_spec(
            groups@[0]@,
            groups@[1]@,
            groups@[2]@,
            globals@[0]@,
            globals@[1]@,
            poly_mix,
            po2 as nat,
            steps as nat,
        ));
    }
    Ok(())
}

/// A caller-chosen traversal of the evaluation domain: each point appears
/// exactly once, in any order.
pub open spec fn is_evaluation_order(order: Seq<usize>, domain: nat) -> bool {
    &&& order.len() == domain
    &&& forall|k: int| 0 <= k < order.len() ==> (#[trigger] order[k]) < domain
    &&& forall|k1: int, k2: int| 0 <= k1 < k2 < order.len() ==> order[k1] != order[k2]
    &&& forall|p: usize| p < domain ==> #[trigger] order.contains(p)
}

/// Fill the check buffer visiting the domain points in an arbitrary
/// caller-chosen order.  Its contract is identical to `eval_check`'s:
/// because every point's value is a pure function of the point index and
/// the call's inputs, permuting the evaluation order provably never
/// changes the output.
pub fn eval_check_with_order(
    check: &mut FpBuffer,
    groups: &Vec<FpBuffer>,
    globals: &Vec<FpBuffer>,
    poly_mix: ExtFp,
    po2: usize,
    steps: usize,
    order: &Vec<usize>,
) -> (r: Result<(), EvalError>)
    requires
        ext_wf(poly_mix),
        forall|g: int| 0 <= g < groups@.len() ==> buf_wf(#[trigger] groups@[g]),
        forall|g: int| 0 <= g < globals@.len() ==> buf_wf(#[trigger] globals@[g]),
        is_evaluation_order(order@, (steps * INV_RATE) as nat),
    ensures
        final(check)@.len() == old(check)@.len(),
        final(check).residency() == old(check).residency(),
        r is Ok <==> inputs_ok(groups@, globals@, old(check)@.len(), po2 as nat, steps as nat),
        !counts_and_sizes_ok(groups@, globals@, steps as nat) ==> r == Err::<(), EvalError>(
            EvalError::InvalidLayout,
        ),
        counts_and_sizes_ok(groups@, globals@, steps as nat) && !po2_in_range(po2 as nat) ==> r
            == Err::<(), EvalError>(EvalError::DomainTooLarge),
        counts_and_sizes_ok(groups@, globals@, steps as nat) && po2_in_range(po2 as nat)
            && !domain_ok(old(check)@.len(), po2 as nat, steps as nat) ==> r == Err::<
            (),
            EvalError,
        >(EvalError::InvalidLayout),
        r is Err ==> final(check)@ == old(check)@,
        r is Ok ==> final(check)@ == check_spec(
            groups@[0]@,
            groups@[1]@,
            groups@[2]@,
            globals@[0]@,
            globals@[1]@,
            poly_mix,
            po2 as nat,
            steps as nat,
        ) && buf_wf(*final(check)),
{
    let domain = check.size();
    let rou = match validate(domain, groups, globals, po2, steps) {
        Err(e) => {
            return Err(e);
        },
        Ok(v) => v,
    };
    let schedule = mix_schedule();
    let pows = mix_powers(poly_mix, &schedule);
    proof {
        assert(pows@ =~= mix_pows_spec(poly_mix));
    }
    let ctrl = &groups[REGISTER_GROUP_CTRL];
    let data = &groups[REGISTER_GROUP_DATA];
    let accum = &groups[REGISTER_GROUP_ACCUM];
    let mix = &globals[GLOBAL_MIX];
    let out = &globals[GLOBAL_OUT];
    let mut k: usize = 0;
    while k < domain
        invariant
            k <= domain,
            ext_wf(poly_mix),
            forall|g: int| 0 <= g < groups@.len() ==> buf_wf(#[trigger] groups@[g]),
            forall|g: int| 0 <= g < globals@.len() ==> buf_wf(#[trigger] globals@[g]),
            is_evaluation_order(order@, domain as nat),
            pows@ == mix_pows_spec(poly_mix),
            pows@.len() == NUM_POLY_MIX_POWERS,
            forall|j: int| 0 <= j < pows@.len() ==> ext_wf(#[trigger] pows@[j]),
            fp_wf(rou),
            rou == rou_spec((po2 + LOG_INV_RATE) as nat),
            1 <= steps <= 16384,
            groups@.len() == NUM_REGISTER_GROUPS,
            globals@.len() == NUM_GLOBALS,
            groups@[0]@.len() == steps,
            groups@[1]@.len() == steps,
            groups@[2]@.len() == steps,
            domain == steps * INV_RATE,
            ctrl == &groups@[0],
            data == &groups@[1],
            accum == &groups@[2],
            mix == &globals@[0],
            out == &globals@[1],
            check@.len() == domain,
            check@.len() == old(check)@.len(),
            check.residency() == old(check).residency(),
            forall|t: int|
                0 <= t < k ==> #[trigger] check@[order@[t] as int] == eval_point_spec(
                    groups@[0]@,
                    groups@[1]@,
                    groups@[2]@,
                    globals@[0]@,
                    globals@[1]@,
                    mix_pows_spec(poly_mix),
                    rou_spec((po2 + LOG_INV_RATE) as nat),
                    steps as nat,
                    order@[t] as nat,
                ) && fp_wf(check@[order@[t] as int]),
        decreases domain - k,
    {
        let i = order[k];
        let value = eval_point(ctrl, data, accum, mix, out, &pows, rou, steps, i);
        check.set(i, value);
        k = k + 1;
    }
    proof {
        let ghost target = check_spec(
            groups@[0]@,
            groups@[1]@,
            groups@[2]@,
            globals@[0]@,
            globals@[1]@,
            poly_mix,
            po2 as nat,
            steps as nat,
        );
        assert forall|i: int| 0 <= i < domain implies check@[i] == target[i] && fp_wf(
            check@[i],
        ) by {
            assert(order@.contains(i as usize));
            let t = choose|t: int| 0 <= t < order@.len() && order@[t] == i as usize;
            assert(check@[order@[t] as int] == eval_point_spec(
                groups@[0]@,
                groups@[1]@,
                groups@[2]@,
                globals@[0]@,
                globals@[1]@,
                mix_pows_spec(poly_mix),
                rou_spec((po2 + LOG_INV_RATE) as nat),
                steps as nat,
                order@[t] as nat,
            ));
        }
        assert(check@ =~= target);
    }
    Ok(())
}

/// The capability every backend must implement: fill the check buffer
/// with one constraint value per domain point, synchronously, exactly as
/// `check_spec` pins it.  Callers hold a handle to this capability, not to
/// a concrete backend, so backend selection never changes what a call
/// means: every implementation proves the same postcondition.
pub trait CircuitHal {
    /// A backend handle is usable when its configuration is sound.
    spec fn wf(&self) -> bool;

    /// One evaluation call per segment; see `eval_check` for the
    /// authoritative statement of the contract.
    fn eval_check(
        &self,
        check: &mut FpBuffer,
        groups: &Vec<FpBuffer>,
        globals: &Vec<FpBuffer>,
        poly_mix: ExtFp,
        po2: usize,
        steps: usize,
    ) -> (r: Result<(), EvalError>)
        requires
            self.wf(),
            ext_wf(poly_mix),
            forall|g: int| 0 <= g < groups@.len() ==> buf_wf(#[trigger] groups@[g]),
            forall|g: int| 0 <= g < globals@.len() ==> buf_wf(#[trigger] globals@[g]),
        ensures
            final(check)@.len() == old(check)@.len(),
            final(check).residency() == old(check).residency(),
            r is Ok <==> inputs_ok(groups@, globals@, old(check)@.len(), po2 as nat, steps as nat),
            !counts_and_sizes_ok(groups@, globals@, steps as nat) ==> r == Err::<(), EvalError>(
                EvalError::InvalidLayout,
            ),
            counts_and_sizes_ok(groups@, globals@, steps as nat) && !po2_in_range(po2 as nat) ==> r
                == Err::<(), EvalError>(EvalError::DomainTooLarge),
            counts_and_sizes_ok(groups@, globals@, steps as nat) && po2_in_range(po2 as nat)
                && !domain_ok(old(check)@.len(), po2 as nat, steps as nat) ==> r == Err::<
                (),
                EvalError,
            >(EvalError::InvalidLayout),
            r is Err ==> final(check)@ == old(check)@,
            r is Ok ==> final(check)@ == check_spec(
                groups@[0]@,
                groups@[1]@,
                groups@[2]@,
                globals@[0]@,
                globals@[1]@,
                poly_mix,
                po2 as nat,
                steps as nat,
            ) && buf_wf(*final(check)),
    ;
}

/// The sequential reference backend, as a capability handle.
pub struct ReferenceHal;

impl CircuitHal for ReferenceHal {
    open spec fn wf(&self) -> bool {
        true
    }

    fn eval_check(
        &self,
        check: &mut FpBuffer,
        groups: &Vec<FpBuffer>,
        globals: &Vec<FpBuffer>,
        poly_mix: ExtFp,
        po2: usize,
        steps: usize,
    ) -> (r: Result<(), EvalError>) {
        eval_check(check, groups, globals, poly_mix, po2, steps)
    }
}

/// A dispatch-style backend handle: carries the launch-tile size its
/// dispatches carve the domain into.
pub struct TiledHal {
    pub tile: usize,
}

impl CircuitHal for TiledHal {
    open spec fn wf(&self) -> bool {
        self.tile >= 1
    }

    fn eval_check(
        &self,
        check: &mut FpBuffer,
        groups: &Vec<FpBuffer>,
        globals: &Vec<FpBuffer>,
        poly_mix: ExtFp,
        po2: usize,
        steps: usize,
    ) -> (r: Result<(), EvalError>) {
        eval_check_tiled(check, groups, globals, poly_mix, po2, steps, self.tile)
    }
}

/// Cross-backend equivalence and determinism: the evaluation contract
/// pins the whole output buffer to `check_spec`, a pure function of the
/// call's inputs, so any two buffers produced for the same inputs — by
/// the same backend twice or by two different backends — are
/// bit-identical.
pub proof fn lemma_check_determined(
    a: Seq<Fp>,
    b: Seq<Fp>,
    ctrl: Seq<Fp>,
    data: Seq<Fp>,
    accum: Seq<Fp>,
    mix: Seq<Fp>,
    out: Seq<Fp>,
    poly_mix: ExtFp,
    po2: nat,
    steps: nat,
)
    requires
        a == check_spec(ctrl, data, accum, mix, out, poly_mix, po2, steps),
        b == check_spec(ctrl, data, accum, mix, out, poly_mix, po2, steps),
    ensures
        a == b,
{
}

/// The challenge powers derived from the fixed schedule are the identity,
/// the challenge itself, and its square.
pub proof fn lemma_mix_pows_schedule(c: ExtFp)
    requires
        ext_wf(c),
    ensures
        mix_pows_spec(c).len() == NUM_POLY_MIX_POWERS,
        mix_pows_spec(c)[0] == ext_one_spec(),
        mix_pows_spec(c)[1] == c,
        mix_pows_spec(c)[2] == ext_mul_spec(c, c),
{
    lemma_ext_pow_low(c);
    assert(mix_schedule_spec(0) == 0);
    assert(mix_schedule_spec(1) == 1);
    assert(mix_schedule_spec(2) == 2);
}

/// With an all-zero trace and all-zero globals, the fixed constraint
/// polynomial vanishes at one point, whatever the challenge powers and the
/// root-of-unity term hold.
pub proof fn lemma_zero_trace_point(
    ctrl: Seq<Fp>,
    data: Seq<Fp>,
    accum: Seq<Fp>,
    mix: Seq<Fp>,
    out: Seq<Fp>,
    pows: Seq<ExtFp>,
    rou: Fp,
    steps: nat,
    i: nat,
)
    requires
        steps > 0,
        pows.len() == NUM_POLY_MIX_POWERS,
        ctrl.len() == steps,
        data.len() == steps,
        accum.len() == steps,
        forall|j: int| 0 <= j < ctrl.len() ==> #[trigger] ctrl[j] == fp_zero(),
        forall|j: int| 0 <= j < data.len() ==> #[trigger] data[j] == fp_zero(),
        forall|j: int| 0 <= j < accum.len() ==> #[trigger] accum[j] == fp_zero(),
        forall|j: int| 0 <= j < mix.len() ==> #[trigger] mix[j] == fp_zero(),
        forall|j: int| 0 <= j < out.len() ==> #[trigger] out[j] == fp_zero(),
    ensures
        eval_point_spec(ctrl, data, accum, mix, out, pows, rou, steps, i) == fp_zero(),
{
    lemma_small_mod(0nat, PRIME as nat);
    lemma_mod_bound(i as int, steps as int);
    let x = fp_pow_spec(rou, i);
    let row = (i % steps) as int;
    assert(0 <= row < steps);
    assert(ctrl[row] == fp_zero());
    assert(fp_mul_spec(data[row], x) == fp_zero());
    assert(fp_mul_spec(accum[row], fp_mul_spec(x, x)) == fp_zero());
    assert(ext_from_base_spec(fp_zero()) == ext_zero_spec());
    lemma_ext_mul_zero_right(pows[0]);
    lemma_ext_mul_zero_right(pows[1]);
    lemma_ext_mul_zero_right(pows[2]);
    assert(ext_add_spec(ext_zero_spec(), ext_zero_spec()) == ext_zero_spec());
    assert(fp_add_spec(fp_zero(), fp_zero()) == fp_zero());
}

/// With an all-zero trace and all-zero globals, every entry of the check
/// buffer an evaluation call must produce is the field's additive
/// identity — for every challenge.
pub proof fn lemma_zero_trace_check(
    ctrl: Seq<Fp>,
    data: Seq<Fp>,
    accum: Seq<Fp>,
    mix: Seq<Fp>,
    out: Seq<Fp>,
    poly_mix: ExtFp,
    po2: nat,
    steps: nat,
)
    requires
        steps > 0,
        ctrl.len() == steps,
        data.len() == steps,
        accum.len() == steps,
        forall|j: int| 0 <= j < ctrl.len() ==> #[trigger] ctrl[j] == fp_zero(),
        forall|j: int| 0 <= j < data.len() ==> #[trigger] data[j] == fp_zero(),
        forall|j: int| 0 <= j < accum.len() ==> #[trigger] accum[j] == fp_zero(),
        forall|j: int| 0 <= j < mix.len() ==> #[trigger] mix[j] == fp_zero(),
        forall|j: int| 0 <= j < out.len() ==> #[trigger] out[j] == fp_zero(),
    ensures
        check_spec(ctrl, data, accum, mix, out, poly_mix, po2, steps).len() == steps * INV_RATE,
        forall|i: int|
            0 <= i < steps * INV_RATE ==> #[trigger] check_spec(
                ctrl,
                data,
                accum,
                mix,
                out,
                poly_mix,
                po2,
                steps,
            )[i] == fp_zero(),
{
    assert forall|i: int|
        0 <= i < steps * INV_RATE implies #[trigger] check_spec(
        ctrl,
        data,
        accum,
        mix,
        out,
        poly_mix,
        po2,
        steps,
    )[i] == fp_zero() by {
        lemma_zero_trace_point(
            ctrl,
            data,
            accum,
            mix,
            out,
            mix_pows_spec(poly_mix),
            rou_spec((po2 + LOG_INV_RATE) as nat),
            steps,
            i as nat,
        );
    }
}

} // verus!
