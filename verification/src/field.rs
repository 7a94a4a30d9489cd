use vstd::prelude::*;
use vstd::arithmetic::power::{
    pow, lemma_pow0, lemma_pow1, lemma_pow_adds, lemma_pow_multiplies, lemma_pow_mod_noop,
    lemma_square_is_pow2,
};
use vstd::arithmetic::div_mod::{
    lemma_mod_bound, lemma_mod_sub_multiples_vanish,
    lemma_mul_mod_noop_left, lemma_mul_mod_noop_right, lemma_small_mod,
};
use vstd::arithmetic::mul::{lemma_mul_is_associative, lemma_mul_is_commutative};

use crate::errors::EvalError;

verus! {

/// The base-field modulus: a prime of the form 15 * 2^27 + 1, small enough
/// that a product of two reduced elements fits in a 64-bit word before
/// reduction.
pub const PRIME: u32 = 2013265921;

/// Base-2 logarithm of the largest power-of-two subgroup for which this
/// library keeps a root-of-unity table.
pub const ROU_MAX_PO2: usize = 16;

/// A generator of the multiplicative subgroup of order 2^ROU_MAX_PO2.
pub const ROU_GENERATOR: u32 = 1421947380;

/// An element of the base prime field, kept in reduced form.
#[derive(Clone, Copy, PartialEq, Eq, Structural, Debug)]
pub struct Fp {
    pub v: u32,
}

/// A field element is well-formed when its representative is reduced.
pub open spec fn fp_wf(a: Fp) -> bool {
    a.v < PRIME
}

/// The additive identity of the base field.
pub open spec fn fp_zero() -> Fp {
    Fp { v: 0 }
}

/// Field addition: the reduced sum of the two representatives.
pub open spec fn fp_add_spec(a: Fp, b: Fp) -> Fp {
    Fp { v: ((a.v + b.v) % (PRIME as int)) as u32 }
}

/// Field subtraction: the reduced difference of the two representatives.
pub open spec fn fp_sub_spec(a: Fp, b: Fp) -> Fp {
    Fp { v: ((a.v - b.v + PRIME) % (PRIME as int)) as u32 }
}

/// Field multiplication: the reduced product of the two representatives.
pub open spec fn fp_mul_spec(a: Fp, b: Fp) -> Fp {
    Fp { v: ((a.v * b.v) % (PRIME as int)) as u32 }
}

/// Field exponentiation by a non-negative integer.
pub open spec fn fp_pow_spec(x: Fp, e: nat) -> Fp
    decreases e,
{
    if e == 0 {
        Fp { v: 1 }
    } else {
        fp_mul_spec(fp_pow_spec(x, (e - 1) as nat), x)
    }
}

/// The table of roots of unity: `rou_spec(k)` generates the multiplicative
/// subgroup of order 2^k.  Each entry is the square of the one above it.
pub open spec fn rou_spec(k: nat) -> Fp
    decreases ROU_MAX_PO2 - k,
{
    if k >= ROU_MAX_PO2 {
        Fp { v: ROU_GENERATOR }
    } else {
        fp_mul_spec(rou_spec((k + 1) as nat), rou_spec((k + 1) as nat))
    }
}

/// 2^k: the size of the subgroup that table entry `k` generates, and of
/// the trace domain a base-2 logarithm describes.
pub open spec fn pow2_spec(k: nat) -> nat
    decreases k,
{
    if k == 0 {
        1
    } else {
        2 * pow2_spec((k - 1) as nat)
    }
}

/// Every root-of-unity table entry is reduced.
pub proof fn lemma_rou_wf(k: nat)
    ensures
        fp_wf(rou_spec(k)),
    decreases ROU_MAX_PO2 - k,
{
    if k < ROU_MAX_PO2 {
        lemma_rou_wf((k + 1) as nat);
        let a = rou_spec((k + 1) as nat).v as int;
        lemma_mod_bound(a * a, PRIME as int);
    }
}

/// The bottom of the table, computed out: entry 1 is the non-trivial
/// square root of the identity and entry 0 is the identity itself.
proof fn lemma_rou_chain()
    ensures
        rou_spec(1).v == PRIME - 1,
        rou_spec(0).v == 1,
{
    assert(rou_spec(16).v == 1421947380);
    assert(((1421947380 as int) * (1421947380 as int)) % 2013265921 == 2009781145)
        by (nonlinear_arith);
    assert(rou_spec(15).v == 2009781145);
    assert(((2009781145 as int) * (2009781145 as int)) % 2013265921 == 1657000625)
        by (nonlinear_arith);
    assert(rou_spec(14).v == 1657000625);
    assert(((1657000625 as int) * (1657000625 as int)) % 2013265921 == 298008106)
        by (nonlinear_arith);
    assert(rou_spec(13).v == 298008106);
    assert(((298008106 as int) * (298008106 as int)) % 2013265921 == 1282623253)
        by (nonlinear_arith);
    assert(rou_spec(12).v == 1282623253);
    assert(((1282623253 as int) * (1282623253 as int)) % 2013265921 == 1340477990)
        by (nonlinear_arith);
    assert(rou_spec(11).v == 1340477990);
    assert(((1340477990 as int) * (1340477990 as int)) % 2013265921 == 341742893)
        by (nonlinear_arith);
    assert(rou_spec(10).v == 341742893);
    assert(((341742893 as int) * (341742893 as int)) % 2013265921 == 1753498361)
        by (nonlinear_arith);
    assert(rou_spec(9).v == 1753498361);
    assert(((1753498361 as int) * (1753498361 as int)) % 2013265921 == 1732600167)
        by (nonlinear_arith);
    assert(rou_spec(8).v == 1732600167);
    assert(((1732600167 as int) * (1732600167 as int)) % 2013265921 == 397765732)
        by (nonlinear_arith);
    assert(rou_spec(7).v == 397765732);
    assert(((397765732 as int) * (397765732 as int)) % 2013265921 == 1721589904)
        by (nonlinear_arith);
    assert(rou_spec(6).v == 1721589904);
    assert(((1721589904 as int) * (1721589904 as int)) % 2013265921 == 760005850)
        by (nonlinear_arith);
    assert(rou_spec(5).v == 760005850);
    assert(((760005850 as int) * (760005850 as int)) % 2013265921 == 196396260)
        by (nonlinear_arith);
    assert(rou_spec(4).v == 196396260);
    assert(((196396260 as int) * (196396260 as int)) % 2013265921 == 1592366214)
        by (nonlinear_arith);
    assert(rou_spec(3).v == 1592366214);
    assert(((1592366214 as int) * (1592366214 as int)) % 2013265921 == 1728404513)
        by (nonlinear_arith);
    assert(rou_spec(2).v == 1728404513);
    assert(((1728404513 as int) * (1728404513 as int)) % 2013265921 == 2013265920)
        by (nonlinear_arith);
    assert(rou_spec(1).v == 2013265920);
    assert(((2013265920 as int) * (2013265920 as int)) % 2013265921 == 1)
        by (nonlinear_arith);
    assert(rou_spec(0).v == 1);
}

/// Squaring a table entry `j` times lands `j` rows down the table:
/// raising entry `k` to 2^j gives entry `k - j`.
proof fn lemma_rou_pow_lands(k: nat, j: nat)
    requires
        j <= k,
        k <= ROU_MAX_PO2,
    ensures
        pow(rou_spec(k).v as int, pow2_spec(j)) % (PRIME as int) == rou_spec((k - j) as nat).v,
    decreases j,
{
    let p = PRIME as int;
    let x = rou_spec(k).v as int;
    lemma_rou_wf(k);
    if j == 0 {
        lemma_pow1(x);
        lemma_small_mod(rou_spec(k).v as nat, PRIME as nat);
    } else {
        let e = pow2_spec((j - 1) as nat);
        lemma_square_is_pow2(x);
        lemma_pow_multiplies(x, 2nat, e);
        assert(pow(x, pow2_spec(j)) == pow(x * x, e));
        lemma_pow_mod_noop(x * x, e, p);
        lemma_mod_bound(x * x, p);
        assert(rou_spec((k - 1) as nat).v as int == (x * x) % p);
        lemma_rou_pow_lands((k - 1) as nat, (j - 1) as nat);
    }
}

/// Table entry `k` generates the multiplicative subgroup of order 2^k:
/// raising it to 2^k yields the identity, while raising it to 2^(k-1)
/// yields the non-trivial square root of the identity, so no proper
/// power-of-two divisor of 2^k already reaches the identity.
pub proof fn lemma_rou_order(k: nat)
    requires
        k <= ROU_MAX_PO2,
    ensures
        pow(rou_spec(k).v as int, pow2_spec(k)) % (PRIME as int) == 1,
        k >= 1 ==> pow(rou_spec(k).v as int, pow2_spec((k - 1) as nat)) % (PRIME as int) == PRIME
            - 1,
{
    lemma_rou_chain();
    lemma_rou_pow_lands(k, k);
    if k >= 1 {
        lemma_rou_pow_lands(k, (k - 1) as nat);
    }
}

/// `fp_pow_spec` agrees with the mathematical power function, reduced.
pub proof fn lemma_fp_pow_spec_is_pow(x: Fp, e: nat)
    ensures
        fp_pow_spec(x, e).v as int == pow(x.v as int, e) % (PRIME as int),
    decreases e,
{
    let p = PRIME as int;
    if e == 0 {
        lemma_pow0(x.v as int);
        lemma_small_mod(1nat, PRIME as nat);
    } else {
        lemma_fp_pow_spec_is_pow(x, (e - 1) as nat);
        let prev = fp_pow_spec(x, (e - 1) as nat);
        assert(prev.v as int == pow(x.v as int, (e - 1) as nat) % p);
        lemma_mod_bound(pow(x.v as int, (e - 1) as nat), p);
        lemma_mul_mod_noop_left(pow(x.v as int, (e - 1) as nat), x.v as int, p);
        assert((prev.v as int * x.v as int) % p == (pow(x.v as int, (e - 1) as nat) * x.v as int)
            % p);
        lemma_pow1(x.v as int);
        lemma_pow_adds(x.v as int, (e - 1) as nat, 1nat);
        lemma_mul_is_commutative(pow(x.v as int, (e - 1) as nat), x.v as int);
        assert(pow(x.v as int, e) == pow(x.v as int, (e - 1) as nat) * x.v as int);
        lemma_mod_bound((prev.v as int) * (x.v as int), p);
    }
}

/// Reduce a sum that is known to be below twice the modulus.
proof fn lemma_reduce_once(s: int)
    requires
        0 <= s < 2 * (PRIME as int),
    ensures
        s % (PRIME as int) == if s < PRIME as int {
            s
        } else {
            s - PRIME as int
        },
{
    let p = PRIME as int;
    if s < p {
        lemma_small_mod(s as nat, PRIME as nat);
    } else {
        lemma_mod_sub_multiples_vanish(s, p);
        lemma_small_mod((s - p) as nat, PRIME as nat);
    }
}

/// Field addition.
pub fn fp_add(a: Fp, b: Fp) -> (r: Fp)
    requires
        fp_wf(a),
        fp_wf(b),
    ensures
        fp_wf(r),
        r == fp_add_spec(a, b),
        r.v as int == (a.v as int + b.v as int) % (PRIME as int),
{
    let s: u32 = a.v + b.v;
    proof {
        lemma_reduce_once(s as int);
    }
    if s >= PRIME {
        Fp { v: s - PRIME }
    } else {
        Fp { v: s }
    }
}

/// Field subtraction.
pub fn fp_sub(a: Fp, b: Fp) -> (r: Fp)
    requires
        fp_wf(a),
        fp_wf(b),
    ensures
        fp_wf(r),
        r == fp_sub_spec(a, b),
        r.v as int == (a.v as int - b.v as int + PRIME as int) % (PRIME as int),
{
    proof {
        lemma_reduce_once(a.v as int - b.v as int + PRIME as int);
    }
    if a.v >= b.v {
        Fp { v: a.v - b.v }
    } else {
        Fp { v: a.v + PRIME - b.v }
    }
}

/// Field multiplication.
pub fn fp_mul(a: Fp, b: Fp) -> (r: Fp)
    requires
        fp_wf(a),
        fp_wf(b),
    ensures
        fp_wf(r),
        r == fp_mul_spec(a, b),
        r.v as int == (a.v as int * b.v as int) % (PRIME as int),
{
    proof {
        vstd::arithmetic::mul::lemma_mul_upper_bound(
            a.v as int,
            (PRIME - 1) as int,
            b.v as int,
            (PRIME - 1) as int,
        );
        assert(a.v as int * b.v as int <= ((PRIME - 1) as int) * ((PRIME - 1) as int));
        assert(((PRIME - 1) as int) * ((PRIME - 1) as int) < 0xffff_ffff_ffff_ffff) by (nonlinear_arith);
        lemma_mod_bound(a.v as int * b.v as int, PRIME as int);
    }
    let prod: u64 = (a.v as u64) * (b.v as u64);
    let red: u64 = prod % (PRIME as u64);
    Fp { v: red as u32 }
}

/// Field exponentiation by square-and-multiply.
pub fn fp_pow(x: Fp, e: u64) -> (r: Fp)
    requires
        fp_wf(x),
    ensures
        fp_wf(r),
        r == fp_pow_spec(x, e as nat),
        r.v as int == pow(x.v as int, e as nat) % (PRIME as int),
{
    let p_int: Ghost<int> = Ghost(PRIME as int);
    let mut result: Fp = Fp { v: 1 };
    let mut base: Fp = x;
    let mut exp: u64 = e;
    proof {
        lemma_pow0(x.v as int);
        lemma_small_mod(1nat, PRIME as nat);
        lemma_mul_is_commutative(1int, pow(x.v as int, e as nat));
        lemma_mod_bound(pow(x.v as int, e as nat), PRIME as int);
    }
    while exp > 0
        invariant
            fp_wf(result),
            fp_wf(base),
            (result.v as int * pow(base.v as int, exp as nat)) % (PRIME as int) == pow(
                x.v as int,
                e as nat,
            ) % (PRIME as int),
        decreases exp,
    {
        let ghost r0: int = result.v as int;
        let ghost b0: int = base.v as int;
        let ghost e0: nat = exp as nat;
        if exp % 2 == 1 {
            result = fp_mul(result, base);
        }
        base = fp_mul(base, base);
        exp = exp / 2;
        proof {
            let p = PRIME as int;
            let e1: nat = exp as nat;
            let b1: int = base.v as int;
            lemma_square_is_pow2(b0);
            lemma_pow_multiplies(b0, 2nat, e1);
            lemma_pow_mod_noop(b0 * b0, e1, p);
            assert(b1 == (b0 * b0) % p);
            assert(pow(b1, e1) % p == pow(b0 * b0, e1) % p);
            assert(pow(b0 * b0, e1) == pow(b0, (2 * e1) as nat));
            if e0 % 2 == 1 {
                assert(e0 == 2 * e1 + 1);
                assert(result.v as int == (r0 * b0) % p);
                lemma_mul_mod_noop_left(r0 * b0, pow(b1, e1), p);
                lemma_mul_mod_noop_right(r0 * b0, pow(b1, e1), p);
                lemma_mul_mod_noop_right(r0 * b0, pow(b0, (2 * e1) as nat), p);
                assert((result.v as int * pow(b1, e1)) % p == ((r0 * b0) * pow(
                    b0,
                    (2 * e1) as nat,
                )) % p);
                lemma_pow1(b0);
                lemma_pow_adds(b0, 1nat, (2 * e1) as nat);
                lemma_mul_is_associative(r0, b0, pow(b0, (2 * e1) as nat));
                assert((r0 * b0) * pow(b0, (2 * e1) as nat) == r0 * pow(b0, e0));
            } else {
                assert(e0 == 2 * e1);
                lemma_mul_mod_noop_right(r0, pow(b1, e1), p);
                lemma_mul_mod_noop_right(r0, pow(b0, (2 * e1) as nat), p);
                assert((result.v as int * pow(b1, e1)) % p == (r0 * pow(b0, e0)) % p);
            }
        }
    }
    proof {
        lemma_pow0(base.v as int);
        lemma_small_mod(result.v as nat, PRIME as nat);
        lemma_fp_pow_spec_is_pow(x, e as nat);
    }
    result
}

/// Multiplicative inverse, computed as the power `PRIME - 2`; inverting
/// the additive identity is a `DivisionByZero` error.
pub fn fp_inv(x: Fp) -> (r: Result<Fp, EvalError>)
    requires
        fp_wf(x),
    ensures
        x.v == 0 <==> r == Err::<Fp, EvalError>(EvalError::DivisionByZero),
        x.v != 0 ==> r == Ok::<Fp, EvalError>(fp_pow_spec(x, (PRIME - 2) as nat)),
{
    if x.v == 0 {
        Err(EvalError::DivisionByZero)
    } else {
        Ok(fp_pow(x, (PRIME - 2) as u64))
    }
}

/// Look up the generator of the multiplicative subgroup of order 2^k.
/// A request past the table's built range is a `DomainTooLarge` error.
pub fn root_of_unity(k: usize) -> (r: Result<Fp, EvalError>)
    ensures
        k <= ROU_MAX_PO2 <==> r is Ok,
        k <= ROU_MAX_PO2 ==> r == Ok::<Fp, EvalError>(rou_spec(k as nat)) && fp_wf(rou_spec(
            k as nat,
        )),
        k > ROU_MAX_PO2 ==> r == Err::<Fp, EvalError>(EvalError::DomainTooLarge),
{
    if k > ROU_MAX_PO2 {
        return Err(EvalError::DomainTooLarge);
    }
    let mut i: usize = ROU_MAX_PO2;
    let mut v: Fp = Fp { v: ROU_GENERATOR };
    while i > k
        invariant
            k <= i <= ROU_MAX_PO2,
            fp_wf(v),
            v == rou_spec(i as nat),
        decreases i,
    {
        v = fp_mul(v, v);
        i = i - 1;
    }
    Ok(v)
}

} // verus!
