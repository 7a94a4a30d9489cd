use vstd::prelude::*;
use vstd::arithmetic::div_mod::lemma_small_mod;

use crate::field::{fp_add, fp_add_spec, fp_mul, fp_mul_spec, fp_wf, Fp, PRIME};

verus! {

/// The residue by which `x^4` is replaced when reducing products in the
/// degree-4 extension field: the defining polynomial is `x^4 + 11`, so
/// `x^4 = -11 = PRIME - 11`.
pub const NBETA: u32 = 2013265910;

/// An element of the degree-4 extension field, as an ordered tuple of
/// base-field coefficients: `c0 + c1*x + c2*x^2 + c3*x^3`.
#[derive(Clone, Copy, PartialEq, Eq, Structural, Debug)]
pub struct ExtFp {
    pub c0: Fp,
    pub c1: Fp,
    pub c2: Fp,
    pub c3: Fp,
}

/// An extension element is well-formed when every coefficient is reduced.
pub open spec fn ext_wf(a: ExtFp) -> bool {
    fp_wf(a.c0) && fp_wf(a.c1) && fp_wf(a.c2) && fp_wf(a.c3)
}

/// The additive identity of the extension field.
pub open spec fn ext_zero_spec() -> ExtFp {
    ExtFp { c0: Fp { v: 0 }, c1: Fp { v: 0 }, c2: Fp { v: 0 }, c3: Fp { v: 0 } }
}

/// The multiplicative identity of the extension field.
pub open spec fn ext_one_spec() -> ExtFp {
    ExtFp { c0: Fp { v: 1 }, c1: Fp { v: 0 }, c2: Fp { v: 0 }, c3: Fp { v: 0 } }
}

/// Embed a base-field element as the constant coefficient.
pub open spec fn ext_from_base_spec(a: Fp) -> ExtFp {
    ExtFp { c0: a, c1: Fp { v: 0 }, c2: Fp { v: 0 }, c3: Fp { v: 0 } }
}

/// Coefficient-wise extension-field addition.
pub open spec fn ext_add_spec(a: ExtFp, b: ExtFp) -> ExtFp {
    ExtFp {
        c0: fp_add_spec(a.c0, b.c0),
        c1: fp_add_spec(a.c1, b.c1),
        c2: fp_add_spec(a.c2, b.c2),
        c3: fp_add_spec(a.c3, b.c3),
    }
}

/// Extension-field multiplication: the schoolbook product of the two
/// coefficient polynomials, with `x^4` folded back in via `NBETA`.
pub open spec fn ext_mul_spec(a: ExtFp, b: ExtFp) -> ExtFp {
    let nb = Fp { v: NBETA };
    ExtFp {
        c0: fp_add_spec(
            fp_mul_spec(a.c0, b.c0),
            fp_mul_spec(
                nb,
                fp_add_spec(
                    fp_add_spec(fp_mul_spec(a.c1, b.c3), fp_mul_spec(a.c2, b.c2)),
                    fp_mul_spec(a.c3, b.c1),
                ),
            ),
        ),
        c1: fp_add_spec(
            fp_add_spec(fp_mul_spec(a.c0, b.c1), fp_mul_spec(a.c1, b.c0)),
            fp_mul_spec(nb, fp_add_spec(fp_mul_spec(a.c2, b.c3), fp_mul_spec(a.c3, b.c2))),
        ),
        c2: fp_add_spec(
            fp_add_spec(
                fp_add_spec(fp_mul_spec(a.c0, b.c2), fp_mul_spec(a.c1, b.c1)),
                fp_mul_spec(a.c2, b.c0),
            ),
            fp_mul_spec(nb, fp_mul_spec(a.c3, b.c3)),
        ),
        c3: fp_add_spec(
            fp_add_spec(
                fp_add_spec(fp_mul_spec(a.c0, b.c3), fp_mul_spec(a.c1, b.c2)),
                fp_mul_spec(a.c2, b.c1),
            ),
            fp_mul_spec(a.c3, b.c0),
        ),
    }
}

/// Extension-field exponentiation by a non-negative integer.
pub open spec fn ext_pow_spec(x: ExtFp, e: nat) -> ExtFp
    decreases e,
{
    if e == 0 {
        ext_one_spec()
    } else {
        ext_mul_spec(ext_pow_spec(x, (e - 1) as nat), x)
    }
}

/// The multiplicative identity of the extension field.
pub fn ext_one() -> (r: ExtFp)
    ensures
        r == ext_one_spec(),
        ext_wf(r),
{
    ExtFp { c0: Fp { v: 1 }, c1: Fp { v: 0 }, c2: Fp { v: 0 }, c3: Fp { v: 0 } }
}

/// Embed a base-field element as the constant coefficient.
pub fn ext_from_base(a: Fp) -> (r: ExtFp)
    requires
        fp_wf(a),
    ensures
        r == ext_from_base_spec(a),
        ext_wf(r),
{
    ExtFp { c0: a, c1: Fp { v: 0 }, c2: Fp { v: 0 }, c3: Fp { v: 0 } }
}

/// Extension-field addition.
pub fn ext_add(a: ExtFp, b: ExtFp) -> (r: ExtFp)
    requires
        ext_wf(a),
        ext_wf(b),
    ensures
        r == ext_add_spec(a, b),
        ext_wf(r),
{
    ExtFp {
        c0: fp_add(a.c0, b.c0),
        c1: fp_add(a.c1, b.c1),
        c2: fp_add(a.c2, b.c2),
        c3: fp_add(a.c3, b.c3),
    }
}

/// Extension-field multiplication.
pub fn ext_mul(a: ExtFp, b: ExtFp) -> (r: ExtFp)
    requires
        ext_wf(a),
        ext_wf(b),
    ensures
        r == ext_mul_spec(a, b),
        ext_wf(r),
{
    let nb = Fp { v: NBETA };
    let c0 = fp_add(
        fp_mul(a.c0, b.c0),
        fp_mul(nb, fp_add(fp_add(fp_mul(a.c1, b.c3), fp_mul(a.c2, b.c2)), fp_mul(a.c3, b.c1))),
    );
    let c1 = fp_add(
        fp_add(fp_mul(a.c0, b.c1), fp_mul(a.c1, b.c0)),
        fp_mul(nb, fp_add(fp_mul(a.c2, b.c3), fp_mul(a.c3, b.c2))),
    );
    let c2 = fp_add(
        fp_add(fp_add(fp_mul(a.c0, b.c2), fp_mul(a.c1, b.c1)), fp_mul(a.c2, b.c0)),
        fp_mul(nb, fp_mul(a.c3, b.c3)),
    );
    let c3 = fp_add(
        fp_add(fp_add(fp_mul(a.c0, b.c3), fp_mul(a.c1, b.c2)), fp_mul(a.c2, b.c1)),
        fp_mul(a.c3, b.c0),
    );
    ExtFp { c0, c1, c2, c3 }
}

/// Extension-field exponentiation by iterated multiplication.
pub fn ext_pow(x: ExtFp, e: u64) -> (r: ExtFp)
    requires
        ext_wf(x),
    ensures
        r == ext_pow_spec(x, e as nat),
        ext_wf(r),
{
    let mut acc: ExtFp = ext_one();
    let mut i: u64 = 0;
    while i < e
        invariant
            i <= e,
            ext_wf(x),
            ext_wf(acc),
            acc == ext_pow_spec(x, i as nat),
        decreases e - i,
    {
        acc = ext_mul(acc, x);
        i = i + 1;
    }
    acc
}

/// Multiplying by the identity on the left leaves a well-formed element
/// unchanged.
pub proof fn lemma_ext_mul_one_left(b: ExtFp)
    requires
        ext_wf(b),
    ensures
        ext_mul_spec(ext_one_spec(), b) == b,
{
    let p = PRIME as int;
    lemma_small_mod(0nat, PRIME as nat);
    lemma_small_mod(b.c0.v as nat, PRIME as nat);
    lemma_small_mod(b.c1.v as nat, PRIME as nat);
    lemma_small_mod(b.c2.v as nat, PRIME as nat);
    lemma_small_mod(b.c3.v as nat, PRIME as nat);
    assert(ext_mul_spec(ext_one_spec(), b).c0 == b.c0);
    assert(ext_mul_spec(ext_one_spec(), b).c1 == b.c1);
    assert(ext_mul_spec(ext_one_spec(), b).c2 == b.c2);
    assert(ext_mul_spec(ext_one_spec(), b).c3 == b.c3);
}

/// Multiplying by the additive identity on the right yields the additive
/// identity, whatever the left factor holds.
pub proof fn lemma_ext_mul_zero_right(a: ExtFp)
    ensures
        ext_mul_spec(a, ext_zero_spec()) == ext_zero_spec(),
{
    lemma_small_mod(0nat, PRIME as nat);
    assert(ext_mul_spec(a, ext_zero_spec()).c0 == Fp { v: 0 });
    assert(ext_mul_spec(a, ext_zero_spec()).c1 == Fp { v: 0 });
    assert(ext_mul_spec(a, ext_zero_spec()).c2 == Fp { v: 0 });
    assert(ext_mul_spec(a, ext_zero_spec()).c3 == Fp { v: 0 });
}

/// The zeroth, first, and second powers of a well-formed element are the
/// identity, the element itself, and its square.
pub proof fn lemma_ext_pow_low(c: ExtFp)
    requires
        ext_wf(c),
    ensures
        ext_pow_spec(c, 0) == ext_one_spec(),
        ext_pow_spec(c, 1) == c,
        ext_pow_spec(c, 2) == ext_mul_spec(c, c),
{
    lemma_ext_mul_one_left(c);
    assert(ext_pow_spec(c, 0) == ext_one_spec());
    assert(ext_pow_spec(c, 1) == ext_mul_spec(ext_pow_spec(c, 0), c));
    assert(ext_pow_spec(c, 2) == ext_mul_spec(ext_pow_spec(c, 1), c));
}

} // verus!
