use circuit_eval::errors::EvalError;
use circuit_eval::field::{
    fp_add, fp_inv, fp_mul, fp_pow, fp_sub, root_of_unity, Fp, PRIME, ROU_GENERATOR, ROU_MAX_PO2,
};

#[test]
fn add_wraps_at_modulus() {
    assert_eq!(fp_add(Fp { v: PRIME - 1 }, Fp { v: 1 }).v, 0);
    assert_eq!(fp_add(Fp { v: 5 }, Fp { v: 6 }).v, 11);
}

#[test]
fn sub_wraps_below_zero() {
    assert_eq!(fp_sub(Fp { v: 3 }, Fp { v: 5 }).v, PRIME - 2);
    assert_eq!(fp_sub(Fp { v: 9 }, Fp { v: 4 }).v, 5);
}

#[test]
fn mul_reduces_product() {
    assert_eq!(fp_mul(Fp { v: 123456789 }, Fp { v: 987654321 }).v, 6500116);
    assert_eq!(fp_mul(Fp { v: 0 }, Fp { v: 7 }).v, 0);
}

#[test]
fn pow_small_exponents() {
    assert_eq!(fp_pow(Fp { v: 3 }, 5).v, 243);
    assert_eq!(fp_pow(Fp { v: 7 }, 0).v, 1);
    assert_eq!(fp_pow(Fp { v: 0 }, 3).v, 0);
}

#[test]
fn inverse_of_two() {
    let r = fp_inv(Fp { v: 2 }).unwrap();
    assert_eq!(r.v, 1006632961);
    assert_eq!(fp_mul(r, Fp { v: 2 }).v, 1);
}

#[test]
fn inverse_of_zero_fails() {
    assert_eq!(fp_inv(Fp { v: 0 }), Err(EvalError::DivisionByZero));
}

#[test]
fn root_of_unity_table_values() {
    assert_eq!(root_of_unity(0).unwrap().v, 1);
    assert_eq!(root_of_unity(1).unwrap().v, PRIME - 1);
    assert_eq!(root_of_unity(2).unwrap().v, 1728404513);
    assert_eq!(root_of_unity(ROU_MAX_PO2).unwrap().v, ROU_GENERATOR);
}

#[test]
fn root_of_unity_out_of_range() {
    assert_eq!(
        root_of_unity(ROU_MAX_PO2 + 1),
        Err(EvalError::DomainTooLarge)
    );
}

#[test]
fn root_of_unity_orders() {
    let r4 = root_of_unity(4).unwrap();
    let r3 = root_of_unity(3).unwrap();
    assert_eq!(fp_mul(r4, r4).v, r3.v);
    let mut x = root_of_unity(5).unwrap();
    let mut squarings: usize = 0;
    while squarings < 4 {
        x = fp_mul(x, x);
        squarings += 1;
    }
    assert_ne!(x.v, 1);
    assert_eq!(fp_mul(x, x).v, 1);
}
