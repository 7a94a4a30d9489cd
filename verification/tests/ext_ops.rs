use circuit_eval::ext::{ext_add, ext_from_base, ext_mul, ext_one, ext_pow, ExtFp};
use circuit_eval::field::{Fp, PRIME};
use circuit_eval::layout::{mix_powers, mix_schedule};

fn ext(a: u32, b: u32, c: u32, d: u32) -> ExtFp {
    ExtFp {
        c0: Fp { v: a },
        c1: Fp { v: b },
        c2: Fp { v: c },
        c3: Fp { v: d },
    }
}

#[test]
fn one_is_multiplicative_identity() {
    let c = ext(1, 2, 3, 4);
    assert_eq!(ext_mul(ext_one(), c), c);
    assert_eq!(ext_mul(c, ext_one()), c);
}

#[test]
fn square_of_small_element() {
    let c = ext(1, 2, 3, 4);
    assert_eq!(
        ext_mul(c, c),
        ext(PRIME - 274, PRIME - 260, PRIME - 166, 20)
    );
}

#[test]
fn pow_matches_repeated_mul() {
    let c = ext(5, 0, 1, 9);
    assert_eq!(ext_pow(c, 0), ext_one());
    assert_eq!(ext_pow(c, 1), c);
    assert_eq!(ext_pow(c, 3), ext_mul(ext_mul(c, c), c));
}

#[test]
fn mix_powers_of_fixed_schedule() {
    let c = ext(1, 2, 3, 4);
    let schedule = mix_schedule();
    assert_eq!(schedule, vec![0u64, 1, 2]);
    let pows = mix_powers(c, &schedule);
    assert_eq!(pows.len(), 3);
    assert_eq!(pows[0], ext_one());
    assert_eq!(pows[1], c);
    assert_eq!(pows[2], ext(PRIME - 274, PRIME - 260, PRIME - 166, 20));
}

#[test]
fn add_is_coefficient_wise() {
    let a = ext(PRIME - 1, 5, 0, 7);
    let b = ext(2, 6, 0, PRIME - 7);
    assert_eq!(ext_add(a, b), ext(1, 11, 0, 0));
}

#[test]
fn from_base_embeds_constant() {
    assert_eq!(ext_from_base(Fp { v: 42 }), ext(42, 0, 0, 0));
}
