use circuit_eval::buffer::{FpBuffer, Residency};
use circuit_eval::errors::EvalError;
use circuit_eval::eval;
use circuit_eval::ext::{ext_one, ExtFp};
use circuit_eval::field::Fp;

fn buf(vals: &[u32]) -> FpBuffer {
    let mut b = FpBuffer::new(vals.len(), Residency::Host);
    let mut host: Vec<Fp> = Vec::new();
    let mut i: usize = 0;
    while i < vals.len() {
        host.push(Fp { v: vals[i] });
        i += 1;
    }
    b.copy_in(&host);
    b
}

fn pattern_groups(steps: usize) -> Vec<FpBuffer> {
    let mut ctrl: Vec<u32> = Vec::new();
    let mut data: Vec<u32> = Vec::new();
    let mut accum: Vec<u32> = Vec::new();
    let mut i: u32 = 0;
    while (i as usize) < steps {
        ctrl.push(i * 3 + 1);
        data.push(i * 5 + 2);
        accum.push(i * 7 + 3);
        i += 1;
    }
    vec![buf(&ctrl), buf(&data), buf(&accum)]
}

fn pattern_globals() -> Vec<FpBuffer> {
    vec![buf(&[11, 11, 11, 11]), buf(&[13, 13])]
}

fn zero_groups(steps: usize) -> Vec<FpBuffer> {
    vec![
        FpBuffer::new(steps, Residency::Host),
        FpBuffer::new(steps, Residency::Host),
        FpBuffer::new(steps, Residency::Host),
    ]
}

fn zero_globals() -> Vec<FpBuffer> {
    vec![
        FpBuffer::new(4, Residency::Host),
        FpBuffer::new(2, Residency::Host),
    ]
}

fn challenge() -> ExtFp {
    ExtFp {
        c0: Fp { v: 1 },
        c1: Fp { v: 2 },
        c2: Fp { v: 3 },
        c3: Fp { v: 4 },
    }
}

#[test]
fn eval_check() {
    // the sequential reference backend against the tiled dispatch-style
    // backend, on the same inputs at po2 = 4: bit-identical check buffers
    let po2: usize = 4;
    let steps: usize = 16;
    let domain: usize = steps * 4;
    let groups = pattern_groups(steps);
    let globals = pattern_globals();

    let mut check_ref = FpBuffer::new(domain, Residency::Host);
    let r = eval::eval_check(&mut check_ref, &groups, &globals, challenge(), po2, steps);
    assert_eq!(r, Ok(()));

    let mut check_tiled = FpBuffer::new(domain, Residency::Host);
    let r = eval::eval_check_tiled(
        &mut check_tiled,
        &groups,
        &globals,
        challenge(),
        po2,
        steps,
        7,
    );
    assert_eq!(r, Ok(()));
    assert_eq!(check_ref.copy_out(), check_tiled.copy_out());

    let mut check_whole = FpBuffer::new(domain, Residency::Host);
    let r = eval::eval_check_tiled(
        &mut check_whole,
        &groups,
        &globals,
        challenge(),
        po2,
        steps,
        domain,
    );
    assert_eq!(r, Ok(()));
    assert_eq!(check_ref.copy_out(), check_whole.copy_out());
}

#[test]
fn determinism_of_repeated_calls() {
    let po2: usize = 4;
    let steps: usize = 16;
    let domain: usize = steps * 4;
    let groups = pattern_groups(steps);
    let globals = pattern_globals();

    let mut first = FpBuffer::new(domain, Residency::Host);
    assert_eq!(
        eval::eval_check(&mut first, &groups, &globals, challenge(), po2, steps),
        Ok(())
    );
    let mut second = FpBuffer::new(domain, Residency::Host);
    assert_eq!(
        eval::eval_check(&mut second, &groups, &globals, challenge(), po2, steps),
        Ok(())
    );
    assert_eq!(first.copy_out(), second.copy_out());
}

#[test]
fn evaluation_order_does_not_matter() {
    let po2: usize = 4;
    let steps: usize = 16;
    let domain: usize = steps * 4;
    let groups = pattern_groups(steps);
    let globals = pattern_globals();

    let mut natural = FpBuffer::new(domain, Residency::Host);
    assert_eq!(
        eval::eval_check(&mut natural, &groups, &globals, challenge(), po2, steps),
        Ok(())
    );

    let mut reversed_order: Vec<usize> = Vec::new();
    let mut i: usize = domain;
    while i > 0 {
        i -= 1;
        reversed_order.push(i);
    }
    let mut reversed = FpBuffer::new(domain, Residency::Host);
    assert_eq!(
        eval::eval_check_with_order(
            &mut reversed,
            &groups,
            &globals,
            challenge(),
            po2,
            steps,
            &reversed_order,
        ),
        Ok(())
    );
    assert_eq!(natural.copy_out(), reversed.copy_out());

    // an interleaved traversal: evens first, then odds
    let mut strided_order: Vec<usize> = Vec::new();
    let mut i: usize = 0;
    while i < domain {
        strided_order.push(i);
        i += 2;
    }
    let mut i: usize = 1;
    while i < domain {
        strided_order.push(i);
        i += 2;
    }
    let mut strided = FpBuffer::new(domain, Residency::Host);
    assert_eq!(
        eval::eval_check_with_order(
            &mut strided,
            &groups,
            &globals,
            challenge(),
            po2,
            steps,
            &strided_order,
        ),
        Ok(())
    );
    assert_eq!(natural.copy_out(), strided.copy_out());
}

#[test]
fn every_index_overwritten_no_stale_values() {
    let po2: usize = 4;
    let steps: usize = 16;
    let domain: usize = steps * 4;
    let groups = pattern_groups(steps);
    let globals = pattern_globals();

    let mut fresh = FpBuffer::new(domain, Residency::Host);
    assert_eq!(
        eval::eval_check(&mut fresh, &groups, &globals, challenge(), po2, steps),
        Ok(())
    );

    // a reused buffer full of leftover junk must end up bit-identical
    let junk: Vec<u32> = vec![999; domain];
    let mut reused = buf(&junk);
    assert_eq!(
        eval::eval_check(&mut reused, &groups, &globals, challenge(), po2, steps),
        Ok(())
    );
    let out = reused.copy_out();
    assert_eq!(fresh.copy_out(), out);
    let mut i: usize = 0;
    while i < domain {
        assert_ne!(out[i].v, 999);
        i += 1;
    }
}

#[test]
fn zero_trace_yields_all_zero_check() {
    // steps = 16 (po2 = 4), inverse rate 4, domain = 64: an all-zero trace
    // with challenge 1 evaluates to the additive identity at every point
    let po2: usize = 4;
    let steps: usize = 16;
    let domain: usize = steps * 4;
    let groups = zero_groups(steps);
    let globals = zero_globals();

    let mut check = FpBuffer::new(domain, Residency::Host);
    assert_eq!(
        eval::eval_check(&mut check, &groups, &globals, ext_one(), po2, steps),
        Ok(())
    );
    assert_eq!(check.size(), 64);
    let out = check.copy_out();
    let mut i: usize = 0;
    while i < domain {
        assert_eq!(out[i].v, 0);
        i += 1;
    }
}

#[test]
fn exact_point_values_for_tiny_domain() {
    // po2 = 0: one trace row, domain 4; every value pinned exactly
    let groups = vec![buf(&[9]), buf(&[8]), buf(&[7])];
    let globals = vec![buf(&[5]), buf(&[3])];
    let mut check = FpBuffer::new(4, Residency::Host);
    assert_eq!(
        eval::eval_check(&mut check, &groups, &globals, challenge(), 0, 1),
        Ok(())
    );
    let out = check.copy_out();
    assert_eq!(out[0].v, 2013261258);
    assert_eq!(out[1].v, 1370283189);
    assert_eq!(out[2].v, 2013261098);
    assert_eq!(out[3].v, 642992286);
}

#[test]
fn top_of_table_po2_succeeds() {
    let po2: usize = 14;
    let steps: usize = 16384;
    let domain: usize = steps * 4;
    let groups = zero_groups(steps);
    let globals = zero_globals();
    let mut check = FpBuffer::new(domain, Residency::Host);
    assert_eq!(
        eval::eval_check(&mut check, &groups, &globals, ext_one(), po2, steps),
        Ok(())
    );
    assert_eq!(check.get(domain - 1).v, 0);
}

#[test]
fn one_past_table_po2_fails_domain_too_large() {
    let po2: usize = 15;
    let steps: usize = 32768;
    let domain: usize = steps * 4;
    let groups = zero_groups(steps);
    let globals = zero_globals();
    let junk: Vec<u32> = vec![5; domain];
    let mut check = buf(&junk);
    assert_eq!(
        eval::eval_check(&mut check, &groups, &globals, ext_one(), po2, steps),
        Err(EvalError::DomainTooLarge)
    );
    // nothing was written
    let out = check.copy_out();
    assert_eq!(out[0].v, 5);
    assert_eq!(out[domain - 1].v, 5);
}

#[test]
fn wrong_group_count_rejected() {
    let steps: usize = 16;
    let groups = vec![buf(&[0; 16]), buf(&[0; 16])];
    let globals = zero_globals();
    let junk: Vec<u32> = vec![7; 64];
    let mut check = buf(&junk);
    assert_eq!(
        eval::eval_check(&mut check, &groups, &globals, ext_one(), 4, steps),
        Err(EvalError::InvalidLayout)
    );
    let out = check.copy_out();
    let mut i: usize = 0;
    while i < 64 {
        assert_eq!(out[i].v, 7);
        i += 1;
    }
}

#[test]
fn mismatched_group_size_rejected() {
    let steps: usize = 16;
    let groups = vec![buf(&[0; 16]), buf(&[0; 8]), buf(&[0; 16])];
    let globals = zero_globals();
    let mut check = FpBuffer::new(64, Residency::Host);
    assert_eq!(
        eval::eval_check(&mut check, &groups, &globals, ext_one(), 4, steps),
        Err(EvalError::InvalidLayout)
    );
}

#[test]
fn wrong_global_count_rejected() {
    let steps: usize = 16;
    let groups = zero_groups(steps);
    let globals = vec![FpBuffer::new(4, Residency::Host)];
    let mut check = FpBuffer::new(64, Residency::Host);
    assert_eq!(
        eval::eval_check(&mut check, &groups, &globals, ext_one(), 4, steps),
        Err(EvalError::InvalidLayout)
    );
}

#[test]
fn steps_not_matching_po2_rejected() {
    let steps: usize = 17;
    let groups = zero_groups(steps);
    let globals = zero_globals();
    let mut check = FpBuffer::new(68, Residency::Host);
    assert_eq!(
        eval::eval_check(&mut check, &groups, &globals, ext_one(), 4, steps),
        Err(EvalError::InvalidLayout)
    );
}

#[test]
fn wrong_check_length_rejected() {
    let steps: usize = 16;
    let groups = zero_groups(steps);
    let globals = zero_globals();
    let mut check = FpBuffer::new(32, Residency::Host);
    assert_eq!(
        eval::eval_check(&mut check, &groups, &globals, ext_one(), 4, steps),
        Err(EvalError::InvalidLayout)
    );
}
