use circuit_eval::buffer::{FpBuffer, Residency};
use circuit_eval::eval::{CircuitHal, ReferenceHal, TiledHal};
use circuit_eval::ext::ExtFp;
use circuit_eval::field::Fp;

fn filled(vals: &[u32]) -> FpBuffer {
    let mut b = FpBuffer::new(vals.len(), Residency::Host);
    let mut host: Vec<Fp> = Vec::new();
    let mut i: usize = 0;
    while i < vals.len() {
        host.push(Fp { v: vals[i] });
        i += 1;
    }
    b.copy_in(&host);
    b
}

fn run_backend<H: CircuitHal>(hal: &H) -> Vec<Fp> {
    let po2: usize = 2;
    let steps: usize = 4;
    let domain: usize = steps * 4;
    let groups = vec![
        filled(&[1, 2, 3, 4]),
        filled(&[10, 20, 30, 40]),
        filled(&[100, 200, 300, 400]),
    ];
    let globals = vec![filled(&[6, 6]), filled(&[8])];
    let poly_mix = ExtFp {
        c0: Fp { v: 2 },
        c1: Fp { v: 0 },
        c2: Fp { v: 5 },
        c3: Fp { v: 1 },
    };
    let mut check = FpBuffer::new(domain, Residency::Host);
    let r = hal.eval_check(&mut check, &groups, &globals, poly_mix, po2, steps);
    assert_eq!(r, Ok(()));
    check.copy_out()
}

#[test]
fn capability_handles_agree() {
    let reference = run_backend(&ReferenceHal);
    assert_eq!(reference, run_backend(&TiledHal { tile: 1 }));
    assert_eq!(reference, run_backend(&TiledHal { tile: 3 }));
    assert_eq!(reference, run_backend(&TiledHal { tile: 1000 }));
}
