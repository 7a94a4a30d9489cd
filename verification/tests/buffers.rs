use circuit_eval::buffer::{FpBuffer, Residency};
use circuit_eval::field::Fp;

#[test]
fn new_buffer_is_zero_filled() {
    let b = FpBuffer::new(5, Residency::Host);
    assert_eq!(b.size(), 5);
    let mut i: usize = 0;
    while i < 5 {
        assert_eq!(b.get(i).v, 0);
        i += 1;
    }
}

#[test]
fn set_and_get_roundtrip() {
    let mut b = FpBuffer::new(3, Residency::Host);
    b.set(1, Fp { v: 77 });
    assert_eq!(b.get(0).v, 0);
    assert_eq!(b.get(1).v, 77);
    assert_eq!(b.get(2).v, 0);
    assert_eq!(b.size(), 3);
}

#[test]
fn copy_in_copy_out_roundtrip() {
    let mut b = FpBuffer::new(4, Residency::Accelerator);
    let host = vec![Fp { v: 1 }, Fp { v: 2 }, Fp { v: 3 }, Fp { v: 4 }];
    b.copy_in(&host);
    assert_eq!(b.copy_out(), host);
    assert_eq!(b.size(), 4);
    assert_eq!(b.residency_of(), Residency::Accelerator);
}
