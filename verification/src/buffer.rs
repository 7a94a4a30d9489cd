use vstd::prelude::*;

use crate::field::{fp_wf, Fp};

verus! {

/// Where a buffer's storage lives.  The verified backends in this crate
/// compute on host-resident data; the tag travels with the buffer so that
/// an accelerated implementation of the same contract can keep the
/// distinction.
#[derive(Clone, Copy, PartialEq, Eq, Structural, Debug)]
pub enum Residency {
    Host,
    Accelerator,
}

/// An owned, homogeneous container of base-field elements with a stable
/// logical size: the length is fixed at creation and no operation changes
/// it.  Buffers never alias; each is exclusively owned until transferred.
pub struct FpBuffer {
    data: Vec<Fp>,
    residency: Residency,
}

/// A buffer is well-formed when every element it holds is reduced.
pub open spec fn buf_wf(b: FpBuffer) -> bool {
    forall|i: int| 0 <= i < b@.len() ==> fp_wf(#[trigger] b@[i])
}

impl FpBuffer {
    /// The buffer's contents as a mathematical sequence.
    pub closed spec fn view(&self) -> Seq<Fp> {
        self.data@
    }

    /// The residency tag the buffer was created with.
    pub closed spec fn residency(&self) -> Residency {
        self.residency
    }

    /// Allocate a zero-filled buffer of the given logical length.
    pub fn new(len: usize, residency: Residency) -> (r: FpBuffer)
        ensures
            r@ == Seq::new(len as nat, |i: int| Fp { v: 0 }),
            r.residency() == residency,
            buf_wf(r),
    {
        let mut data: Vec<Fp> = Vec::new();
        let mut i: usize = 0;
        while i < len
            invariant
                i <= len,
                data@ == Seq::new(i as nat, |j: int| Fp { v: 0 }),
            decreases len - i,
        {
            data.push(Fp { v: 0 });
            proof {
                assert(data@ =~= Seq::new((i + 1) as nat, |j: int| Fp { v: 0 }));
            }
            i = i + 1;
        }
        let r = FpBuffer { data, residency };
        proof {
            assert(r@ =~= Seq::new(len as nat, |i: int| Fp { v: 0 }));
        }
        r
    }

    /// The residency tag, as a value a caller can branch on.
    pub fn residency_of(&self) -> (r: Residency)
        ensures
            r == self.residency(),
    {
        self.residency
    }

    /// The buffer's logical length.
    pub fn size(&self) -> (n: usize)
        ensures
            n == self@.len(),
    {
        self.data.len()
    }

    /// Read the element at index `i`.
    pub fn get(&self, i: usize) -> (r: Fp)
        requires
            i < self@.len(),
        ensures
            r == self@[i as int],
    {
        self.data[i]
    }

    /// Overwrite the element at index `i`.
    pub fn set(&mut self, i: usize, value: Fp)
        requires
            i < old(self)@.len(),
        ensures
            final(self)@ == old(self)@.update(i as int, value),
            final(self).residency() == old(self).residency(),
    {
        self.data.set(i, value);
    }

    /// Replace the whole contents with host data of the same length.
    pub fn copy_in(&mut self, src: &Vec<Fp>)
        requires
            src@.len() == old(self)@.len(),
        ensures
            final(self)@ == src@,
            final(self).residency() == old(self).residency(),
    {
        let mut data: Vec<Fp> = Vec::new();
        let mut i: usize = 0;
        let len: usize = src.len();
        while i < len
            invariant
                i <= len,
                len == src@.len(),
                data@ == src@.subrange(0, i as int),
            decreases len - i,
        {
            data.push(src[i]);
            proof {
                assert(data@ =~= src@.subrange(0, (i + 1) as int));
            }
            i = i + 1;
        }
        proof {
            assert(data@ =~= src@);
        }
        self.data = data;
    }

    /// Copy the whole contents out to host data.
    pub fn copy_out(&self) -> (r: Vec<Fp>)
        ensures
            r@ == self@,
    {
        let mut out: Vec<Fp> = Vec::new();
        let mut i: usize = 0;
        let len: usize = self.data.len();
        while i < len
            invariant
                i <= len,
                len == self@.len(),
                out@ == self@.subrange(0, i as int),
            decreases len - i,
        {
            out.push(self.data[i]);
            proof {
                assert(out@ =~= self@.subrange(0, (i + 1) as int));
            }
            i = i + 1;
        }
        proof {
            assert(out@ =~= self@);
        }
        out
    }
}

} // verus!
