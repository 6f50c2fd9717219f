//! The gateway to the hardware TLB.

use vstd::prelude::*;
use crate::bitops::{genmask, spec_genmask};
use crate::env::ASID;
use crate::mmu::{NASID, PGSHIFT, VirtAddr};

verus! {

/// The gateway to the hardware TLB. The kernel never touches the TLB itself:
/// it records here which entries have to go, in order, and the trap exit path
/// hands each recorded word to the hardware before user code runs again.
pub struct Tlb {
    pending: Vec<usize>,
}

/// The word that names the TLB entry of page `va` in address space `asid`: the
/// page address in the upper bits, the low eight bits of the identifier below.
pub open spec fn tlb_entry(asid: ASID, va: VirtAddr) -> usize {
    (va.0 - va.0 % 4096 + asid.0 % 256) as usize
}

impl View for Tlb {
    type V = Seq<usize>;

    /// The invalidations recorded and not yet taken, oldest first.
    closed spec fn view(&self) -> Seq<usize> {
        self.pending@
    }
}

impl Tlb {
    /// A gateway with nothing recorded.
    pub fn new() -> (r: Self)
        ensures
            r@ == Seq::<usize>::empty(),
    {
        Tlb { pending: Vec::new() }
    }

    /// Records that the entry of `va` in `asid` must be invalidated.
    pub fn invalidate(&mut self, asid: ASID, va: VirtAddr)
        ensures
            final(self)@ == old(self)@.push(tlb_entry(asid, va)),
    {
        let mask = genmask(PGSHIFT - 1, 0);
        let x = va.as_usize();
        let a = asid.as_usize();
        proof {
            assert(spec_genmask(11, 0) == 0xfffu32) by (bit_vector);
            assert((x & !0xfffusize) | (a & 0xffusize) == x - x % 4096 + a % 256) by (bit_vector);
        }
        let entry = (x & !mask) | (a & (NASID - 1));
        self.pending.push(entry);
    }

    /// Hands out the recorded invalidations, oldest first, and forgets them.
    pub fn take(&mut self) -> (r: Vec<usize>)
        ensures
            r@ == old(self)@,
            final(self)@ == Seq::<usize>::empty(),
    {
        let mut out: Vec<usize> = Vec::new();
        core::mem::swap(&mut out, &mut self.pending);
        out
    }

    /// How many invalidations are recorded.
    pub fn pending_len(&self) -> (r: usize)
        ensures
            r == self@.len(),
    {
        self.pending.len()
    }
}

/// Invalidates the TLB entry of `va` in address space `asid`.
pub fn tlb_invalidate(tlb: &mut Tlb, asid: ASID, va: VirtAddr)
    ensures
        final(tlb)@ == old(tlb)@.push(tlb_entry(asid, va)),
{
    tlb.invalidate(asid, va);
}

} // verus!
