//! The gateway to the registers of console and disk.

use vstd::prelude::*;
use crate::mmu::{KSEG1, PhysAddr, VirtAddr};

verus! {

/// Physical address of the console registers.
pub const CONSOLE_ADDR: usize = 0x1800_03f8;

/// Physical address of the disk registers.
pub const DISK_ADDR: usize = 0x1800_01f0;

/// Bytes of console registers.
pub const CONSOLE_LEN: usize = 0x20;

/// Bytes of disk registers.
pub const DISK_LEN: usize = 0x8;

/// One access to a device register that the kernel has granted: a single
/// load and store of `width` bytes from `src` to `dst`, one of which is the
/// uncached kernel address of the register.
#[derive(Clone, Copy, Debug, PartialEq, Eq, Structural)]
pub struct DevCopy {
    pub src: VirtAddr,
    pub dst: VirtAddr,
    pub width: usize,
}

/// The gateway to the device registers. The kernel decides which accesses
/// are allowed and records them here; the driver performs them.
pub struct DeviceManager {
    pending: Vec<DevCopy>,
}

/// The uncached kernel address of the device register at `pa`.
pub open spec fn dev_kva(pa: PhysAddr) -> VirtAddr {
    VirtAddr(pa.0 | KSEG1)
}

/// The access that reads `width` bytes from the register at `pa` to `va`.
pub open spec fn dev_read(va: VirtAddr, pa: PhysAddr, width: usize) -> DevCopy {
    DevCopy { src: dev_kva(pa), dst: va, width }
}

/// The access that writes `width` bytes from `va` to the register at `pa`.
pub open spec fn dev_write(va: VirtAddr, pa: PhysAddr, width: usize) -> DevCopy {
    DevCopy { src: va, dst: dev_kva(pa), width }
}

/// Below the size of the uncached segment, its address is the physical
/// address plus the base of the segment.
pub proof fn lemma_dev_kva(pa: PhysAddr)
    requires
        pa.0 < 0x2000_0000,
    ensures
        dev_kva(pa).0 == pa.0 + KSEG1,
{
    let x = pa.0;
    assert(x | 0xA000_0000usize == x + 0xA000_0000) by (bit_vector)
        requires
            x < 0x2000_0000,
    ;
}

impl View for DeviceManager {
    type V = Seq<DevCopy>;

    /// The accesses granted and not yet taken, oldest first.
    closed spec fn view(&self) -> Seq<DevCopy> {
        self.pending@
    }
}

impl DeviceManager {
    /// A gateway with nothing recorded.
    pub fn new() -> (r: Self)
        ensures
            r@ == Seq::<DevCopy>::empty(),
    {
        DeviceManager { pending: Vec::new() }
    }

    /// Grants a read of `width` bytes from the device register at `pa` to `va`.
    pub fn read(&mut self, va: VirtAddr, pa: PhysAddr, width: usize)
        ensures
            final(self)@ == old(self)@.push(dev_read(va, pa, width)),
    {
        let kva = VirtAddr::new(pa.as_usize() | KSEG1);
        self.dev_copy(kva, va, width);
    }

    /// Grants a write of `width` bytes from `va` to the device register at `pa`.
    pub fn write(&mut self, va: VirtAddr, pa: PhysAddr, width: usize)
        ensures
            final(self)@ == old(self)@.push(dev_write(va, pa, width)),
    {
        let kva = VirtAddr::new(pa.as_usize() | KSEG1);
        self.dev_copy(va, kva, width);
    }

    /// Records one access.
    fn dev_copy(&mut self, src: VirtAddr, dst: VirtAddr, width: usize)
        ensures
            final(self)@ == old(self)@.push(DevCopy { src, dst, width }),
    {
        self.pending.push(DevCopy { src, dst, width });
    }

    /// Hands the granted accesses to the driver, oldest first, and forgets them.
    pub fn take(&mut self) -> (r: Vec<DevCopy>)
        ensures
            r@ == old(self)@,
            final(self)@ == Seq::<DevCopy>::empty(),
    {
        let mut out: Vec<DevCopy> = Vec::new();
        core::mem::swap(&mut out, &mut self.pending);
        out
    }
}

} // verus!
