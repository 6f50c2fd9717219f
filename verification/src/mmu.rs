//! Addresses, page numbers and the layout of the address space.

use vstd::prelude::*;
use vstd::std_specs::convert::FromSpecImpl;
use vstd::std_specs::ops::AddSpecImpl;
use crate::page_table::Pte;

verus! {

/// Number of address-space identifiers.
pub const NASID: usize = 256;

/// Bytes in a page.
pub const PAGE_SIZE: usize = 4096;

/// Bytes mapped by one page-table entry.
pub const PTMAP: usize = PAGE_SIZE;

/// Bytes mapped by one page-directory entry.
pub const PDMAP: usize = 4 * 1024 * 1024;

/// Shift that yields a page number from an address.
pub const PGSHIFT: usize = 12;

/// Shift that yields a directory index from an address.
pub const PDSHIFT: usize = 22;

/// Offset of the hardware flags inside an entry.
pub const PTE_HARDFLAG_SHIFT: usize = 6;

/// Global flag.
pub const PTE_G: usize = 0x0040;

/// Valid flag.
pub const PTE_V: usize = 0x0080;

/// Dirty flag: the page may be written.
pub const PTE_D: usize = 0x0100;

/// Cacheable.
pub const PTE_C_CACHEABLE: usize = 0x0600;

/// Uncacheable.
pub const PTE_C_UNCACHEABLE: usize = 0x0400;

/// Software flag: copy on write.
pub const PTE_COW: usize = 0x0001;

/// Software flag: shared library page.
pub const PTE_LIBRARY: usize = 0x0002;

/// Start of the translated user segment.
pub const KUSEG: usize = 0x0000_0000;

/// Start of the direct-mapped cached kernel segment.
pub const KSEG0: usize = 0x8000_0000;

/// Start of the direct-mapped uncached kernel segment.
pub const KSEG1: usize = 0xA000_0000;

/// Start of the translated kernel segment.
pub const KSEG2: usize = 0xC000_0000;

/// Where the kernel image starts.
pub const KERNBASE: usize = 0x8002_0000;

/// End of user-accessible addresses.
pub const ULIM: usize = 0x8000_0000;

/// Top of the kernel stack.
pub const KSTACKTOP: usize = ULIM + PDMAP;

/// Read-only window onto the caller's own page tables.
pub const UVPT: usize = ULIM - PDMAP;

/// Read-only window onto the frame metadata.
pub const UPAGES: usize = UVPT - PDMAP;

/// Read-only window onto the environment table.
pub const UENVS: usize = UPAGES - PDMAP;

/// End of the memory a user may map.
pub const UTOP: usize = UENVS;

/// Top of the user exception stack.
pub const UXSTACKTOP: usize = UTOP;

/// Top of the normal user stack.
pub const USTACKTOP: usize = UTOP - 2 * PTMAP;

/// Start of user program text.
pub const UTEXT: usize = PDMAP;

/// Scratch page used during copy on write.
pub const UCOW: usize = UTEXT - PTMAP;

/// Lowest address a user may map.
pub const UTEMP: usize = UCOW - PTMAP;

/// A physical address.
#[derive(Clone, Copy, Debug, PartialEq, Eq, PartialOrd, Ord, Hash, Structural)]
pub struct PhysAddr(pub usize);

/// A virtual address.
#[derive(Clone, Copy, Debug, PartialEq, Eq, PartialOrd, Ord, Hash, Structural)]
pub struct VirtAddr(pub usize);

/// The number of a physical page frame.
#[derive(Clone, Copy, Debug, PartialEq, Eq, PartialOrd, Ord, Hash, Structural)]
pub struct PhysPageNum(pub usize);

/// The number of a virtual page.
#[derive(Clone, Copy, Debug, PartialEq, Eq, PartialOrd, Ord, Hash, Structural)]
pub struct VirtPageNum(pub usize);

/// Shifts and masks by page and directory sizes, as quotients and remainders.
pub proof fn lemma_page_bits(x: usize)
    ensures
        (x >> 22) & 0x3ff == (x / 0x40_0000) % 1024,
        (x >> 12) & 0x3ff == (x / 4096) % 1024,
        (x >> 12) & 0xfffff == (x / 4096) % 0x10_0000,
        x & !0xfffusize == x - x % 4096,
        x & 0xfff == x % 4096,
        x >> 12 == x / 4096,
{
    assert((x >> 22) & 0x3ff == (x / 0x40_0000) % 1024) by (bit_vector);
    assert((x >> 12) & 0x3ff == (x / 4096) % 1024) by (bit_vector);
    assert((x >> 12) & 0xfffff == (x / 4096) % 0x10_0000) by (bit_vector);
    assert(x & !0xfffusize == x - x % 4096) by (bit_vector);
    assert(x & 0xfff == x % 4096) by (bit_vector);
    assert(x >> 12 == x / 4096) by (bit_vector);
}

impl VirtAddr {
    /// Index into the page directory: bits 22 to 31.
    pub open spec fn spec_pdx(self) -> usize {
        (self.0 / 0x40_0000) % 1024
    }

    /// Index into the second-level table: bits 12 to 21.
    pub open spec fn spec_ptx(self) -> usize {
        (self.0 / 4096) % 1024
    }

    /// Offset inside the page: bits 0 to 11.
    pub open spec fn spec_page_offset(self) -> usize {
        self.0 % 4096
    }

    /// Address of the first byte of the page.
    pub open spec fn spec_page_align_down(self) -> int {
        self.0 - self.0 % 4096
    }

    /// Wraps a numeric address.
    pub fn new(addr: usize) -> (r: Self)
        ensures
            r.0 == addr,
    {
        Self(addr)
    }

    /// The address zero.
    pub fn zero() -> (r: Self)
        ensures
            r.0 == 0,
    {
        Self(0)
    }

    /// The numeric address.
    pub fn as_usize(self) -> (r: usize)
        ensures
            r == self.0,
    {
        self.0
    }

    /// Whether this is the null address.
    pub fn is_null(self) -> (r: bool)
        ensures
            r == (self.0 == 0),
    {
        self.0 == 0
    }

    /// Rounds up to the next address whose bits below `align`, a power of
    /// two, are clear.
    pub fn align_up(self, align: usize) -> (r: Self)
        requires
            align > 0,
            self.0 + align <= usize::MAX,
        ensures
            r.0 == ((self.0 + align - 1) as usize) & !((align - 1) as usize),
            r.0 & ((align - 1) as usize) == 0,
            self.0 <= r.0 < self.0 + align,
    {
        let t = self.0 + align - 1;
        let m = align - 1;
        proof {
            assert((t & !m) & m == 0 && t - m <= (t & !m) && (t & !m) <= t) by (bit_vector)
                requires
                    t >= m,
            ;
        }
        Self(t & !m)
    }

    /// Page directory index.
    pub fn pdx(self) -> (r: usize)
        ensures
            r == self.spec_pdx(),
            r < 1024,
    {
        proof {
            lemma_page_bits(self.0);
        }
        (self.0 >> PDSHIFT) & 0x3ff
    }

    /// Second-level table index.
    pub fn ptx(self) -> (r: usize)
        ensures
            r == self.spec_ptx(),
            r < 1024,
    {
        proof {
            lemma_page_bits(self.0);
        }
        (self.0 >> PGSHIFT) & 0x3ff
    }

    /// The address of the page that holds this address.
    pub fn page_align_down(self) -> (r: Self)
        ensures
            r.0 == self.spec_page_align_down(),
            r.0 % 4096 == 0,
            r.0 <= self.0 < r.0 + 4096,
    {
        proof {
            lemma_page_bits(self.0);
        }
        Self(self.0 & !0xfff)
    }

    /// Offset within the page.
    pub fn page_offset(self) -> (r: usize)
        ensures
            r == self.spec_page_offset(),
            r < 4096,
    {
        proof {
            lemma_page_bits(self.0);
        }
        self.0 & 0xfff
    }

    /// Whether the address is a multiple of `align`.
    pub fn is_aligned(self, align: usize) -> (r: bool)
        requires
            align != 0,
        ensures
            r == (self.0 % align == 0),
    {
        self.0 % align == 0
    }
}

impl core::ops::Add<usize> for VirtAddr {
    type Output = VirtAddr;

    fn add(self, rhs: usize) -> (r: VirtAddr) {
        VirtAddr(self.0 + rhs)
    }
}

impl AddSpecImpl<usize> for VirtAddr {
    open spec fn obeys_add_spec() -> bool {
        true
    }

    open spec fn add_req(self, rhs: usize) -> bool {
        self.0 + rhs <= usize::MAX
    }

    open spec fn add_spec(self, rhs: usize) -> VirtAddr {
        VirtAddr((self.0 + rhs) as usize)
    }
}

impl PhysAddr {
    /// Wraps a numeric address.
    pub fn new(addr: usize) -> (r: Self)
        ensures
            r.0 == addr,
    {
        Self(addr)
    }

    /// The physical address that an entry and an offset within its page name.
    pub fn new_from_pte(pte: Pte, offset: usize) -> (r: Self)
        requires
            pte.spec_ppn() * 4096 + offset <= usize::MAX,
        ensures
            r.0 == pte.spec_ppn() * 4096 + offset,
    {
        let ppn = pte.ppn().as_usize();
        proof {
            assert(ppn << 12 == ppn * 4096) by (bit_vector)
                requires
                    ppn < 0x10_0000,
            ;
        }
        Self((ppn << PGSHIFT) + offset)
    }

    /// The numeric address.
    pub fn as_usize(self) -> (r: usize)
        ensures
            r == self.0,
    {
        self.0
    }

    /// The physical address behind a direct-mapped kernel virtual address.
    pub fn from_kva(kva: VirtAddr) -> (r: Self)
        requires
            kva.0 >= ULIM,
        ensures
            r.0 == kva.0 - ULIM,
    {
        Self::new(kva.0 - ULIM)
    }

    /// The direct-mapped kernel virtual address of this physical address.
    pub fn into_kva(self) -> (r: VirtAddr)
        requires
            self.0 + ULIM <= usize::MAX,
        ensures
            r.0 == self.0 + ULIM,
    {
        VirtAddr::new(self.0 + ULIM)
    }

    /// Whether the address is a multiple of `align`.
    pub fn is_aligned(self, align: usize) -> (r: bool)
        requires
            align != 0,
        ensures
            r == (self.0 % align == 0),
    {
        self.0 % align == 0
    }
}

impl core::ops::Add<usize> for PhysAddr {
    type Output = PhysAddr;

    fn add(self, rhs: usize) -> (r: PhysAddr) {
        PhysAddr(self.0 + rhs)
    }
}

impl AddSpecImpl<usize> for PhysAddr {
    open spec fn obeys_add_spec() -> bool {
        true
    }

    open spec fn add_req(self, rhs: usize) -> bool {
        self.0 + rhs <= usize::MAX
    }

    open spec fn add_spec(self, rhs: usize) -> PhysAddr {
        PhysAddr((self.0 + rhs) as usize)
    }
}

impl PhysPageNum {
    /// Wraps a frame number.
    pub fn new(ppn: usize) -> (r: Self)
        ensures
            r.0 == ppn,
    {
        Self(ppn)
    }

    /// The frame number.
    pub fn as_usize(self) -> (r: usize)
        ensures
            r == self.0,
    {
        self.0
    }

    /// The number of steps from `start` up to `end`; `None` where `end` lies
    /// below `start`.
    pub fn steps_between(start: &Self, end: &Self) -> (r: Option<usize>)
        ensures
            r == (if start.0 <= end.0 {
                Some((end.0 - start.0) as usize)
            } else {
                None
            }),
    {
        if start.0 <= end.0 {
            Some(end.0 - start.0)
        } else {
            None
        }
    }

    /// The frame `count` steps above `start`, if its number fits a machine word.
    pub fn forward_checked(start: Self, count: usize) -> (r: Option<Self>)
        ensures
            r == (if start.0 + count <= usize::MAX {
                Some(PhysPageNum((start.0 + count) as usize))
            } else {
                None
            }),
    {
        match start.0.checked_add(count) {
            Some(n) => Some(Self::new(n)),
            None => None,
        }
    }

    /// The frame `count` steps below `start`, if there is one.
    pub fn backward_checked(start: Self, count: usize) -> (r: Option<Self>)
        ensures
            r == (if start.0 >= count {
                Some(PhysPageNum((start.0 - count) as usize))
            } else {
                None
            }),
    {
        match start.0.checked_sub(count) {
            Some(n) => Some(Self::new(n)),
            None => None,
        }
    }

    /// The direct-mapped kernel virtual address of the frame's first byte.
    pub fn into_kva(self) -> (r: VirtAddr)
        requires
            self.0 < 0x8_0000,
        ensures
            r.0 == self.0 * 4096 + ULIM,
    {
        proof {
            lemma_ppn_to_addr(self);
        }
        PhysAddr::from(self).into_kva()
    }
}

impl core::ops::Add<usize> for PhysPageNum {
    type Output = PhysPageNum;

    fn add(self, rhs: usize) -> (r: PhysPageNum) {
        PhysPageNum(self.0 + rhs)
    }
}

impl AddSpecImpl<usize> for PhysPageNum {
    open spec fn obeys_add_spec() -> bool {
        true
    }

    open spec fn add_req(self, rhs: usize) -> bool {
        self.0 + rhs <= usize::MAX
    }

    open spec fn add_spec(self, rhs: usize) -> PhysPageNum {
        PhysPageNum((self.0 + rhs) as usize)
    }
}

impl VirtPageNum {
    /// Wraps a page number.
    pub fn new(vpn: usize) -> (r: Self)
        ensures
            r.0 == vpn,
    {
        Self(vpn)
    }

    /// The page number.
    pub fn as_usize(self) -> (r: usize)
        ensures
            r == self.0,
    {
        self.0
    }
}

impl From<Pte> for PhysAddr {
    /// The address of the frame that the entry names.
    fn from(value: Pte) -> (r: PhysAddr) {
        proof {
            lemma_page_bits(value.0);
        }
        PhysAddr::new(value.0 & !0xfff)
    }
}

impl FromSpecImpl<Pte> for PhysAddr {
    open spec fn obeys_from_spec() -> bool {
        true
    }

    open spec fn from_spec(value: Pte) -> PhysAddr {
        PhysAddr((value.0 - value.0 % 4096) as usize)
    }
}

impl From<PhysAddr> for PhysPageNum {
    /// The frame that holds the address.
    fn from(value: PhysAddr) -> (r: PhysPageNum) {
        proof {
            lemma_page_bits(value.0);
        }
        PhysPageNum::new(value.0 >> PGSHIFT)
    }
}

impl FromSpecImpl<PhysAddr> for PhysPageNum {
    open spec fn obeys_from_spec() -> bool {
        true
    }

    open spec fn from_spec(value: PhysAddr) -> PhysPageNum {
        PhysPageNum(value.0 / 4096)
    }
}

impl From<PhysPageNum> for PhysAddr {
    /// The address of the frame's first byte; bits that do not fit a word are lost.
    fn from(value: PhysPageNum) -> (r: PhysAddr) {
        PhysAddr::new(value.0 << PGSHIFT)
    }
}

impl FromSpecImpl<PhysPageNum> for PhysAddr {
    open spec fn obeys_from_spec() -> bool {
        true
    }

    open spec fn from_spec(value: PhysPageNum) -> PhysAddr {
        PhysAddr(value.0 << 12)
    }
}

/// The address of a frame is its number times the page size, while that fits a 32-bit word.
pub proof fn lemma_ppn_to_addr(ppn: PhysPageNum)
    requires
        ppn.0 < 0x10_0000,
    ensures
        ppn.0 << 12 == ppn.0 * 4096,
        (ppn.0 << 12) / 4096 == ppn.0,
{
    let x = ppn.0;
    assert(x << 12 == x * 4096) by (bit_vector)
        requires
            x < 0x10_0000,
    ;
}

} // verus!
