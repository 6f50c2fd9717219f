//! Two-level page tables: walk, lookup, insert, remove, translate, and the refill of the TLB.

use vstd::prelude::*;
use crate::env::ASID;
use crate::err::Error;
use crate::frame::{FrameAllocator, FrameState};
use crate::mmu::{
    lemma_page_bits, PAGE_SIZE, PGSHIFT, PhysAddr, PhysPageNum, PTE_C_CACHEABLE, PTE_D, PTE_V, UENVS, ULIM,
    USTACKTOP, UTEMP, UVPT, VirtAddr,
};
use crate::tlb::{Tlb, tlb_entry, tlb_invalidate};

verus! {

/// Entries in one page table or page directory.
pub const PAGE_TABLE_ENTRIES: usize = 1024;

/// A page-table entry: a frame number above twelve flag bits. Directory entries
/// have the same shape.
#[derive(Clone, Copy, Debug, PartialEq, Eq, PartialOrd, Ord, Hash, Structural)]
pub struct Pte(pub usize);

/// One frame read as a table of 1024 entries: a page directory or a
/// second-level page table.
pub struct PageTable {
    pub entries: [Pte; PAGE_TABLE_ENTRIES],
}

/// The place of one entry in physical memory: a frame and an index into it.
#[derive(Clone, Copy, Debug, PartialEq, Eq, Structural)]
pub struct PteSlot {
    pub table: PhysPageNum,
    pub index: usize,
}

/// A table whose entries are all zero.
pub open spec fn zero_table() -> Seq<Pte> {
    Seq::new(1024, |i: int| Pte(0))
}

impl View for PageTable {
    type V = Seq<Pte>;

    open spec fn view(&self) -> Seq<Pte> {
        self.entries@
    }
}

impl Pte {
    /// The frame number held in bits 12 to 31.
    pub open spec fn spec_ppn(self) -> usize {
        (self.0 / 4096) % 0x10_0000
    }

    /// The twelve flag bits.
    pub open spec fn spec_perm(self) -> usize {
        self.0 % 4096
    }

    /// Whether the valid flag is set.
    pub open spec fn spec_valid(self) -> bool {
        self.0 & PTE_V != 0
    }

    /// The entry that names frame `ppn` with flags `perm`.
    pub open spec fn spec_from_ppn(ppn: PhysPageNum, perm: usize) -> Pte {
        Pte((ppn.0 << 12) | perm)
    }

    /// Wraps a raw entry.
    pub fn new(pte: usize) -> (r: Self)
        ensures
            r.0 == pte,
    {
        Self(pte)
    }

    /// Builds the entry that names frame `ppn` with flags `perm`.
    pub fn new_from_ppn(ppn: PhysPageNum, perm: usize) -> (r: Self)
        ensures
            r == Self::spec_from_ppn(ppn, perm),
    {
        Self((ppn.as_usize() << PGSHIFT) | perm)
    }

    /// The raw entry.
    pub fn as_usize(self) -> (r: usize)
        ensures
            r == self.0,
    {
        self.0
    }

    /// The frame that the entry names.
    pub fn ppn(self) -> (r: PhysPageNum)
        ensures
            r.0 == self.spec_ppn(),
            r.0 < 0x10_0000,
    {
        proof {
            lemma_page_bits(self.0);
        }
        PhysPageNum::new((self.0 >> PGSHIFT) & 0xfffff)
    }

    /// The flags of the entry.
    pub fn perm(self) -> (r: usize)
        ensures
            r == self.spec_perm(),
            r < 4096,
    {
        proof {
            lemma_page_bits(self.0);
        }
        self.0 & 0xfff
    }

    /// Whether the entry is valid.
    pub fn valid(self) -> (r: bool)
        ensures
            r == self.spec_valid(),
    {
        self.0 & PTE_V != 0
    }

    /// The physical address of the frame that the entry names.
    pub fn addr(self) -> (r: PhysAddr)
        ensures
            r.0 == self.0 - self.0 % 4096,
    {
        proof {
            lemma_page_bits(self.0);
        }
        PhysAddr::new(self.0 & !0xfff)
    }
}

impl PageTable {
    /// A table whose entries are all zero.
    pub fn new() -> (r: Self)
        ensures
            r@ == zero_table(),
    {
        let r = PageTable { entries: [Pte(0); PAGE_TABLE_ENTRIES] };
        proof {
            assert(r@ =~= zero_table());
        }
        r
    }

    /// Stores `pte` at index `ptx`.
    pub fn set_entry(&mut self, ptx: usize, pte: Pte)
        requires
            ptx < PAGE_TABLE_ENTRIES,
        ensures
            final(self)@ == old(self)@.update(ptx as int, pte),
    {
        self.entries[ptx] = pte;
    }

    /// The entry at index `ptx`.
    pub fn get_entry(&self, ptx: usize) -> (r: Pte)
        requires
            ptx < PAGE_TABLE_ENTRIES,
        ensures
            r == self@[ptx as int],
    {
        self.entries[ptx]
    }
}

/// The flags that every installed mapping carries besides those asked for.
pub open spec fn installed_perm(perm: usize) -> usize {
    perm | PTE_C_CACHEABLE | PTE_V
}

/// The entry at `slot`.
pub open spec fn slot_entry(s: FrameState, slot: PteSlot) -> Pte {
    s.entry(slot.table.0 as int, slot.index as int)
}

/// The directory entry that covers `va` in directory `d`.
pub open spec fn spec_pde(s: FrameState, d: PhysPageNum, va: VirtAddr) -> Pte {
    s.entry(d.0 as int, va.spec_pdx() as int)
}

/// Where the entry for `va` lies, if the directory entry that covers `va` is valid.
pub open spec fn spec_walk(s: FrameState, d: PhysPageNum, va: VirtAddr) -> Option<PteSlot> {
    let pde = spec_pde(s, d, va);
    if pde.spec_valid() {
        Some(PteSlot { table: PhysPageNum(pde.spec_ppn()), index: va.spec_ptx() })
    } else {
        None
    }
}

/// Where the entry for `va` lies, if `va` is mapped.
pub open spec fn spec_lookup(s: FrameState, d: PhysPageNum, va: VirtAddr) -> Option<PteSlot> {
    match spec_walk(s, d, va) {
        Some(slot) => if slot_entry(s, slot).spec_valid() {
            Some(slot)
        } else {
            None
        },
        None => None,
    }
}

/// The physical address that `va` translates to, if `va` is mapped.
pub open spec fn spec_translate(s: FrameState, d: PhysPageNum, va: VirtAddr) -> Option<PhysAddr> {
    match spec_lookup(s, d, va) {
        Some(slot) => Some(
            PhysAddr((slot_entry(s, slot).spec_ppn() * 4096 + va.spec_page_offset()) as usize),
        ),
        None => None,
    }
}

/// The directory is a frame of memory, and so is the table that covers `va`,
/// if there is one: a walk for `va` stays inside physical memory.
pub open spec fn walkable(s: FrameState, d: PhysPageNum, va: VirtAddr) -> bool {
    &&& d.0 < s.nframes()
    &&& spec_pde(s, d, va).spec_valid() ==> spec_pde(s, d, va).spec_ppn() < s.nframes()
}

/// Whether a walk for `va` that may create the second-level table finds no
/// frame for it.
pub open spec fn walk_create_fails(s: FrameState, d: PhysPageNum, va: VirtAddr) -> bool {
    !spec_pde(s, d, va).spec_valid() && s.free.len() == 0
}

/// The state after a walk for `va` that creates the second-level table where
/// it is missing and a frame is free: the head of the free list is zeroed,
/// gets one reference and is entered in the directory.
pub open spec fn after_walk_create(s: FrameState, d: PhysPageNum, va: VirtAddr) -> FrameState {
    if spec_pde(s, d, va).spec_valid() || s.free.len() == 0 {
        s
    } else {
        let t = s.free[0];
        s.after_alloc().after_incref(t as int).after_write(
            d.0 as int,
            va.spec_pdx() as int,
            Pte::spec_from_ppn(PhysPageNum(t), PTE_C_CACHEABLE | PTE_V),
        )
    }
}

/// The slot that a creating walk for `va` returns when it does not fail.
pub open spec fn walk_create_slot(s: FrameState, d: PhysPageNum, va: VirtAddr) -> PteSlot {
    if spec_pde(s, d, va).spec_valid() {
        PteSlot { table: PhysPageNum(spec_pde(s, d, va).spec_ppn()), index: va.spec_ptx() }
    } else {
        PteSlot { table: PhysPageNum(s.free[0]), index: va.spec_ptx() }
    }
}

/// What `remove` needs: the walk stays in memory, and a mapped frame is a
/// frame of memory on which a reference is held.
pub open spec fn remove_pre(s: FrameState, d: PhysPageNum, va: VirtAddr) -> bool {
    &&& walkable(s, d, va)
    &&& match spec_lookup(s, d, va) {
        Some(slot) => {
            let p = slot_entry(s, slot).spec_ppn();
            p < s.nframes() && s.refs[p as int] > 0
        },
        None => true,
    }
}

/// The state after the mapping of `va` has been removed: the mapped frame
/// loses one reference and the entry becomes zero. Nothing changes where `va`
/// is not mapped.
pub open spec fn after_remove(s: FrameState, d: PhysPageNum, va: VirtAddr) -> FrameState {
    match spec_lookup(s, d, va) {
        Some(slot) => s.after_decref(slot_entry(s, slot).spec_ppn() as int).after_write(
            slot.table.0 as int,
            slot.index as int,
            Pte(0),
        ),
        None => s,
    }
}

/// The invalidations that `remove` records.
pub open spec fn tlb_after_remove(
    s: FrameState,
    log: Seq<usize>,
    d: PhysPageNum,
    asid: ASID,
    va: VirtAddr,
) -> Seq<usize> {
    if spec_lookup(s, d, va).is_some() {
        log.push(tlb_entry(asid, va))
    } else {
        log
    }
}

/// Whether `va` is mapped to frame `ppn` already.
pub open spec fn maps_same(s: FrameState, d: PhysPageNum, ppn: PhysPageNum, va: VirtAddr) -> bool {
    match spec_lookup(s, d, va) {
        Some(slot) => slot_entry(s, slot).spec_ppn() == ppn.0,
        None => false,
    }
}

/// What `insert` needs: the walk stays in memory, a mapping that it replaces
/// can be removed, and, unless `va` maps `ppn` already, `ppn` is a frame in
/// use whose count can grow.
pub open spec fn insert_pre(s: FrameState, d: PhysPageNum, ppn: PhysPageNum, va: VirtAddr) -> bool {
    &&& remove_pre(s, d, va)
    &&& !maps_same(s, d, ppn, va) ==> {
        &&& ppn.0 < s.nframes()
        &&& !s.is_free(ppn.0 as int)
        &&& s.refs[ppn.0 as int] < u16::MAX
    }
}

/// Whether `insert` fails for want of a frame for the second-level table.
pub open spec fn insert_fails(s: FrameState, d: PhysPageNum, va: VirtAddr) -> bool {
    walk_create_fails(s, d, va)
}

/// The state after `insert`. Where `va` maps `ppn` already, only the entry is
/// rewritten. Else a mapping of another frame is removed first, the table is
/// created where it is missing, `ppn` gets one more reference and the entry is
/// written. Where no frame is left for the table, nothing changes.
pub open spec fn after_insert(
    s: FrameState,
    d: PhysPageNum,
    ppn: PhysPageNum,
    va: VirtAddr,
    perm: usize,
) -> FrameState {
    let pte = Pte::spec_from_ppn(ppn, installed_perm(perm));
    if maps_same(s, d, ppn, va) {
        let slot = spec_lookup(s, d, va).unwrap();
        s.after_write(slot.table.0 as int, slot.index as int, pte)
    } else {
        let s1 = after_remove(s, d, va);
        if walk_create_fails(s1, d, va) {
            s1
        } else {
            let slot = walk_create_slot(s1, d, va);
            after_walk_create(s1, d, va).after_incref(ppn.0 as int).after_write(
                slot.table.0 as int,
                slot.index as int,
                pte,
            )
        }
    }
}

/// The invalidations that `insert` records: one for the mapping it removes,
/// if any, and one before it installs the entry.
pub open spec fn tlb_after_insert(
    s: FrameState,
    log: Seq<usize>,
    d: PhysPageNum,
    asid: ASID,
    ppn: PhysPageNum,
    va: VirtAddr,
) -> Seq<usize> {
    if maps_same(s, d, ppn, va) {
        log.push(tlb_entry(asid, va))
    } else {
        tlb_after_remove(s, log, d, asid, va).push(tlb_entry(asid, va))
    }
}

/// Physical memory together with the invalidations recorded at the TLB gateway.
pub struct MapState {
    pub frames: FrameState,
    pub tlb: Seq<usize>,
}

/// What `insert` needs in order to succeed: what it needs at all, and a frame
/// for the second-level table where one has to be made.
pub open spec fn insert_ok(s: FrameState, d: PhysPageNum, ppn: PhysPageNum, va: VirtAddr) -> bool {
    &&& insert_pre(s, d, ppn, va)
    &&& maps_same(s, d, ppn, va) || !insert_fails(after_remove(s, d, va), d, va)
}

/// Whether an `insert` of `ppn` at `va` ends with `NoMem`.
pub open spec fn insert_runs_out(s: FrameState, d: PhysPageNum, ppn: PhysPageNum, va: VirtAddr) -> bool {
    !maps_same(s, d, ppn, va) && insert_fails(after_remove(s, d, va), d, va)
}

/// Memory and gateway after an `insert`.
pub open spec fn insert_step(
    m: MapState,
    d: PhysPageNum,
    asid: ASID,
    ppn: PhysPageNum,
    va: VirtAddr,
    perm: usize,
) -> MapState {
    MapState {
        frames: after_insert(m.frames, d, ppn, va, perm),
        tlb: tlb_after_insert(m.frames, m.tlb, d, asid, ppn, va),
    }
}

/// The frame that holds physical address `pa + 4096 * k`.
pub open spec fn segment_frame(pa: PhysAddr, k: int) -> PhysPageNum {
    PhysPageNum(((pa.0 + 4096 * k) / 4096) as usize)
}

/// The virtual address `va + 4096 * k`.
pub open spec fn segment_va(va: VirtAddr, k: int) -> VirtAddr {
    VirtAddr((va.0 + 4096 * k) as usize)
}

/// Memory and gateway after the first `npages` pages of a segment have been
/// mapped, lowest page first.
pub open spec fn after_map_segment(
    m: MapState,
    d: PhysPageNum,
    asid: ASID,
    pa: PhysAddr,
    va: VirtAddr,
    npages: nat,
    perm: usize,
) -> MapState
    decreases npages,
{
    if npages == 0 {
        m
    } else {
        let k = (npages - 1) as nat;
        insert_step(
            after_map_segment(m, d, asid, pa, va, k, perm),
            d,
            asid,
            segment_frame(pa, k as int),
            segment_va(va, k as int),
            perm,
        )
    }
}

/// Each of the first `npages` insertions of a segment succeeds in the state
/// that those before it leave.
pub open spec fn map_segment_ok(
    m: MapState,
    d: PhysPageNum,
    asid: ASID,
    pa: PhysAddr,
    va: VirtAddr,
    npages: nat,
    perm: usize,
) -> bool
    decreases npages,
{
    if npages == 0 {
        true
    } else {
        let k = (npages - 1) as nat;
        &&& map_segment_ok(m, d, asid, pa, va, k, perm)
        &&& insert_ok(
            after_map_segment(m, d, asid, pa, va, k, perm).frames,
            d,
            segment_frame(pa, k as int),
            segment_va(va, k as int),
        )
    }
}

/// The addresses at which a missing page may be supplied on demand: user
/// addresses from `UTEMP` up, but for the guard page above the user stack and
/// the windows onto the environment table and the frame metadata.
pub open spec fn passive_alloc_allowed(va: VirtAddr) -> bool {
    &&& UTEMP <= va.0 < ULIM
    &&& !(USTACKTOP <= va.0 < USTACKTOP + PAGE_SIZE)
    &&& !(UENVS <= va.0 < UVPT)
}

/// The flags of a page supplied on demand: writable, but read-only in the
/// window onto the page tables.
pub open spec fn passive_perm(va: VirtAddr) -> usize {
    if va.0 >= UVPT {
        0
    } else {
        PTE_D
    }
}

/// The state in which a page supplied on demand is inserted: the head of the
/// free list has been zeroed and has one reference.
pub open spec fn passive_fresh(s: FrameState) -> FrameState {
    s.after_alloc().after_incref(s.free[0] as int)
}

/// A page can be supplied for `va`: the address is allowed, a frame is free,
/// and the insertion of that frame succeeds.
pub open spec fn passive_alloc_ok(s: FrameState, d: PhysPageNum, va: VirtAddr) -> bool {
    &&& passive_alloc_allowed(va)
    &&& s.free.len() > 0
    &&& insert_ok(
        passive_fresh(s),
        d,
        PhysPageNum(s.free[0]),
        VirtAddr(va.spec_page_align_down() as usize),
    )
}

/// Memory and gateway after a page has been supplied for `va`.
pub open spec fn passive_alloc_step(m: MapState, d: PhysPageNum, asid: ASID, va: VirtAddr) -> MapState {
    insert_step(
        MapState { frames: passive_fresh(m.frames), tlb: m.tlb },
        d,
        asid,
        PhysPageNum(m.frames.free[0]),
        VirtAddr(va.spec_page_align_down() as usize),
        passive_perm(va),
    )
}

/// Whether the refill loop goes round once more: `va` is not mapped, a page
/// can be supplied, and supplying it uses up at least one free frame.
pub open spec fn refill_retries(s: FrameState, d: PhysPageNum, va: VirtAddr) -> bool {
    &&& spec_lookup(s, d, va).is_none()
    &&& passive_alloc_ok(s, d, va)
    &&& after_insert(
        passive_fresh(s),
        d,
        PhysPageNum(s.free[0]),
        VirtAddr(va.spec_page_align_down() as usize),
        passive_perm(va),
    ).free.len() < s.free.len()
}

/// Memory and gateway when the refill loop ends: pages are supplied until
/// `va` is mapped.
pub open spec fn after_refill(m: MapState, d: PhysPageNum, asid: ASID, va: VirtAddr) -> MapState
    decreases m.frames.free.len(),
{
    if refill_retries(m.frames, d, va) {
        after_refill(passive_alloc_step(m, d, asid, va), d, asid, va)
    } else {
        m
    }
}

/// The refill loop ends with `va` mapped, and every walk on the way stays in memory.
pub open spec fn refill_ok(s: FrameState, d: PhysPageNum, va: VirtAddr) -> bool
    decreases s.free.len(),
{
    &&& walkable(s, d, va)
    &&& if spec_lookup(s, d, va).is_some() {
        true
    } else if refill_retries(s, d, va) {
        refill_ok(
            after_insert(
                passive_fresh(s),
                d,
                PhysPageNum(s.free[0]),
                VirtAddr(va.spec_page_align_down() as usize),
                passive_perm(va),
            ),
            d,
            va,
        )
    } else {
        false
    }
}

/// The two words that a refill loads for the entry at `slot`: the entries of
/// the even page and of the odd page of its pair, without the six software
/// flag bits.
pub open spec fn refill_pair(s: FrameState, slot: PteSlot) -> (usize, usize) {
    let even = slot.index - slot.index % 2;
    (s.entry(slot.table.0 as int, even).0 >> 6, s.entry(slot.table.0 as int, even + 1).0 >> 6)
}

impl PageTable {
    /// Finds the slot of the entry for `va` in directory `pgdir`. Where the
    /// directory entry is invalid, a nonzero `create` makes a second-level
    /// table from a fresh frame; else the walk ends with `NotMapped`.
    pub fn walk_or_create(fa: &mut FrameAllocator, pgdir: PhysPageNum, va: VirtAddr, create: i32) -> (r:
        Result<PteSlot, Error>)
        requires
            old(fa).wf(),
            walkable(old(fa)@, pgdir, va),
        ensures
            final(fa).wf(),
            create == 0 ==> final(fa)@ == old(fa)@ && r == (match spec_walk(old(fa)@, pgdir, va) {
                Some(slot) => Ok::<PteSlot, Error>(slot),
                None => Err::<PteSlot, Error>(Error::NotMapped),
            }),
            create != 0 ==> final(fa)@ == after_walk_create(old(fa)@, pgdir, va) && r == (
            if walk_create_fails(old(fa)@, pgdir, va) {
                Err::<PteSlot, Error>(Error::NoMem)
            } else {
                Ok::<PteSlot, Error>(walk_create_slot(old(fa)@, pgdir, va))
            }),
            r.is_ok() ==> r.unwrap().table.0 < final(fa)@.nframes() && r.unwrap().index < 1024,
    {
        let pdx = va.pdx();
        let pte = fa.read_entry(pgdir, pdx);
        let mut ppn = pte.ppn();
        if !pte.valid() {
            if create != 0 {
                match fa.allocate() {
                    Ok(p) => {
                        ppn = p;
                    },
                    Err(e) => {
                        return Err(e);
                    },
                }
                proof {
                    let s = old(fa)@;
                    assert(s.free[0] < s.refs.len());
                    assert(s.refs[s.free[0] as int] == 0);
                    lemma_alloc_not_free(s);
                }
                fa.incref(ppn);
                fa.write_entry(pgdir, pdx, Pte::new_from_ppn(ppn, PTE_C_CACHEABLE | PTE_V));
            } else {
                return Err(Error::NotMapped);
            }
        }
        Ok(PteSlot { table: ppn, index: va.ptx() })
    }

    /// Finds the valid entry for `va`: the frame it maps and the slot it lies in.
    pub fn lookup(fa: &FrameAllocator, pgdir: PhysPageNum, va: VirtAddr) -> (r: Result<
        (PhysPageNum, PteSlot),
        Error,
    >)
        requires
            fa.wf(),
            walkable(fa@, pgdir, va),
        ensures
            r == (match spec_lookup(fa@, pgdir, va) {
                Some(slot) => Ok::<(PhysPageNum, PteSlot), Error>(
                    (PhysPageNum(slot_entry(fa@, slot).spec_ppn()), slot),
                ),
                None => Err::<(PhysPageNum, PteSlot), Error>(Error::NotMapped),
            }),
            r.is_ok() ==> r.unwrap().1.table.0 < fa@.nframes() && r.unwrap().1.index < 1024,
    {
        let pde = fa.read_entry(pgdir, va.pdx());
        if !pde.valid() {
            return Err(Error::NotMapped);
        }
        let slot = PteSlot { table: pde.ppn(), index: va.ptx() };
        let pte = fa.read_entry(slot.table, slot.index);
        if !pte.valid() {
            Err(Error::NotMapped)
        } else {
            Ok((pte.ppn(), slot))
        }
    }

    /// The frame that `va` is mapped to; `NotMapped` where `va` is not mapped.
    pub fn lookup_ppn(fa: &FrameAllocator, pgdir: PhysPageNum, va: VirtAddr) -> (r: Result<
        PhysPageNum,
        Error,
    >)
        requires
            fa.wf(),
            walkable(fa@, pgdir, va),
        ensures
            r == (match spec_lookup(fa@, pgdir, va) {
                Some(slot) => Ok::<PhysPageNum, Error>(PhysPageNum(slot_entry(fa@, slot).spec_ppn())),
                None => Err::<PhysPageNum, Error>(Error::NotMapped),
            }),
    {
        match Self::lookup(fa, pgdir, va) {
            Ok((ppn, _)) => Ok(ppn),
            Err(e) => Err(e),
        }
    }

    /// Removes the mapping of `va`, if there is one: the frame loses a
    /// reference, the entry becomes zero and the TLB entry is invalidated.
    pub fn remove(fa: &mut FrameAllocator, tlb: &mut Tlb, pgdir: PhysPageNum, asid: ASID, va: VirtAddr)
        requires
            old(fa).wf(),
            remove_pre(old(fa)@, pgdir, va),
        ensures
            final(fa).wf(),
            final(fa)@ == after_remove(old(fa)@, pgdir, va),
            final(tlb)@ == tlb_after_remove(old(fa)@, old(tlb)@, pgdir, asid, va),
    {
        match Self::lookup(fa, pgdir, va) {
            Ok((ppn, slot)) => {
                fa.decref(ppn);
                fa.write_entry(slot.table, slot.index, Pte::new(0));
                tlb_invalidate(tlb, asid, va);
            },
            Err(_) => {},
        }
    }

    /// Maps `va` to frame `ppn` with the flags `perm`, valid and cacheable.
    pub fn insert(
        fa: &mut FrameAllocator,
        tlb: &mut Tlb,
        pgdir: PhysPageNum,
        asid: ASID,
        ppn: PhysPageNum,
        va: VirtAddr,
        perm: usize,
    ) -> (r: Result<(), Error>)
        requires
            old(fa).wf(),
            insert_pre(old(fa)@, pgdir, ppn, va),
        ensures
            final(fa).wf(),
            final(fa)@ == after_insert(old(fa)@, pgdir, ppn, va, perm),
            final(tlb)@ == tlb_after_insert(old(fa)@, old(tlb)@, pgdir, asid, ppn, va),
            r == (if !maps_same(old(fa)@, pgdir, ppn, va) && insert_fails(
                after_remove(old(fa)@, pgdir, va),
                pgdir,
                va,
            ) {
                Err::<(), Error>(Error::NoMem)
            } else {
                Ok::<(), Error>(())
            }),
    {
        let new_pte = Pte::new_from_ppn(ppn, perm | PTE_C_CACHEABLE | PTE_V);
        match Self::walk_or_create(fa, pgdir, va, 0) {
            Ok(slot) => {
                let pte = fa.read_entry(slot.table, slot.index);
                if pte.valid() {
                    if pte.ppn() != ppn {
                        Self::remove(fa, tlb, pgdir, asid, va);
                    } else {
                        tlb_invalidate(tlb, asid, va);
                        fa.write_entry(slot.table, slot.index, new_pte);
                        return Ok(());
                    }
                }
            },
            Err(_) => {},
        }
        proof {
            lemma_remove_keeps_walkable(old(fa)@, pgdir, va);
            lemma_remove_keeps_frame(old(fa)@, pgdir, va, ppn);
        }
        tlb_invalidate(tlb, asid, va);
        let ghost s1 = fa@;
        match Self::walk_or_create(fa, pgdir, va, 1) {
            Ok(slot) => {
                proof {
                    lemma_walk_create_keeps_frame(s1, pgdir, va, ppn);
                }
                fa.incref(ppn);
                fa.write_entry(slot.table, slot.index, new_pte);
                Ok(())
            },
            Err(e) => Err(e),
        }
    }

    /// Maps the `size` bytes of physical memory at `pa` to the addresses from
    /// `va` on, page by page. All three are multiples of the page size.
    pub fn map_segment(
        fa: &mut FrameAllocator,
        tlb: &mut Tlb,
        pgdir: PhysPageNum,
        asid: ASID,
        pa: PhysAddr,
        va: VirtAddr,
        size: usize,
        perm: usize,
    )
        requires
            old(fa).wf(),
            pa.0 % PAGE_SIZE == 0,
            va.0 % PAGE_SIZE == 0,
            size % PAGE_SIZE == 0,
            pa.0 + size <= usize::MAX,
            va.0 + size <= usize::MAX,
            map_segment_ok(
                MapState { frames: old(fa)@, tlb: old(tlb)@ },
                pgdir,
                asid,
                pa,
                va,
                (size / PAGE_SIZE) as nat,
                perm,
            ),
        ensures
            final(fa).wf(),
            (MapState { frames: final(fa)@, tlb: final(tlb)@ }) == after_map_segment(
                MapState { frames: old(fa)@, tlb: old(tlb)@ },
                pgdir,
                asid,
                pa,
                va,
                (size / PAGE_SIZE) as nat,
                perm,
            ),
    {
        let ghost m0 = MapState { frames: fa@, tlb: tlb@ };
        let ghost n = (size / PAGE_SIZE) as nat;
        let mut i: usize = 0;
        let mut k: usize = 0;
        while i < size
            invariant
                fa.wf(),
                i == k * 4096,
                i <= size,
                size % PAGE_SIZE == 0,
                n == size / PAGE_SIZE,
                k <= n,
                pa.0 + size <= usize::MAX,
                va.0 + size <= usize::MAX,
                map_segment_ok(m0, pgdir, asid, pa, va, n, perm),
                (MapState { frames: fa@, tlb: tlb@ }) == after_map_segment(
                    m0,
                    pgdir,
                    asid,
                    pa,
                    va,
                    k as nat,
                    perm,
                ),
            decreases size - i,
        {
            proof {
                lemma_map_segment_ok_prefix(m0, pgdir, asid, pa, va, n, (k + 1) as nat, perm);
                assert(i + 4096 <= size);
            }
            let ppn = PhysPageNum::from(pa + i);
            let _ = Self::insert(fa, tlb, pgdir, asid, ppn, va + i, perm);
            i += PAGE_SIZE;
            k += 1;
        }
    }

    /// Supplies a fresh zeroed page for `va`, which has no mapping: takes a
    /// frame, gives it a reference and maps the page of `va` to it.
    pub fn passive_alloc(fa: &mut FrameAllocator, tlb: &mut Tlb, pgdir: PhysPageNum, va: VirtAddr, asid: ASID)
        requires
            old(fa).wf(),
            passive_alloc_ok(old(fa)@, pgdir, va),
        ensures
            final(fa).wf(),
            (MapState { frames: final(fa)@, tlb: final(tlb)@ }) == passive_alloc_step(
                MapState { frames: old(fa)@, tlb: old(tlb)@ },
                pgdir,
                asid,
                va,
            ),
    {
        match fa.allocate() {
            Ok(ppn) => {
                proof {
                    let s = old(fa)@;
                    assert(s.free[0] < s.refs.len());
                    assert(s.refs[s.free[0] as int] == 0);
                    lemma_alloc_not_free(s);
                }
                fa.incref(ppn);
                let perm = if va.as_usize() >= UVPT && va.as_usize() < ULIM {
                    0
                } else {
                    PTE_D
                };
                let _ = Self::insert(fa, tlb, pgdir, asid, ppn, va.page_align_down(), perm);
            },
            Err(_) => {},
        }
    }

    /// Loads the pair of TLB words for `va`: invalidates the stale entry,
    /// supplies pages until `va` is mapped, and fills `entries` from the even
    /// and the odd entry of the pair that `va` belongs to.
    pub fn do_tlb_refill(
        fa: &mut FrameAllocator,
        tlb: &mut Tlb,
        pgdir: PhysPageNum,
        entries: &mut [usize; 2],
        va: VirtAddr,
        asid: ASID,
    )
        requires
            old(fa).wf(),
            refill_ok(old(fa)@, pgdir, va),
        ensures
            final(fa).wf(),
            (MapState { frames: final(fa)@, tlb: final(tlb)@ }) == after_refill(
                MapState { frames: old(fa)@, tlb: old(tlb)@.push(tlb_entry(asid, va)) },
                pgdir,
                asid,
                va,
            ),
            spec_lookup(final(fa)@, pgdir, va).is_some(),
            (final(entries)[0], final(entries)[1]) == refill_pair(
                final(fa)@,
                spec_lookup(final(fa)@, pgdir, va).unwrap(),
            ),
    {
        tlb_invalidate(tlb, asid, va);
        let ghost m0 = MapState { frames: fa@, tlb: tlb@ };
        loop
            invariant
                fa.wf(),
                refill_ok(fa@, pgdir, va),
                m0 == (MapState { frames: old(fa)@, tlb: old(tlb)@.push(tlb_entry(asid, va)) }),
                after_refill(MapState { frames: fa@, tlb: tlb@ }, pgdir, asid, va) == after_refill(
                    m0,
                    pgdir,
                    asid,
                    va,
                ),
            decreases fa@.free.len(),
        {
            match Self::lookup(fa, pgdir, va) {
                Ok((_, slot)) => {
                    proof {
                        let m = MapState { frames: fa@, tlb: tlb@ };
                        assert(!refill_retries(fa@, pgdir, va));
                        assert(after_refill(m, pgdir, asid, va) == m);
                    }
                    slot.fill_tlb_entry(fa, entries);
                    return ;
                },
                Err(_) => {},
            }
            Self::passive_alloc(fa, tlb, pgdir, va, asid);
        }
    }

    /// Whether a walk for `va` stays inside physical memory.
    pub fn walk_admissible(fa: &FrameAllocator, pgdir: PhysPageNum, va: VirtAddr) -> (r: bool)
        requires
            fa.wf(),
        ensures
            r == walkable(fa@, pgdir, va),
    {
        let n = fa.num_frames();
        if pgdir.as_usize() >= n {
            return false;
        }
        let pde = fa.read_entry(pgdir, va.pdx());
        !pde.valid() || pde.ppn().as_usize() < n
    }

    /// Whether `remove` finds what it needs for `va`: the walk stays in
    /// memory, and a mapped frame is a frame of memory with a reference on it.
    pub fn remove_admissible(fa: &FrameAllocator, pgdir: PhysPageNum, va: VirtAddr) -> (r: bool)
        requires
            fa.wf(),
        ensures
            r == remove_pre(fa@, pgdir, va),
    {
        let n = fa.num_frames();
        if pgdir.as_usize() >= n {
            return false;
        }
        let pde = fa.read_entry(pgdir, va.pdx());
        if !pde.valid() {
            return true;
        }
        if pde.ppn().as_usize() >= n {
            return false;
        }
        let pte = fa.read_entry(pde.ppn(), va.ptx());
        if !pte.valid() {
            return true;
        }
        pte.ppn().as_usize() < n && fa.refcount(pte.ppn()) > 0
    }

    /// Whether `insert` finds what it needs to map `va` to frame `ppn`.
    pub fn insert_admissible(fa: &FrameAllocator, pgdir: PhysPageNum, ppn: PhysPageNum, va: VirtAddr) -> (r:
        bool)
        requires
            fa.wf(),
        ensures
            r == insert_pre(fa@, pgdir, ppn, va),
    {
        if !Self::remove_admissible(fa, pgdir, va) {
            return false;
        }
        let same = match Self::lookup(fa, pgdir, va) {
            Ok((mapped, _)) => mapped.as_usize() == ppn.as_usize(),
            Err(_) => false,
        };
        if same {
            return true;
        }
        ppn.as_usize() < fa.num_frames() && !fa.is_free(ppn) && fa.refcount(ppn) < u16::MAX
    }

    /// The physical address that `va` translates to; `None` where `va` is not
    /// mapped. Nothing changes.
    pub fn translate(fa: &FrameAllocator, pgdir: PhysPageNum, va: VirtAddr) -> (r: Option<PhysAddr>)
        requires
            fa.wf(),
            walkable(fa@, pgdir, va),
        ensures
            r == spec_translate(fa@, pgdir, va),
    {
        let pde = fa.read_entry(pgdir, va.pdx());
        if !pde.valid() {
            None
        } else {
            let pte = fa.read_entry(pde.ppn(), va.ptx());
            if !pte.valid() {
                None
            } else {
                Some(PhysAddr::new_from_pte(pte, va.page_offset()))
            }
        }
    }
}

impl PteSlot {
    /// Fills `pentrylo` with the two words that the hardware loads for the pair
    /// of pages that this slot belongs to.
    pub fn fill_tlb_entry(&self, fa: &FrameAllocator, pentrylo: &mut [usize; 2])
        requires
            fa.wf(),
            self.table.0 < fa@.nframes(),
            self.index < 1024,
        ensures
            (final(pentrylo)[0], final(pentrylo)[1]) == refill_pair(fa@, *self),
    {
        let i = self.index;
        proof {
            assert(i & !1usize == i - i % 2) by (bit_vector);
        }
        let even = i & !1;
        let lo0 = fa.read_entry(self.table, even).as_usize() >> 6;
        let lo1 = fa.read_entry(self.table, even + 1).as_usize() >> 6;
        pentrylo[0] = lo0;
        pentrylo[1] = lo1;
    }
}

/// A segment whose first `n` insertions succeed has its first `k <= n` succeed.
pub proof fn lemma_map_segment_ok_prefix(
    m: MapState,
    d: PhysPageNum,
    asid: ASID,
    pa: PhysAddr,
    va: VirtAddr,
    n: nat,
    k: nat,
    perm: usize,
)
    requires
        map_segment_ok(m, d, asid, pa, va, n, perm),
        k <= n,
    ensures
        map_segment_ok(m, d, asid, pa, va, k, perm),
    decreases n,
{
    if k < n {
        lemma_map_segment_ok_prefix(m, d, asid, pa, va, (n - 1) as nat, k, perm);
    }
}

/// The frame that `allocate` hands out is not on the free list afterwards,
/// and the frames that were not free before are not free afterwards.
pub proof fn lemma_alloc_not_free(s: FrameState)
    requires
        s.wf(),
        s.free.len() > 0,
    ensures
        !s.after_alloc().is_free(s.free[0] as int),
        forall|p: int| !s.is_free(p) ==> !s.after_alloc().is_free(p),
        forall|p: int| s.after_alloc().is_free(p) ==> s.is_free(p),
{
    let a = s.after_alloc();
    assert forall|p: int| a.is_free(p) implies s.is_free(p) && p != s.free[0] by {
        let i = choose|i: int| 0 <= i < a.free.len() && a.free[i] == p;
        assert(a.free[i] == s.free[i + 1]);
    }
}

/// Removing a mapping keeps the walk for the same address inside memory.
pub proof fn lemma_remove_keeps_walkable(s: FrameState, d: PhysPageNum, va: VirtAddr)
    requires
        s.wf(),
        remove_pre(s, d, va),
    ensures
        walkable(after_remove(s, d, va), d, va),
        after_remove(s, d, va).nframes() == s.nframes(),
        spec_lookup(after_remove(s, d, va), d, va).is_none(),
{
    let r = after_remove(s, d, va);
    match spec_lookup(s, d, va) {
        Some(slot) => {
            assert(Pte(0).0 & PTE_V == 0) by (bit_vector);
            let pde = spec_pde(s, d, va);
            let pde2 = spec_pde(r, d, va);
            if slot.table == d && slot.index == va.spec_pdx() {
                assert(pde2 == Pte(0));
            } else {
                assert(pde2 == pde);
                let slot2 = spec_walk(r, d, va).unwrap();
                assert(slot2 == slot);
                assert(slot_entry(r, slot2) == Pte(0));
            }
        },
        None => {},
    }
}

/// Removing a mapping leaves a frame in use, other than the one unmapped, in
/// use and with its count.
pub proof fn lemma_remove_keeps_frame(s: FrameState, d: PhysPageNum, va: VirtAddr, ppn: PhysPageNum)
    requires
        s.wf(),
        remove_pre(s, d, va),
        !maps_same(s, d, ppn, va),
        ppn.0 < s.nframes(),
        !s.is_free(ppn.0 as int),
    ensures
        !after_remove(s, d, va).is_free(ppn.0 as int),
        after_remove(s, d, va).refs[ppn.0 as int] == s.refs[ppn.0 as int],
{
    let r = after_remove(s, d, va);
    match spec_lookup(s, d, va) {
        Some(slot) => {
            let p = slot_entry(s, slot).spec_ppn();
            assert(p != ppn.0);
            if r.is_free(ppn.0 as int) {
                let i = choose|i: int| 0 <= i < r.free.len() && r.free[i] == ppn.0;
                if i < s.free.len() {
                    assert(s.free[i] == ppn.0);
                }
            }
        },
        None => {},
    }
}

/// A creating walk leaves a frame that was in use before in use and with its count.
pub proof fn lemma_walk_create_keeps_frame(s: FrameState, d: PhysPageNum, va: VirtAddr, ppn: PhysPageNum)
    requires
        s.wf(),
        ppn.0 < s.nframes(),
        !s.is_free(ppn.0 as int),
    ensures
        !after_walk_create(s, d, va).is_free(ppn.0 as int),
        after_walk_create(s, d, va).refs[ppn.0 as int] == s.refs[ppn.0 as int],
{
    if !(spec_pde(s, d, va).spec_valid() || s.free.len() == 0) {
        lemma_alloc_not_free(s);
        assert(s.is_free(s.free[0] as int));
    }
}

/// Whether an `insert` at `va` makes the second-level table in the frame
/// of the directory itself and then writes the entry for `va` over the
/// directory entry that covers `va`. This takes a directory whose frame heads
/// the free list, and an address whose two indices are equal.
pub open spec fn insert_overwrites_pde(s: FrameState, d: PhysPageNum, ppn: PhysPageNum, va: VirtAddr) -> bool {
    let s1 = after_remove(s, d, va);
    &&& !maps_same(s, d, ppn, va)
    &&& !spec_pde(s1, d, va).spec_valid()
    &&& s1.free.len() > 0
    &&& s1.free[0] == d.0
    &&& va.spec_ptx() == va.spec_pdx()
}

/// The flags of an installed entry stay within the twelve flag bits and hold
/// the valid flag.
pub proof fn lemma_installed_perm(perm: usize)
    requires
        perm < 4096,
    ensures
        installed_perm(perm) < 4096,
        installed_perm(perm) & PTE_V != 0,
        (PTE_C_CACHEABLE | PTE_V) < 4096,
        (PTE_C_CACHEABLE | PTE_V) & PTE_V != 0,
        Pte(0).0 & PTE_V == 0,
{
    assert((perm | 0x600usize | 0x80usize) < 4096 && (perm | 0x600usize | 0x80usize) & 0x80usize != 0)
        by (bit_vector)
        requires
            perm < 4096,
    ;
    assert((0x600usize | 0x80usize) < 4096 && (0x600usize | 0x80usize) & 0x80usize != 0)
        by (bit_vector);
    assert(0usize & 0x80usize == 0) by (bit_vector);
}

/// After a successful `insert` of frame `ppn` at `va`, the walk for `va` ends
/// at an entry that names `ppn`, and the count of `ppn` has grown by one
/// unless `va` mapped `ppn` before.
pub proof fn lemma_insert_maps(s: FrameState, d: PhysPageNum, ppn: PhysPageNum, va: VirtAddr, perm: usize)
    requires
        s.wf(),
        insert_ok(s, d, ppn, va),
        perm < 4096,
        !insert_overwrites_pde(s, d, ppn, va),
    ensures
        maps_same(after_insert(s, d, ppn, va, perm), d, ppn, va),
        slot_entry(
            after_insert(s, d, ppn, va, perm),
            spec_lookup(after_insert(s, d, ppn, va, perm), d, va).unwrap(),
        ) == Pte::spec_from_ppn(ppn, installed_perm(perm)),
        after_insert(s, d, ppn, va, perm).refs[ppn.0 as int] == s.refs[ppn.0 as int] + (if maps_same(
            s,
            d,
            ppn,
            va,
        ) {
            0int
        } else {
            1int
        }),
        after_insert(s, d, ppn, va, perm).wf(),
        insert_ok(after_insert(s, d, ppn, va, perm), d, ppn, va),
{
    let pte = Pte::spec_from_ppn(ppn, installed_perm(perm));
    let pdx = va.spec_pdx() as int;
    let ptx = va.spec_ptx() as int;
    lemma_installed_perm(perm);
    let r = after_insert(s, d, ppn, va, perm);
    assert(zero_table().len() == 1024);
    if maps_same(s, d, ppn, va) {
        let slot = spec_lookup(s, d, va).unwrap();
        let t = slot.table.0 as int;
        assert(ppn.0 < 0x10_0000);
        lemma_pte_fields(ppn, installed_perm(perm));
        assert(r == s.after_write(t, ptx, pte));
        assert(r.entry(t, ptx) == pte);
        if t == d.0 && ptx == pdx {
            assert(spec_pde(r, d, va) == pte);
        } else {
            assert(spec_pde(r, d, va) == spec_pde(s, d, va));
        }
        assert(spec_walk(r, d, va) == Some(slot));
        assert(r.free == s.free);
        assert(r.wf()) by {
            assert forall|x: int| 0 <= x < r.mem.len() implies (#[trigger] r.mem[x]).len() == 1024 by {}
        }
    } else {
        let s1 = after_remove(s, d, va);
        lemma_remove_keeps_walkable(s, d, va);
        lemma_remove_keeps_frame(s, d, va, ppn);
        lemma_remove_wf(s, d, va);
        assert(ppn.0 < 0x10_0000);
        lemma_pte_fields(ppn, installed_perm(perm));
        lemma_walk_create_keeps_frame(s1, d, va, ppn);
        lemma_walk_create_wf(s1, d, va);
        let s2 = after_walk_create(s1, d, va);
        let slot = walk_create_slot(s1, d, va);
        let t = slot.table.0 as int;
        let s3 = s2.after_incref(ppn.0 as int);
        assert(r == s3.after_write(t, ptx, pte));
        if spec_pde(s1, d, va).spec_valid() {
            assert(s2 == s1);
            assert(0 <= t < s1.nframes());
            assert(!(t == d.0 && ptx == pdx)) by {
                if t == d.0 && ptx == pdx {
                    assert(slot_entry(s1, slot) == spec_pde(s1, d, va));
                    assert(spec_lookup(s1, d, va).is_some());
                }
            }
            assert(spec_pde(r, d, va) == spec_pde(s1, d, va));
        } else {
            let f = s1.free[0];
            assert(f < s1.refs.len());
            assert(t == f);
            lemma_pte_fields(PhysPageNum(f), PTE_C_CACHEABLE | PTE_V);
            let pde = Pte::spec_from_ppn(PhysPageNum(f), PTE_C_CACHEABLE | PTE_V);
            assert(s2.entry(d.0 as int, pdx) == pde);
            assert(!(t == d.0 && ptx == pdx));
            assert(spec_pde(r, d, va) == pde);
        }
        assert(spec_walk(r, d, va) == Some(slot));
        assert(r.entry(t, ptx) == pte);
        assert(r.free == s2.free);
        assert(r.wf()) by {
            assert forall|x: int| 0 <= x < r.mem.len() implies (#[trigger] r.mem[x]).len() == 1024 by {}
            assert forall|i: int| 0 <= i < r.free.len() implies r.refs[#[trigger] r.free[i] as int] == 0 by {
                assert(s2.is_free(r.free[i] as int));
            }
        }
    }
}

/// Removing a mapping keeps the state well formed.
pub proof fn lemma_remove_wf(s: FrameState, d: PhysPageNum, va: VirtAddr)
    requires
        s.wf(),
        remove_pre(s, d, va),
    ensures
        after_remove(s, d, va).wf(),
{
    match spec_lookup(s, d, va) {
        Some(slot) => {
            let p = slot_entry(s, slot).spec_ppn() as int;
            lemma_decref_wf(s, p);
        },
        None => {},
    }
}

/// Giving up a reference keeps the state well formed.
pub proof fn lemma_decref_wf(s: FrameState, p: int)
    requires
        s.wf(),
        0 <= p < s.nframes(),
        s.refs[p] > 0,
    ensures
        s.after_decref(p).wf(),
        forall|q: int| q != p && !s.is_free(q) ==> !s.after_decref(p).is_free(q),
{
    let r = s.after_decref(p);
    assert(!s.is_free(p));
    assert forall|i: int| 0 <= i < r.free.len() implies r.refs[#[trigger] r.free[i] as int] == 0 by {
        if i < s.free.len() {
            assert(s.free[i] != p);
            assert(r.free[i] == s.free[i]);
        }
    }
    assert forall|i: int| 0 <= i < r.free.len() implies #[trigger] r.free[i] < r.refs.len() by {
        if i < s.free.len() {
            assert(r.free[i] == s.free[i]);
        }
    }
    assert forall|i: int, j: int| 0 <= i < r.free.len() && 0 <= j < r.free.len() && i != j implies r.free[i]
        != r.free[j] by {
        if i < s.free.len() {
            assert(r.free[i] == s.free[i]);
        }
        if j < s.free.len() {
            assert(r.free[j] == s.free[j]);
        }
    }
    assert forall|q: int| q != p && !s.is_free(q) implies !r.is_free(q) by {
        if r.is_free(q) {
            let i = choose|i: int| 0 <= i < r.free.len() && r.free[i] == q;
            if i < s.free.len() {
                assert(s.free[i] == q);
            }
        }
    }
}

/// A creating walk keeps the state well formed.
pub proof fn lemma_walk_create_wf(s: FrameState, d: PhysPageNum, va: VirtAddr)
    requires
        s.wf(),
        d.0 < s.nframes(),
    ensures
        after_walk_create(s, d, va).wf(),
        after_walk_create(s, d, va).nframes() == s.nframes(),
{
    if !(spec_pde(s, d, va).spec_valid() || s.free.len() == 0) {
        let a = s.after_alloc();
        lemma_alloc_not_free(s);
        assert forall|i: int| 0 <= i < a.free.len() implies #[trigger] a.free[i] != s.free[0] by {
            assert(a.free[i] == s.free[i + 1]);
        }
        assert forall|i: int| 0 <= i < a.free.len() implies #[trigger] a.free[i] < a.refs.len() by {
            assert(a.free[i] == s.free[i + 1]);
        }
        assert forall|i: int| 0 <= i < a.free.len() implies a.refs[#[trigger] a.free[i] as int] == 0 by {
            assert(a.free[i] == s.free[i + 1]);
        }
        assert(zero_table().len() == 1024);
    }
}

/// After a successful `insert` of frame `ppn` at `va`, `va` translates to the
/// byte of `ppn` that has the page offset of `va`.
pub proof fn lemma_insert_then_translate(
    s: FrameState,
    d: PhysPageNum,
    ppn: PhysPageNum,
    va: VirtAddr,
    perm: usize,
)
    requires
        s.wf(),
        insert_ok(s, d, ppn, va),
        perm < 4096,
        !insert_overwrites_pde(s, d, ppn, va),
    ensures
        spec_translate(after_insert(s, d, ppn, va, perm), d, va) == Some(
            PhysAddr((ppn.0 * 4096 + va.spec_page_offset()) as usize),
        ),
{
    lemma_insert_maps(s, d, ppn, va, perm);
    lemma_installed_perm(perm);
    lemma_insert_frame_fits(s, d, ppn, va);
    lemma_pte_fields(ppn, installed_perm(perm));
}

/// The frame of a successful `insert` has a number of at most twenty bits.
pub proof fn lemma_insert_frame_fits(s: FrameState, d: PhysPageNum, ppn: PhysPageNum, va: VirtAddr)
    requires
        s.wf(),
        insert_ok(s, d, ppn, va),
    ensures
        ppn.0 < 0x10_0000,
{
}

/// After `remove`, `va` translates to nothing.
pub proof fn lemma_remove_then_translate(s: FrameState, d: PhysPageNum, va: VirtAddr)
    requires
        s.wf(),
        remove_pre(s, d, va),
    ensures
        spec_translate(after_remove(s, d, va), d, va).is_none(),
{
    lemma_remove_keeps_walkable(s, d, va);
}

/// Removing a mapping twice is removing it once.
pub proof fn lemma_remove_twice(s: FrameState, d: PhysPageNum, va: VirtAddr)
    requires
        s.wf(),
        remove_pre(s, d, va),
    ensures
        remove_pre(after_remove(s, d, va), d, va),
        after_remove(after_remove(s, d, va), d, va) == after_remove(s, d, va),
{
    lemma_remove_keeps_walkable(s, d, va);
}

/// Inserting the same frame at the same address a second time changes
/// nothing: the entry is rewritten with the value it has, no reference is
/// added, and no frame is taken.
pub proof fn lemma_insert_twice(s: FrameState, d: PhysPageNum, ppn: PhysPageNum, va: VirtAddr, perm: usize)
    requires
        s.wf(),
        insert_ok(s, d, ppn, va),
        perm < 4096,
        !insert_overwrites_pde(s, d, ppn, va),
    ensures
        insert_ok(after_insert(s, d, ppn, va, perm), d, ppn, va),
        after_insert(after_insert(s, d, ppn, va, perm), d, ppn, va, perm) == after_insert(
            s,
            d,
            ppn,
            va,
            perm,
        ),
        !maps_same(s, d, ppn, va) ==> after_insert(after_insert(s, d, ppn, va, perm), d, ppn, va, perm).refs[ppn.0 as int]
            == s.refs[ppn.0 as int] + 1,
{
    lemma_insert_maps(s, d, ppn, va, perm);
    let r = after_insert(s, d, ppn, va, perm);
    let slot = spec_lookup(r, d, va).unwrap();
    let pte = Pte::spec_from_ppn(ppn, installed_perm(perm));
    let rr = after_insert(r, d, ppn, va, perm);
    assert(rr == r.after_write(slot.table.0 as int, slot.index as int, pte));
    assert(r.mem[slot.table.0 as int].update(slot.index as int, pte) =~= r.mem[slot.table.0 as int]);
    assert(r.mem.update(slot.table.0 as int, r.mem[slot.table.0 as int]) =~= r.mem);
}

/// An address that is not mapped, in a directory whose walk stays in
/// memory, can be mapped to any frame in use whose count can grow, where the
/// table exists or a frame is free for it.
pub proof fn lemma_insert_ok_unmapped(s: FrameState, d: PhysPageNum, ppn: PhysPageNum, va: VirtAddr)
    requires
        s.wf(),
        walkable(s, d, va),
        spec_lookup(s, d, va).is_none(),
        ppn.0 < s.nframes(),
        !s.is_free(ppn.0 as int),
        s.refs[ppn.0 as int] < u16::MAX,
        spec_pde(s, d, va).spec_valid() || s.free.len() >= 1,
    ensures
        insert_ok(s, d, ppn, va),
        !insert_runs_out(s, d, ppn, va),
{
}

/// An address and the address of its page have the same two indices.
pub proof fn lemma_align_down_indices(va: VirtAddr)
    ensures
        VirtAddr(va.spec_page_align_down() as usize).spec_pdx() == va.spec_pdx(),
        VirtAddr(va.spec_page_align_down() as usize).spec_ptx() == va.spec_ptx(),
        VirtAddr(va.spec_page_align_down() as usize).0 == va.0 - va.0 % 4096,
{
    let x = va.0 as int;
    let y = x - x % 4096;
    let a = x / 4096;
    assert(x == 4096 * a + x % 4096);
    assert(y == 4096 * a);
    assert(y / 4096 == a);
    let h = a / 1024;
    let q = a % 1024;
    assert(a == 1024 * h + q);
    assert(y == 0x40_0000 * h + 4096 * q);
    assert(y / 0x40_0000 == h);
    assert(x == 0x40_0000 * h + (4096 * q + x % 4096));
    assert(x / 0x40_0000 == h);
}

/// The state in which a page supplied on demand is inserted is well formed:
/// the frame taken is in use with one reference and holds zeros, and the
/// other frames are as they were.
pub proof fn lemma_passive_fresh(s: FrameState)
    requires
        s.wf(),
        s.free.len() > 0,
    ensures
        passive_fresh(s).wf(),
        passive_fresh(s).nframes() == s.nframes(),
        passive_fresh(s).free == s.free.drop_first(),
        !passive_fresh(s).is_free(s.free[0] as int),
        passive_fresh(s).refs[s.free[0] as int] == 1,
        s.free[0] < s.nframes(),
        forall|q: int| !s.is_free(q) ==> !passive_fresh(s).is_free(q),
        forall|x: int, i: int|
            0 <= x < s.nframes() && 0 <= i < 1024 ==> #[trigger] passive_fresh(s).entry(x, i) == (if x
                == s.free[0] {
                Pte(0)
            } else {
                s.entry(x, i)
            }),
{
    let p = s.free[0] as int;
    let r = passive_fresh(s);
    assert(s.free[0] < s.refs.len());
    assert(s.refs[p] == 0);
    lemma_alloc_not_free(s);
    assert(zero_table().len() == 1024);
    assert(r.free == s.after_alloc().free);
    assert forall|i: int| 0 <= i < r.free.len() implies r.refs[#[trigger] r.free[i] as int] == 0 by {
        assert(r.free[i] == s.free[i + 1]);
        assert(s.after_alloc().is_free(r.free[i] as int));
    }
    assert forall|i: int| 0 <= i < r.free.len() implies #[trigger] r.free[i] < r.refs.len() by {
        assert(r.free[i] == s.free[i + 1]);
    }
    assert forall|x: int| 0 <= x < r.mem.len() implies (#[trigger] r.mem[x]).len() == 1024 by {}
}

/// A miss at an address that may be supplied on demand, in a directory that
/// is in use and whose walk stays in memory, is served by one page where two
/// frames are free: the refill supplies a fresh page, maps it with the flags
/// that the address calls for, and ends.
pub proof fn lemma_refill_supplies_page(m: MapState, d: PhysPageNum, asid: ASID, va: VirtAddr)
    requires
        m.frames.wf(),
        walkable(m.frames, d, va),
        !m.frames.is_free(d.0 as int),
        spec_lookup(m.frames, d, va).is_none(),
        passive_alloc_allowed(va),
        m.frames.free.len() >= 2,
    ensures
        refill_ok(m.frames, d, va),
        after_refill(m, d, asid, va) == passive_alloc_step(m, d, asid, va),
        spec_lookup(passive_alloc_step(m, d, asid, va).frames, d, va).is_some(),
        slot_entry(
            passive_alloc_step(m, d, asid, va).frames,
            spec_lookup(passive_alloc_step(m, d, asid, va).frames, d, va).unwrap(),
        ) == Pte::spec_from_ppn(PhysPageNum(m.frames.free[0]), installed_perm(passive_perm(va))),
{
    let s = m.frames;
    let p = PhysPageNum(s.free[0]);
    let fresh = passive_fresh(s);
    let page = VirtAddr(va.spec_page_align_down() as usize);
    let perm = passive_perm(va);
    lemma_passive_fresh(s);
    lemma_align_down_indices(va);
    lemma_installed_perm(0);
    assert(spec_pde(fresh, d, page) == (if d.0 == p.0 {
        Pte(0)
    } else {
        spec_pde(s, d, va)
    }));
    assert(spec_lookup(fresh, d, page).is_none()) by {
        if spec_pde(fresh, d, page).spec_valid() {
            let t = spec_pde(s, d, va).spec_ppn() as int;
            assert(fresh.entry(t, va.spec_ptx() as int) == (if t == p.0 {
                Pte(0)
            } else {
                s.entry(t, va.spec_ptx() as int)
            }));
        }
    }
    assert(after_remove(fresh, d, page) == fresh);
    assert(insert_ok(fresh, d, p, page));
    assert(!insert_overwrites_pde(fresh, d, p, page));
    lemma_insert_maps(fresh, d, p, page, perm);
    let r = after_insert(fresh, d, p, page, perm);
    assert(r == passive_alloc_step(m, d, asid, va).frames);
    assert(spec_walk(r, d, va) == spec_walk(r, d, page));
    assert(spec_lookup(r, d, va) == spec_lookup(r, d, page));
    lemma_walk_create_wf(fresh, d, page);
    assert(r.free == after_walk_create(fresh, d, page).free);
    assert(r.free.len() <= fresh.free.len());
    assert(walkable(r, d, va));
    assert(refill_retries(s, d, va));
    assert(refill_ok(r, d, va));
    let m1 = passive_alloc_step(m, d, asid, va);
    assert(!refill_retries(m1.frames, d, va));
    assert(after_refill(m1, d, asid, va) == m1);
}

/// What the fields of a built entry are, for a frame number of at most twenty
/// bits and flags of at most twelve.
pub proof fn lemma_pte_fields(ppn: PhysPageNum, perm: usize)
    requires
        ppn.0 < 0x10_0000,
        perm < 4096,
    ensures
        Pte::spec_from_ppn(ppn, perm).spec_ppn() == ppn.0,
        Pte::spec_from_ppn(ppn, perm).spec_perm() == perm,
        Pte::spec_from_ppn(ppn, perm).spec_valid() == (perm & PTE_V != 0),
        Pte::spec_from_ppn(ppn, perm).0 == ppn.0 * 4096 + perm,
{
    let p = ppn.0;
    assert(((((p << 12) | perm) / 4096) % 0x10_0000 == p) && (((p << 12) | perm) % 4096 == perm)
        && ((((p << 12) | perm) & 0x80 != 0) == (perm & 0x80 != 0))
        && (((p << 12) | perm) == p * 4096 + perm)) by (bit_vector)
        requires
            p < 0x10_0000,
            perm < 4096,
    ;
}

} // verus!
