//! Shared-memory segments: chains of frames that several address spaces attach.

use vstd::prelude::*;
use crate::env::ASID;
use crate::err::Error;
use crate::frame::{FrameAllocator, FrameState};
use crate::mmu::{PAGE_SIZE, PhysPageNum, VirtAddr};
use crate::page_table::{
    after_remove, insert_fails, insert_pre, insert_step, lemma_alloc_not_free, maps_same, MapState,
    PageTable, remove_pre,
};
use crate::teardown::remove_step;
use crate::tlb::Tlb;

verus! {

/// Number of block slots: the most frames that all segments hold together.
pub const SHMALL: usize = 4096;

/// Number of segment identifiers.
pub const SHMMNI: usize = 128;

/// The control command that marks a segment for removal.
pub const SHM_RMID: usize = 1;

/// The commands of the control call.
#[derive(Clone, Copy, Debug, PartialEq, Eq, Structural)]
pub enum ShmCtl {
    Rmid,
}

/// One frame of a segment and the slot of the block that follows it.
#[derive(Clone, Copy, Debug)]
pub struct ShmBlock {
    pub ppn: PhysPageNum,
    pub next: Option<usize>,
}

/// One shared-memory segment: a chain of blocks, the number of attachments,
/// the removal mark and the key it was made under.
#[derive(Clone, Copy, Debug)]
pub struct Shm {
    pub head: usize,
    pub nblocks: usize,
    pub shm_ref: usize,
    pub rmid: u8,
    pub key: usize,
}

/// The segments, the block slots, and the stacks of free block slots and of
/// free segment identifiers.
pub struct ShmManager {
    blocks: [ShmBlock; SHMALL],
    free_blocks: [usize; SHMALL],
    blockstop: usize,
    shms: [Shm; SHMMNI],
    free_ids: [usize; SHMMNI],
    idstop: usize,
}

/// The mathematical state of the shared-memory tables.
pub struct ShmState {
    pub blocks: Seq<ShmBlock>,
    /// The stack of free block slots; its top is at `blockstop - 1`.
    pub free_blocks: Seq<usize>,
    pub blockstop: usize,
    pub shms: Seq<Shm>,
    /// The stack of free identifiers; its top is at `idstop - 1`.
    pub free_ids: Seq<usize>,
    pub idstop: usize,
}

/// The shared-memory tables together with physical memory.
pub struct ShmMem {
    pub shm: ShmState,
    pub frames: FrameState,
}

/// The blocks that the first `upto` segments hold together.
pub open spec fn blocks_held(shms: Seq<Shm>, upto: int) -> int
    decreases upto,
{
    if upto <= 0 {
        0
    } else {
        blocks_held(shms, upto - 1) + shms[upto - 1].nblocks
    }
}

/// The slot of the block that follows `blk` in its chain; zero at the end.
pub open spec fn next_block(blocks: Seq<ShmBlock>, blk: int) -> int {
    match blocks[blk].next {
        Some(n) => n as int,
        None => 0,
    }
}

impl ShmState {
    /// The tables have their sizes, the stacks hold slots and identifiers
    /// that exist, every link leads to a slot that exists, and the free block
    /// slots together with the blocks held do not exceed the slots there are.
    pub open spec fn wf(self) -> bool {
        &&& self.blocks.len() == SHMALL
        &&& self.free_blocks.len() == SHMALL
        &&& self.shms.len() == SHMMNI
        &&& self.free_ids.len() == SHMMNI
        &&& self.blockstop <= SHMALL
        &&& self.idstop <= SHMMNI
        &&& forall|i: int| 0 <= i < self.blockstop ==> #[trigger] self.free_blocks[i] < SHMALL
        &&& forall|i: int| 0 <= i < self.idstop ==> #[trigger] self.free_ids[i] < SHMMNI
        &&& forall|b: int|
            0 <= b < SHMALL ==> match (#[trigger] self.blocks[b]).next {
                Some(n) => n < SHMALL,
                None => true,
            }
        &&& forall|i: int| 0 <= i < SHMMNI ==> (#[trigger] self.shms[i]).head < SHMALL
        &&& self.blockstop + blocks_held(self.shms, SHMMNI as int) <= SHMALL
    }
}

/// Replacing one segment changes the number of blocks held by the difference.
pub proof fn lemma_blocks_held_update(shms: Seq<Shm>, id: int, e: Shm, upto: int)
    requires
        0 <= id < shms.len(),
        0 <= upto <= shms.len(),
    ensures
        blocks_held(shms.update(id, e), upto) == blocks_held(shms, upto) + (if id < upto {
            e.nblocks - shms[id].nblocks
        } else {
            0
        }),
        blocks_held(shms, upto) >= 0,
        id < upto ==> shms[id].nblocks <= blocks_held(shms, upto),
    decreases upto,
{
    if upto > 0 {
        lemma_blocks_held_update(shms, id, e, upto - 1);
    }
}

/// The state from which the blocks of a new segment are filled: the top
/// identifier and the top block slot are taken, and the segment is entered
/// with its size and its first block.
pub open spec fn after_shm_take(s: ShmState, nframes: usize) -> ShmState {
    let id = s.free_ids[s.idstop - 1] as int;
    let blk = s.free_blocks[s.blockstop - 1];
    ShmState {
        idstop: (s.idstop - 1) as usize,
        blockstop: (s.blockstop - 1) as usize,
        shms: s.shms.update(id, Shm { nblocks: nframes, head: blk, ..s.shms[id] }),
        ..s
    }
}

/// Tables and memory after the `remaining` last blocks of a new segment have
/// been filled, starting at slot `blk`: each block gets the frame at the
/// head of the free list, zeroed and with one reference, and, but for the
/// last, the top free block slot as its successor.
pub open spec fn shm_fill(sm: ShmMem, blk: int, remaining: nat) -> ShmMem
    decreases remaining,
{
    if remaining == 0 {
        sm
    } else {
        let p = sm.frames.free[0];
        let frames = sm.frames.after_alloc().after_incref(p as int);
        if remaining == 1 {
            ShmMem {
                shm: ShmState {
                    blocks: sm.shm.blocks.update(blk, ShmBlock { ppn: PhysPageNum(p), next: None }),
                    ..sm.shm
                },
                frames,
            }
        } else {
            let next = sm.shm.free_blocks[sm.shm.blockstop - 1];
            shm_fill(
                ShmMem {
                    shm: ShmState {
                        blocks: sm.shm.blocks.update(blk, ShmBlock { ppn: PhysPageNum(p), next: Some(next) }),
                        blockstop: (sm.shm.blockstop - 1) as usize,
                        ..sm.shm
                    },
                    frames,
                },
                next as int,
                (remaining - 1) as nat,
            )
        }
    }
}

/// Tables and memory after a segment of `nframes` frames has been made.
pub open spec fn after_shm_alloc(sm: ShmMem, nframes: usize) -> ShmMem {
    let s1 = after_shm_take(sm.shm, nframes);
    shm_fill(
        ShmMem { shm: s1, frames: sm.frames },
        sm.shm.free_blocks[sm.shm.blockstop - 1] as int,
        nframes as nat,
    )
}

/// How making a segment of `nframes` frames ends: `NoSpc` where identifiers
/// or block slots run out, `NoMem` where frames do, else the new identifier.
pub open spec fn shm_alloc_result(sm: ShmMem, nframes: usize) -> Result<usize, Error> {
    if nframes > sm.shm.blockstop || sm.shm.idstop == 0 {
        Err(Error::NoSpc)
    } else if nframes > sm.frames.free.len() {
        Err(Error::NoMem)
    } else {
        Ok(sm.shm.free_ids[sm.shm.idstop - 1])
    }
}

/// The pages of a segment can be mapped from `va` on: at each page, in the
/// state that the pages before it leave, the insertion finds what it needs,
/// and the next address can be formed.
pub open spec fn shm_map_ok(
    m: MapState,
    blocks: Seq<ShmBlock>,
    d: PhysPageNum,
    va: VirtAddr,
    blk: int,
    remaining: nat,
    asid: ASID,
    perm: usize,
) -> bool
    decreases remaining,
{
    if remaining == 0 {
        true
    } else {
        &&& insert_pre(m.frames, d, blocks[blk].ppn, va)
        &&& !shm_insert_fails(m.frames, d, blocks[blk].ppn, va) ==> {
            &&& va.0 + PAGE_SIZE <= usize::MAX
            &&& shm_map_ok(
                insert_step(m, d, asid, blocks[blk].ppn, va, perm),
                blocks,
                d,
                VirtAddr((va.0 + PAGE_SIZE) as usize),
                next_block(blocks, blk),
                (remaining - 1) as nat,
                asid,
                perm,
            )
        }
    }
}

/// Whether the insertion of `ppn` at `va` fails for want of a frame.
pub open spec fn shm_insert_fails(s: FrameState, d: PhysPageNum, ppn: PhysPageNum, va: VirtAddr) -> bool {
    !maps_same(s, d, ppn, va) && insert_fails(after_remove(s, d, va), d, va)
}

/// Memory and gateway after the pages of a segment have been mapped from
/// `va` on, one block after the other, up to the first insertion that fails.
pub open spec fn after_shm_map(
    m: MapState,
    blocks: Seq<ShmBlock>,
    d: PhysPageNum,
    va: VirtAddr,
    blk: int,
    remaining: nat,
    asid: ASID,
    perm: usize,
) -> MapState
    decreases remaining,
{
    if remaining == 0 {
        m
    } else if shm_insert_fails(m.frames, d, blocks[blk].ppn, va) {
        insert_step(m, d, asid, blocks[blk].ppn, va, perm)
    } else {
        after_shm_map(
            insert_step(m, d, asid, blocks[blk].ppn, va, perm),
            blocks,
            d,
            VirtAddr((va.0 + PAGE_SIZE) as usize),
            next_block(blocks, blk),
            (remaining - 1) as nat,
            asid,
            perm,
        )
    }
}

/// Whether mapping the pages of a segment fails at some page.
pub open spec fn shm_map_fails(
    m: MapState,
    blocks: Seq<ShmBlock>,
    d: PhysPageNum,
    va: VirtAddr,
    blk: int,
    remaining: nat,
    asid: ASID,
    perm: usize,
) -> bool
    decreases remaining,
{
    if remaining == 0 {
        false
    } else if shm_insert_fails(m.frames, d, blocks[blk].ppn, va) {
        true
    } else {
        shm_map_fails(
            insert_step(m, d, asid, blocks[blk].ppn, va, perm),
            blocks,
            d,
            VirtAddr((va.0 + PAGE_SIZE) as usize),
            next_block(blocks, blk),
            (remaining - 1) as nat,
            asid,
            perm,
        )
    }
}

/// The `remaining` pages from `va` on can be unmapped: each removal finds
/// what it needs in the state that those before it leave.
pub open spec fn shm_unmap_ok(m: MapState, d: PhysPageNum, va: VirtAddr, remaining: nat, asid: ASID) -> bool
    decreases remaining,
{
    if remaining == 0 {
        true
    } else {
        &&& remove_pre(m.frames, d, va)
        &&& va.0 + PAGE_SIZE <= usize::MAX
        &&& shm_unmap_ok(
            remove_step(m, d, asid, va),
            d,
            VirtAddr((va.0 + PAGE_SIZE) as usize),
            (remaining - 1) as nat,
            asid,
        )
    }
}

/// Memory and gateway after the `remaining` pages from `va` on have been unmapped.
pub open spec fn after_shm_unmap(
    m: MapState,
    d: PhysPageNum,
    va: VirtAddr,
    remaining: nat,
    asid: ASID,
) -> MapState
    decreases remaining,
{
    if remaining == 0 {
        m
    } else {
        after_shm_unmap(
            remove_step(m, d, asid, va),
            d,
            VirtAddr((va.0 + PAGE_SIZE) as usize),
            (remaining - 1) as nat,
            asid,
        )
    }
}

/// The frames of the `remaining` blocks from `blk` on can be released: each
/// is a frame of memory on which a reference is held when its turn comes.
pub open spec fn shm_release_ok(sm: ShmMem, blk: int, remaining: nat) -> bool
    decreases remaining,
{
    if remaining == 0 {
        true
    } else {
        let p = sm.shm.blocks[blk].ppn.0 as int;
        &&& p < sm.frames.nframes()
        &&& sm.frames.refs[p] > 0
        &&& shm_release_ok(shm_release_step(sm, blk), next_block(sm.shm.blocks, blk), (remaining - 1) as nat)
    }
}

/// Tables and memory after block `blk` has been released: its frame loses a
/// reference and its slot goes back on the stack of free block slots.
pub open spec fn shm_release_step(sm: ShmMem, blk: int) -> ShmMem {
    ShmMem {
        shm: ShmState {
            free_blocks: sm.shm.free_blocks.update(sm.shm.blockstop as int, blk as usize),
            blockstop: (sm.shm.blockstop + 1) as usize,
            ..sm.shm
        },
        frames: sm.frames.after_decref(sm.shm.blocks[blk].ppn.0 as int),
    }
}

/// Tables and memory after the `remaining` blocks from `blk` on have been released.
pub open spec fn shm_release(sm: ShmMem, blk: int, remaining: nat) -> ShmMem
    decreases remaining,
{
    if remaining == 0 {
        sm
    } else {
        shm_release(shm_release_step(sm, blk), next_block(sm.shm.blocks, blk), (remaining - 1) as nat)
    }
}

/// Tables and memory after segment `id` has been destroyed: its blocks are
/// released and it holds none any more.
pub open spec fn after_shm_dealloc(sm: ShmMem, id: int) -> ShmMem {
    let r = shm_release(sm, sm.shm.shms[id].head as int, sm.shm.shms[id].nblocks as nat);
    ShmMem {
        shm: ShmState { shms: r.shm.shms.update(id, Shm { nblocks: 0, ..r.shm.shms[id] }), ..r.shm },
        frames: r.frames,
    }
}

/// Whether the last detach of segment `id` destroys it.
pub open spec fn detach_destroys(s: ShmState, id: int) -> bool {
    s.shms[id].shm_ref == 1 && s.shms[id].rmid != 0
}

/// Tables and memory with one attachment of segment `id` less.
pub open spec fn detach_lowered(sm: ShmMem, id: int) -> ShmMem {
    ShmMem {
        shm: ShmState {
            shms: sm.shm.shms.update(
                id,
                Shm { shm_ref: (sm.shm.shms[id].shm_ref - 1) as usize, ..sm.shm.shms[id] },
            ),
            ..sm.shm
        },
        frames: sm.frames,
    }
}

/// What a detach of segment `id` needs: an attachment to give up, and, where
/// the segment is destroyed, frames that can be released.
pub open spec fn shm_detach_ok(sm: ShmMem, id: int) -> bool {
    &&& sm.shm.shms[id].shm_ref > 0
    &&& detach_destroys(sm.shm, id) ==> shm_release_ok(
        detach_lowered(sm, id),
        sm.shm.shms[id].head as int,
        sm.shm.shms[id].nblocks as nat,
    )
}

/// Tables and memory after a detach of segment `id`: one attachment less,
/// and the segment destroyed where it was the last and removal was asked for.
pub open spec fn after_shm_detach(sm: ShmMem, id: int) -> ShmMem {
    let lowered = detach_lowered(sm, id);
    if detach_destroys(sm.shm, id) {
        after_shm_dealloc(lowered, id)
    } else {
        lowered
    }
}

/// The segment that a key names: the last one, by identifier, that holds
/// blocks and was made under that key.
pub open spec fn shm_find(shms: Seq<Shm>, key: usize, upto: int) -> Option<usize>
    decreases upto,
{
    if upto <= 0 {
        None
    } else if shms[upto - 1].key == key && shms[upto - 1].nblocks > 0 {
        Some((upto - 1) as usize)
    } else {
        shm_find(shms, key, upto - 1)
    }
}

/// The number of frames that hold `size` bytes.
pub open spec fn frames_for(size: usize) -> int {
    (size + PAGE_SIZE - 1) / PAGE_SIZE as int
}

impl View for ShmManager {
    type V = ShmState;

    closed spec fn view(&self) -> ShmState {
        ShmState {
            blocks: self.blocks@,
            free_blocks: self.free_blocks@,
            blockstop: self.blockstop,
            shms: self.shms@,
            free_ids: self.free_ids@,
            idstop: self.idstop,
        }
    }
}

impl ShmBlock {
    /// A block that holds frame zero and has no successor.
    pub fn new() -> (r: Self)
        ensures
            r.ppn.0 == 0,
            r.next.is_none(),
    {
        Self { ppn: PhysPageNum::new(0), next: None }
    }
}

impl Shm {
    /// A segment that holds nothing.
    pub fn new() -> (r: Self)
        ensures
            r.head == 0,
            r.nblocks == 0,
            r.shm_ref == 0,
            r.rmid == 0,
            r.key == 0,
    {
        Self { head: 0, nblocks: 0, shm_ref: 0, rmid: 0, key: 0 }
    }
}

/// The tables before `init`: every block holds frame zero and has no
/// successor, every segment holds nothing, and both stacks are empty.
pub open spec fn unset_shm_state() -> ShmState {
    ShmState {
        blocks: Seq::new(SHMALL as nat, |i: int| ShmBlock { ppn: PhysPageNum(0), next: None }),
        free_blocks: Seq::new(SHMALL as nat, |i: int| 0usize),
        blockstop: 0,
        shms: Seq::new(SHMMNI as nat, |i: int| Shm { head: 0, nblocks: 0, shm_ref: 0, rmid: 0, key: 0 }),
        free_ids: Seq::new(SHMMNI as nat, |i: int| 0usize),
        idstop: 0,
    }
}

/// No segment holds a block.
pub open spec fn no_blocks_held(shms: Seq<Shm>) -> bool {
    forall|i: int| 0 <= i < shms.len() ==> (#[trigger] shms[i]).nblocks == 0
}

/// Segments that hold no block hold none together.
pub proof fn lemma_no_blocks_held(shms: Seq<Shm>, upto: int)
    requires
        no_blocks_held(shms),
        0 <= upto <= shms.len(),
    ensures
        blocks_held(shms, upto) == 0,
    decreases upto,
{
    if upto > 0 {
        lemma_no_blocks_held(shms, upto - 1);
        assert(shms[upto - 1].nblocks == 0);
    }
}

impl ShmManager {
    /// The tables are well formed.
    pub open spec fn wf(&self) -> bool {
        self@.wf()
    }

    /// A manager before `init`: no segment, empty stacks.
    pub fn new() -> (r: Self)
        ensures
            r@ == unset_shm_state(),
            no_blocks_held(r@.shms),
            r.wf(),
    {
        let r = Self {
            blocks: [ShmBlock::new(); SHMALL],
            free_blocks: [0; SHMALL],
            shms: [Shm::new(); SHMMNI],
            blockstop: 0,
            free_ids: [0; SHMMNI],
            idstop: 0,
        };
        proof {
            let u = unset_shm_state();
            assert(r@.blocks =~= u.blocks);
            assert(r@.free_blocks =~= u.free_blocks);
            assert(r@.shms =~= u.shms);
            assert(r@.free_ids =~= u.free_ids);
            lemma_no_blocks_held(r@.shms, SHMMNI as int);
        }
        r
    }

    /// Fills the two stacks: every block slot and every identifier is free,
    /// the highest on top.
    pub fn init(&mut self)
        requires
            old(self).wf(),
            no_blocks_held(old(self)@.shms),
        ensures
            final(self).wf(),
            final(self)@.blockstop == SHMALL,
            final(self)@.idstop == SHMMNI,
            forall|i: int| 0 <= i < SHMALL ==> final(self)@.free_blocks[i] == i,
            forall|i: int| 0 <= i < SHMMNI ==> final(self)@.free_ids[i] == i,
            final(self)@.blocks == old(self)@.blocks,
            final(self)@.shms == old(self)@.shms,
    {
        let mut i: usize = 0;
        while i < SHMALL
            invariant
                i <= SHMALL,
                forall|j: int| 0 <= j < i ==> self.free_blocks@[j] == j,
                self.blocks == old(self).blocks,
                self.shms == old(self).shms,
            decreases SHMALL - i,
        {
            self.free_blocks[i] = i;
            i += 1;
        }
        let mut k: usize = 0;
        while k < SHMMNI
            invariant
                k <= SHMMNI,
                forall|j: int| 0 <= j < SHMALL ==> self.free_blocks@[j] == j,
                forall|j: int| 0 <= j < k ==> self.free_ids@[j] == j,
                self.blocks == old(self).blocks,
                self.shms == old(self).shms,
            decreases SHMMNI - k,
        {
            self.free_ids[k] = k;
            k += 1;
        }
        self.blockstop = SHMALL;
        self.idstop = SHMMNI;
        proof {
            lemma_no_blocks_held(self@.shms, SHMMNI as int);
        }
    }

    /// The segment with identifier `id`.
    pub fn segment(&self, id: usize) -> (r: Shm)
        requires
            id < SHMMNI,
        ensures
            r == self@.shms[id as int],
    {
        self.shms[id]
    }

    /// The block in slot `blk`.
    pub fn block(&self, blk: usize) -> (r: ShmBlock)
        requires
            blk < SHMALL,
        ensures
            r == self@.blocks[blk as int],
    {
        self.blocks[blk]
    }

    /// How many block slots are free.
    pub fn free_block_count(&self) -> (r: usize)
        ensures
            r == self@.blockstop,
    {
        self.blockstop
    }

    /// How many identifiers are free.
    pub fn free_id_count(&self) -> (r: usize)
        ensures
            r == self@.idstop,
    {
        self.idstop
    }

    /// Makes a segment of `nframes` frames: takes an identifier and `nframes`
    /// block slots, gives each block a fresh frame with one reference, and
    /// links the blocks.
    pub fn allocate(&mut self, fa: &mut FrameAllocator, nframes: usize) -> (r: Result<usize, Error>)
        requires
            old(self).wf(),
            old(fa).wf(),
            nframes == 0 && old(self)@.idstop > 0 ==> old(self)@.blockstop > 0,
        ensures
            final(self).wf(),
            final(fa).wf(),
            r == shm_alloc_result(ShmMem { shm: old(self)@, frames: old(fa)@ }, nframes),
            r.is_err() ==> final(self)@ == old(self)@ && final(fa)@ == old(fa)@,
            r.is_ok() ==> (ShmMem { shm: final(self)@, frames: final(fa)@ }) == after_shm_alloc(
                ShmMem { shm: old(self)@, frames: old(fa)@ },
                nframes,
            ),
            r.is_ok() ==> r.unwrap() < SHMMNI,
    {
        if nframes > self.blockstop || self.idstop == 0 {
            return Err(Error::NoSpc);
        }
        if nframes > fa.num_free() {
            return Err(Error::NoMem);
        }
        let id = self.free_ids[self.idstop - 1];
        self.idstop -= 1;
        let mut blk = self.free_blocks[self.blockstop - 1];
        self.blockstop -= 1;
        let ghost held0 = blocks_held(self@.shms, SHMMNI as int);
        proof {
            lemma_blocks_held_update(
                old(self)@.shms,
                id as int,
                Shm { nblocks: nframes, head: blk, ..old(self)@.shms[id as int] },
                SHMMNI as int,
            );
        }
        let mut seg = self.shms[id];
        seg.nblocks = nframes;
        seg.head = blk;
        self.shms[id] = seg;
        let ghost start = ShmMem { shm: self@, frames: fa@ };
        let ghost blk0 = blk as int;
        let ghost stop0 = self.blockstop as int;
        let mut i: usize = 0;
        while i < nframes
            invariant
                i <= nframes,
                fa.wf(),
                blk < SHMALL,
                fa@.free.len() >= nframes - i,
                self.blockstop == stop0 - (if i < nframes {
                    i as int
                } else if nframes == 0 {
                    0
                } else {
                    nframes - 1
                }),
                stop0 >= nframes - 1,
                self.idstop == start.shm.idstop,
                self@.shms == start.shm.shms,
                self@.free_ids == start.shm.free_ids,
                self@.free_blocks == start.shm.free_blocks,
                start.shm.idstop <= SHMMNI,
                stop0 + 1 <= SHMALL,
                forall|j: int| 0 <= j < stop0 ==> #[trigger] start.shm.free_blocks[j] < SHMALL,
                forall|j: int| 0 <= j < start.shm.idstop ==> #[trigger] start.shm.free_ids[j] < SHMMNI,
                forall|b: int|
                    0 <= b < SHMALL ==> match (#[trigger] self@.blocks[b]).next {
                        Some(n) => n < SHMALL,
                        None => true,
                    },
                forall|j: int| 0 <= j < SHMMNI ==> (#[trigger] start.shm.shms[j]).head < SHMALL,
                shm_fill(ShmMem { shm: self@, frames: fa@ }, blk as int, (nframes - i) as nat) == shm_fill(
                    start,
                    blk0,
                    nframes as nat,
                ),
            decreases nframes - i,
        {
            let ghost before = ShmMem { shm: self@, frames: fa@ };
            let ppn = match fa.allocate() {
                Ok(p) => p,
                Err(_) => PhysPageNum::new(0),
            };
            proof {
                let s = before.frames;
                assert(s.free[0] < s.refs.len());
                assert(s.refs[s.free[0] as int] == 0);
                lemma_alloc_not_free(s);
            }
            fa.incref(ppn);
            let mut b = self.blocks[blk];
            b.ppn = ppn;
            if i + 1 != nframes {
                let next = self.free_blocks[self.blockstop - 1];
                self.blockstop -= 1;
                b.next = Some(next);
                self.blocks[blk] = b;
                blk = next;
            } else {
                b.next = None;
                self.blocks[blk] = b;
            }
            i += 1;
        }
        proof {
            assert(blocks_held(self@.shms, SHMMNI as int) <= held0 + nframes);
        }
        Ok(id)
    }

    /// Counts one more attachment of segment `id`.
    pub fn attach(&mut self, id: usize)
        requires
            old(self).wf(),
            id < SHMMNI,
            old(self)@.shms[id as int].shm_ref < usize::MAX,
        ensures
            final(self).wf(),
            final(self)@ == (ShmState {
                shms: old(self)@.shms.update(
                    id as int,
                    Shm {
                        shm_ref: (old(self)@.shms[id as int].shm_ref + 1) as usize,
                        ..old(self)@.shms[id as int]
                    },
                ),
                ..old(self)@
            }),
    {
        let mut seg = self.shms[id];
        seg.shm_ref += 1;
        self.shms[id] = seg;
        proof {
            lemma_blocks_held_update(old(self)@.shms, id as int, seg, SHMMNI as int);
        }
    }

    /// Marks segment `id` for removal at its last detach.
    pub fn rmid(&mut self, id: usize)
        requires
            old(self).wf(),
            id < SHMMNI,
        ensures
            final(self).wf(),
            final(self)@ == (ShmState {
                shms: old(self)@.shms.update(id as int, Shm { rmid: 1, ..old(self)@.shms[id as int] }),
                ..old(self)@
            }),
    {
        let mut seg = self.shms[id];
        seg.rmid = 1;
        self.shms[id] = seg;
        proof {
            lemma_blocks_held_update(old(self)@.shms, id as int, seg, SHMMNI as int);
        }
    }

    /// Counts one attachment of segment `id` less, and destroys the segment
    /// where none is left and removal was asked for.
    pub fn deattach(&mut self, fa: &mut FrameAllocator, id: usize)
        requires
            old(self).wf(),
            old(fa).wf(),
            id < SHMMNI,
            shm_detach_ok(ShmMem { shm: old(self)@, frames: old(fa)@ }, id as int),
        ensures
            final(self).wf(),
            final(fa).wf(),
            (ShmMem { shm: final(self)@, frames: final(fa)@ }) == after_shm_detach(
                ShmMem { shm: old(self)@, frames: old(fa)@ },
                id as int,
            ),
    {
        let mut seg = self.shms[id];
        seg.shm_ref -= 1;
        self.shms[id] = seg;
        proof {
            lemma_blocks_held_update(old(self)@.shms, id as int, seg, SHMMNI as int);
        }
        if seg.shm_ref == 0 && seg.rmid != 0 {
            self.dealloc(fa, id);
        }
    }

    /// Destroys segment `id`: every frame of it loses a reference, every
    /// block slot goes back on the stack, and the segment holds nothing.
    pub fn dealloc(&mut self, fa: &mut FrameAllocator, id: usize)
        requires
            old(self).wf(),
            old(fa).wf(),
            id < SHMMNI,
            shm_release_ok(
                ShmMem { shm: old(self)@, frames: old(fa)@ },
                old(self)@.shms[id as int].head as int,
                old(self)@.shms[id as int].nblocks as nat,
            ),
        ensures
            final(self).wf(),
            final(fa).wf(),
            (ShmMem { shm: final(self)@, frames: final(fa)@ }) == after_shm_dealloc(
                ShmMem { shm: old(self)@, frames: old(fa)@ },
                id as int,
            ),
    {
        let ghost start = ShmMem { shm: self@, frames: fa@ };
        let n = self.shms[id].nblocks;
        let mut blk = self.shms[id].head;
        proof {
            lemma_blocks_held_update(start.shm.shms, id as int, start.shm.shms[id as int], SHMMNI as int);
        }
        let mut i: usize = 0;
        while i < n
            invariant
                i <= n,
                fa.wf(),
                blk < SHMALL,
                id < SHMMNI,
                n == start.shm.shms[id as int].nblocks,
                self@.shms == start.shm.shms,
                self@.blocks == start.shm.blocks,
                self@.free_ids == start.shm.free_ids,
                self@.idstop == start.shm.idstop,
                self@.free_blocks.len() == SHMALL,
                self.blockstop == start.shm.blockstop + i,
                start.shm.wf(),
                n <= blocks_held(start.shm.shms, SHMMNI as int),
                forall|j: int| 0 <= j < self.blockstop ==> #[trigger] self@.free_blocks[j] < SHMALL,
                shm_release_ok(ShmMem { shm: self@, frames: fa@ }, blk as int, (n - i) as nat),
                shm_release(ShmMem { shm: self@, frames: fa@ }, blk as int, (n - i) as nat) == shm_release(
                    start,
                    start.shm.shms[id as int].head as int,
                    n as nat,
                ),
            decreases n - i,
        {
            let b = self.blocks[blk];
            fa.decref(b.ppn);
            self.free_blocks[self.blockstop] = blk;
            self.blockstop += 1;
            proof {
                assert(start.shm.blocks[blk as int] == b);
            }
            blk = match b.next {
                Some(nx) => nx,
                None => 0,
            };
            i += 1;
        }
        let mut seg = self.shms[id];
        seg.nblocks = 0;
        self.shms[id] = seg;
        proof {
            lemma_blocks_held_update(start.shm.shms, id as int, seg, SHMMNI as int);
        }
    }

    /// Maps the frames of segment `id` to consecutive pages from `va` on in
    /// directory `pgdir`. Stops at the first page that no table can be made for.
    pub fn map(
        &self,
        fa: &mut FrameAllocator,
        tlb: &mut Tlb,
        id: usize,
        va: VirtAddr,
        asid: ASID,
        pgdir: PhysPageNum,
        perm: usize,
    ) -> (r: Result<(), Error>)
        requires
            self.wf(),
            old(fa).wf(),
            id < SHMMNI,
            shm_map_ok(
                MapState { frames: old(fa)@, tlb: old(tlb)@ },
                self@.blocks,
                pgdir,
                va,
                self@.shms[id as int].head as int,
                self@.shms[id as int].nblocks as nat,
                asid,
                perm,
            ),
        ensures
            final(fa).wf(),
            (MapState { frames: final(fa)@, tlb: final(tlb)@ }) == after_shm_map(
                MapState { frames: old(fa)@, tlb: old(tlb)@ },
                self@.blocks,
                pgdir,
                va,
                self@.shms[id as int].head as int,
                self@.shms[id as int].nblocks as nat,
                asid,
                perm,
            ),
            r == (if shm_map_fails(
                MapState { frames: old(fa)@, tlb: old(tlb)@ },
                self@.blocks,
                pgdir,
                va,
                self@.shms[id as int].head as int,
                self@.shms[id as int].nblocks as nat,
                asid,
                perm,
            ) {
                Err::<(), Error>(Error::NoMem)
            } else {
                Ok::<(), Error>(())
            }),
    {
        let ghost start = MapState { frames: fa@, tlb: tlb@ };
        let ghost blocks = self@.blocks;
        let n = self.shms[id].nblocks;
        let ghost head = self@.shms[id as int].head as int;
        let mut blk = self.shms[id].head;
        let mut cur = va;
        let mut i: usize = 0;
        while i < n
            invariant
                i <= n,
                fa.wf(),
                self.wf(),
                id < SHMMNI,
                blk < SHMALL,
                blocks == self@.blocks,
                start == (MapState { frames: old(fa)@, tlb: old(tlb)@ }),
                head == self@.shms[id as int].head,
                n == self@.shms[id as int].nblocks,
                shm_map_ok(
                    MapState { frames: fa@, tlb: tlb@ },
                    blocks,
                    pgdir,
                    cur,
                    blk as int,
                    (n - i) as nat,
                    asid,
                    perm,
                ),
                after_shm_map(
                    MapState { frames: fa@, tlb: tlb@ },
                    blocks,
                    pgdir,
                    cur,
                    blk as int,
                    (n - i) as nat,
                    asid,
                    perm,
                ) == after_shm_map(start, blocks, pgdir, va, head, n as nat, asid, perm),
                shm_map_fails(
                    MapState { frames: fa@, tlb: tlb@ },
                    blocks,
                    pgdir,
                    cur,
                    blk as int,
                    (n - i) as nat,
                    asid,
                    perm,
                ) == shm_map_fails(start, blocks, pgdir, va, head, n as nat, asid, perm),
            decreases n - i,
        {
            let b = self.blocks[blk];
            let ghost m = MapState { frames: fa@, tlb: tlb@ };
            proof {
                assert(blocks[blk as int] == b);
            }
            match PageTable::insert(fa, tlb, pgdir, asid, b.ppn, cur, perm) {
                Ok(()) => {},
                Err(e) => {
                    proof {
                        assert(shm_insert_fails(m.frames, pgdir, b.ppn, cur));
                        assert(after_shm_map(m, blocks, pgdir, cur, blk as int, (n - i) as nat, asid, perm)
                            == insert_step(m, pgdir, asid, b.ppn, cur, perm));
                        assert(shm_map_fails(m, blocks, pgdir, cur, blk as int, (n - i) as nat, asid, perm));
                    }
                    return Err(e);
                },
            }
            proof {
                assert(!shm_insert_fails(m.frames, pgdir, b.ppn, cur));
            }
            blk = match b.next {
                Some(nx) => nx,
                None => 0,
            };
            cur = cur + PAGE_SIZE;
            i += 1;
        }
        Ok(())
    }
}

/// Sets the shared-memory tables up.
pub fn init(sm: &mut ShmManager)
    requires
        old(sm).wf(),
        no_blocks_held(old(sm)@.shms),
    ensures
        final(sm).wf(),
        final(sm)@.blockstop == SHMALL,
        final(sm)@.idstop == SHMMNI,
        forall|i: int| 0 <= i < SHMALL ==> final(sm)@.free_blocks[i] == i,
        forall|i: int| 0 <= i < SHMMNI ==> final(sm)@.free_ids[i] == i,
        final(sm)@.blocks == old(sm)@.blocks,
        final(sm)@.shms == old(sm)@.shms,
{
    sm.init();
}

/// How `shm_get` ends: `Inval` for a size of no frame; the segment that the
/// key names, if the key is not zero and names one; else a new segment, or
/// the reason why none can be made.
pub open spec fn shm_get_result(sm: ShmMem, key: usize, size: usize) -> Result<i32, Error> {
    if frames_for(size) == 0 {
        Err(Error::Inval)
    } else if key != 0 && shm_find(sm.shm.shms, key, SHMMNI as int).is_some() {
        Ok(shm_find(sm.shm.shms, key, SHMMNI as int).unwrap() as i32)
    } else {
        match shm_alloc_result(sm, frames_for(size) as usize) {
            Ok(id) => Ok(id as i32),
            Err(e) => Err(e),
        }
    }
}

/// Tables and memory after `shm_get`: a new segment, entered under the key,
/// where one is made; else nothing changes.
pub open spec fn after_shm_get(sm: ShmMem, key: usize, size: usize) -> ShmMem {
    if frames_for(size) == 0 || (key != 0 && shm_find(sm.shm.shms, key, SHMMNI as int).is_some())
        || shm_alloc_result(sm, frames_for(size) as usize).is_err() {
        sm
    } else {
        let r = after_shm_alloc(sm, frames_for(size) as usize);
        let id = shm_alloc_result(sm, frames_for(size) as usize).unwrap() as int;
        ShmMem {
            shm: ShmState { shms: r.shm.shms.update(id, Shm { key, ..r.shm.shms[id] }), ..r.shm },
            frames: r.frames,
        }
    }
}

/// Finds the segment made under `key`, or makes one that holds `size` bytes.
pub fn shm_get(sm: &mut ShmManager, fa: &mut FrameAllocator, key: usize, size: usize) -> (r: Result<
    i32,
    Error,
>)
    requires
        old(sm).wf(),
        old(fa).wf(),
        size + PAGE_SIZE <= usize::MAX,
    ensures
        final(sm).wf(),
        final(fa).wf(),
        r == shm_get_result(ShmMem { shm: old(sm)@, frames: old(fa)@ }, key, size),
        (ShmMem { shm: final(sm)@, frames: final(fa)@ }) == after_shm_get(
            ShmMem { shm: old(sm)@, frames: old(fa)@ },
            key,
            size,
        ),
{
    let nframes = (size + PAGE_SIZE - 1) / PAGE_SIZE;
    if nframes == 0 {
        return Err(Error::Inval);
    }
    let mut shm_id: Option<usize> = None;
    let mut i: usize = 0;
    while i < SHMMNI
        invariant
            i <= SHMMNI,
            *sm == *old(sm),
            sm.wf(),
            shm_id == shm_find(sm@.shms, key, i as int),
            shm_id.is_some() ==> shm_id.unwrap() < SHMMNI,
        decreases SHMMNI - i,
    {
        if sm.shms[i].key == key && sm.shms[i].nblocks > 0 {
            shm_id = Some(i);
        }
        i += 1;
    }
    if key != 0 {
        match shm_id {
            Some(id) => {
                return Ok(id as i32);
            },
            None => {},
        }
    }
    let id = match sm.allocate(fa, nframes) {
        Ok(id) => id,
        Err(e) => {
            return Err(e);
        },
    };
    let ghost mid = sm@;
    let mut seg = sm.shms[id];
    seg.key = key;
    sm.shms[id] = seg;
    proof {
        lemma_blocks_held_update(mid.shms, id as int, seg, SHMMNI as int);
    }
    Ok(id as i32)
}

/// What `shm_at` needs where the segment exists: its pages can be mapped,
/// and one more attachment can be counted.
pub open spec fn shm_at_ok(
    s: ShmState,
    m: MapState,
    id: usize,
    va: VirtAddr,
    asid: ASID,
    d: PhysPageNum,
    perm: usize,
) -> bool {
    id < SHMMNI && s.shms[id as int].nblocks > 0 ==> {
        &&& shm_map_ok(
            m,
            s.blocks,
            d,
            va,
            s.shms[id as int].head as int,
            s.shms[id as int].nblocks as nat,
            asid,
            perm,
        )
        &&& s.shms[id as int].shm_ref < usize::MAX
    }
}

/// Whether `id` names a segment that holds blocks.
pub open spec fn shm_exists(s: ShmState, id: usize) -> bool {
    id < SHMMNI && s.shms[id as int].nblocks > 0
}

/// Attaches segment `id` at `va` in directory `pgdir`: maps its frames to
/// consecutive pages and counts the attachment.
pub fn shm_at(
    sm: &mut ShmManager,
    fa: &mut FrameAllocator,
    tlb: &mut Tlb,
    id: usize,
    va: VirtAddr,
    asid: ASID,
    pgdir: PhysPageNum,
    perm: usize,
) -> (r: Result<(), Error>)
    requires
        old(sm).wf(),
        old(fa).wf(),
        shm_at_ok(old(sm)@, MapState { frames: old(fa)@, tlb: old(tlb)@ }, id, va, asid, pgdir, perm),
    ensures
        final(sm).wf(),
        final(fa).wf(),
        !shm_exists(old(sm)@, id) ==> r == Err::<(), Error>(Error::Inval) && final(sm)@ == old(sm)@
            && final(fa)@ == old(fa)@ && final(tlb)@ == old(tlb)@,
        shm_exists(old(sm)@, id) ==> {
            let m = MapState { frames: old(fa)@, tlb: old(tlb)@ };
            let s = old(sm)@;
            let head = s.shms[id as int].head as int;
            let n = s.shms[id as int].nblocks as nat;
            &&& (MapState { frames: final(fa)@, tlb: final(tlb)@ }) == after_shm_map(
                m,
                s.blocks,
                pgdir,
                va,
                head,
                n,
                asid,
                perm,
            )
            &&& if shm_map_fails(m, s.blocks, pgdir, va, head, n, asid, perm) {
                r == Err::<(), Error>(Error::NoMem) && final(sm)@ == s
            } else {
                r == Ok::<(), Error>(()) && final(sm)@ == (ShmState {
                    shms: s.shms.update(
                        id as int,
                        Shm { shm_ref: (s.shms[id as int].shm_ref + 1) as usize, ..s.shms[id as int] },
                    ),
                    ..s
                })
            }
        },
{
    if id >= SHMMNI || sm.shms[id].nblocks == 0 {
        return Err(Error::Inval);
    }
    match sm.map(fa, tlb, id, va, asid, pgdir, perm) {
        Ok(()) => {},
        Err(e) => {
            return Err(e);
        },
    }
    sm.attach(id);
    Ok(())
}

/// What `shm_dt` needs where the segment exists: its pages can be unmapped,
/// and the detach finds what it needs afterwards.
pub open spec fn shm_dt_ok(s: ShmState, m: MapState, id: usize, va: VirtAddr, asid: ASID, d: PhysPageNum) -> bool {
    shm_exists(s, id) ==> {
        &&& shm_unmap_ok(m, d, va, s.shms[id as int].nblocks as nat, asid)
        &&& shm_detach_ok(
            ShmMem { shm: s, frames: after_shm_unmap(m, d, va, s.shms[id as int].nblocks as nat, asid).frames },
            id as int,
        )
    }
}

/// Detaches segment `id` from `va` in directory `pgdir`: unmaps as many
/// pages as the segment has frames and gives the attachment up.
pub fn shm_dt(
    sm: &mut ShmManager,
    fa: &mut FrameAllocator,
    tlb: &mut Tlb,
    id: usize,
    va: VirtAddr,
    asid: ASID,
    pgdir: PhysPageNum,
) -> (r: Result<(), Error>)
    requires
        old(sm).wf(),
        old(fa).wf(),
        shm_dt_ok(old(sm)@, MapState { frames: old(fa)@, tlb: old(tlb)@ }, id, va, asid, pgdir),
    ensures
        final(sm).wf(),
        final(fa).wf(),
        !shm_exists(old(sm)@, id) ==> r == Err::<(), Error>(Error::Inval) && final(sm)@ == old(sm)@
            && final(fa)@ == old(fa)@ && final(tlb)@ == old(tlb)@,
        shm_exists(old(sm)@, id) ==> {
            let m = MapState { frames: old(fa)@, tlb: old(tlb)@ };
            let s = old(sm)@;
            let u = after_shm_unmap(m, pgdir, va, s.shms[id as int].nblocks as nat, asid);
            &&& r == Ok::<(), Error>(())
            &&& final(tlb)@ == u.tlb
            &&& (ShmMem { shm: final(sm)@, frames: final(fa)@ }) == after_shm_detach(
                ShmMem { shm: s, frames: u.frames },
                id as int,
            )
        },
{
    if id >= SHMMNI || sm.shms[id].nblocks == 0 {
        return Err(Error::Inval);
    }
    let ghost start = MapState { frames: fa@, tlb: tlb@ };
    let n = sm.shms[id].nblocks;
    let mut cur = va;
    let mut i: usize = 0;
    while i < n
        invariant
            i <= n,
            fa.wf(),
            *sm == *old(sm),
            sm.wf(),
            id < SHMMNI,
            n == sm@.shms[id as int].nblocks,
            start == (MapState { frames: old(fa)@, tlb: old(tlb)@ }),
            shm_unmap_ok(MapState { frames: fa@, tlb: tlb@ }, pgdir, cur, (n - i) as nat, asid),
            after_shm_unmap(MapState { frames: fa@, tlb: tlb@ }, pgdir, cur, (n - i) as nat, asid)
                == after_shm_unmap(start, pgdir, va, n as nat, asid),
        decreases n - i,
    {
        PageTable::remove(fa, tlb, pgdir, asid, cur);
        cur = cur + PAGE_SIZE;
        i += 1;
    }
    sm.deattach(fa, id);
    Ok(())
}

/// Marks segment `id` for removal; `Inval` where it holds no block.
pub fn shm_rmid(sm: &mut ShmManager, id: usize) -> (r: Result<(), Error>)
    requires
        old(sm).wf(),
        id < SHMMNI,
    ensures
        final(sm).wf(),
        old(sm)@.shms[id as int].nblocks == 0 ==> r == Err::<(), Error>(Error::Inval) && final(sm)@
            == old(sm)@,
        old(sm)@.shms[id as int].nblocks != 0 ==> r == Ok::<(), Error>(()) && final(sm)@ == (ShmState {
            shms: old(sm)@.shms.update(id as int, Shm { rmid: 1, ..old(sm)@.shms[id as int] }),
            ..old(sm)@
        }),
{
    if sm.shms[id].nblocks == 0 {
        return Err(Error::Inval);
    }
    sm.rmid(id);
    Ok(())
}

} // verus!
