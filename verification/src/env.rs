//! Environments: the table of slots, address-space identifiers, the free list and the schedule list,
//! allocation, teardown, the switch between environments and the scheduler.

use vstd::prelude::*;
use vstd::std_specs::convert::FromSpecImpl;
use crate::err::Error;
use crate::frame::{FrameAllocator, FrameState};
use crate::loader::{image_header, load_icode, load_icode_ok, load_segments};
use crate::mmu::{
    NASID, PAGE_SIZE, PGSHIFT, PhysAddr, PhysPageNum, PTE_G, PTE_V, UENVS, ULIM, UPAGES, USTACKTOP, UTOP,
    UVPT, VirtAddr,
};
use crate::page_table::{
    after_map_segment, lemma_alloc_not_free, map_segment_ok, MapState, PageTable, Pte, spec_lookup,
};
use crate::queue::IndexLink;
use crate::teardown::{after_free_space, free_space_ok, free_user_tables, lemma_free_space_unmaps};
use crate::tlb::{Tlb, tlb_entry, tlb_invalidate};
use crate::traps::{REG_SP, STATUS_INITIAL, Trapframe, with_reg};

verus! {

/// Base-two logarithm of the number of environment slots.
pub const LOG2NENV: usize = 10;

/// Number of environment slots.
pub const NENV: usize = 1024;

/// Words in the bitmap of address-space identifiers.
pub const ASID_WORDS: usize = 8;

/// First directory index above the user part of an address space.
pub const UTOP_PDX: usize = 509;

/// Directory index of the window onto the caller's own page tables.
pub const UVPT_PDX: usize = 511;

/// An address-space identifier, the tag of TLB entries.
#[derive(Clone, Copy, Debug, PartialEq, Eq, PartialOrd, Ord, Hash, Structural)]
pub struct ASID(pub usize);

/// The identifier of an environment: a generation above the slot index.
#[derive(Clone, Copy, Debug, PartialEq, Eq, PartialOrd, Ord, Hash, Structural)]
pub struct EnvID(pub usize);

/// What an environment slot is doing.
#[derive(Clone, Copy, Debug, PartialEq, Eq, PartialOrd, Ord, Hash, Structural)]
pub enum EnvStatus {
    Free,
    Runnable,
    NotRunnable,
}

/// One environment: a user process with its address space and saved state.
#[derive(Clone, Copy, Debug)]
pub struct Env {
    /// Saved registers, meaningful while the environment is not running.
    pub env_tf: Trapframe,
    pub env_id: EnvID,
    pub env_asid: ASID,
    pub env_parent_id: EnvID,
    pub env_status: EnvStatus,
    /// The frame that holds the page directory.
    pub env_pgdir: Option<PhysPageNum>,
    /// Priority: the number of time slices in one turn.
    pub env_pri: usize,
    pub env_ipc_value: usize,
    pub env_ipc_from: usize,
    pub env_ipc_receiving: usize,
    pub env_ipc_dstva: VirtAddr,
    pub env_ipc_perm: usize,
    /// User address of the handler for write faults; zero if there is none.
    pub env_user_tlb_mod_entry: usize,
    pub env_runs: usize,
}

/// The environment table with its free list, schedule list, identifiers and
/// the trapframe of the running environment.
pub struct EnvManager {
    envs: Vec<Env>,
    base_pgdir: PhysPageNum,
    env_free_list: IndexLink,
    env_sched_list: IndexLink,
    cur_env_ind: Option<usize>,
    asid_bitmap: [usize; ASID_WORDS],
    alloced_env: usize,
    count: isize,
    trap_tf: Trapframe,
}

/// The mathematical state of the environment table.
pub struct EnvState {
    pub envs: Seq<Env>,
    /// The frame of the directory whose kernel part every environment shares.
    pub base_pgdir: PhysPageNum,
    /// The free slots; the head is the next to be allocated.
    pub free: Seq<usize>,
    /// The runnable slots in the order in which they take their turn.
    pub sched: Seq<usize>,
    /// The slot of the running environment.
    pub cur: Option<usize>,
    /// The address-space identifiers in use.
    pub asids: Set<int>,
    /// How many identifiers have been made.
    pub alloced: usize,
    /// Time slices left in the current turn.
    pub count: isize,
    /// The trapframe that the trap entry saved on the kernel stack.
    pub tf: Trapframe,
}

/// Whether bit `a` of the identifier bitmap is set.
pub open spec fn asid_bit(bitmap: Seq<usize>, a: int) -> bool {
    bitmap[a / 32] & (1usize << ((a % 32) as usize)) != 0
}

/// The identifier made for slot `ind` as the `generation`-th one.
pub open spec fn spec_mkenvid(generation: usize, ind: usize) -> EnvID {
    EnvID((generation << 11) | ind)
}

/// The slot that an identifier belongs to.
pub open spec fn spec_envx(id: EnvID) -> usize {
    id.0 % 1024
}

/// The slot that `id` names for the running environment: the running
/// environment itself for zero; else the slot of `id`, if it is in use under
/// that very identifier and, where `checkperm` asks for it, is the running
/// environment or a child of it.
pub open spec fn spec_envid2ind(s: EnvState, id: EnvID, checkperm: i32) -> Result<usize, Error> {
    let cur = s.cur.unwrap();
    let e = s.envs[spec_envx(id) as int];
    let cur_id = s.envs[cur as int].env_id;
    if id.0 == 0 {
        Ok(cur)
    } else if e.env_status == EnvStatus::Free || e.env_id != id {
        Err(Error::BadEnv)
    } else if checkperm != 0 && e.env_id != cur_id && e.env_parent_id != cur_id {
        Err(Error::BadEnv)
    } else {
        Ok(spec_envx(id))
    }
}

impl EnvState {
    /// Whether slot `e` is in use.
    pub open spec fn live(self, e: int) -> bool {
        0 <= e < self.envs.len() && self.envs[e].env_status != EnvStatus::Free
    }

    /// The table has all its slots; a slot is on the free list exactly while
    /// it is free and on the schedule list exactly while it is runnable; the
    /// identifiers in use are those of the slots in use, one for each.
    pub open spec fn wf(self) -> bool {
        &&& self.envs.len() == NENV
        &&& self.free.no_duplicates()
        &&& self.sched.no_duplicates()
        &&& forall|i: int| 0 <= i < self.free.len() ==> #[trigger] self.free[i] < NENV
        &&& forall|i: int| 0 <= i < self.sched.len() ==> #[trigger] self.sched[i] < NENV
        &&& forall|e: int|
            0 <= e < NENV ==> (self.free.contains(e as usize) <==> (#[trigger] self.envs[e]).env_status
                == EnvStatus::Free)
        &&& forall|e: int|
            0 <= e < NENV ==> (self.sched.contains(e as usize) <==> (#[trigger] self.envs[e]).env_status
                == EnvStatus::Runnable)
        &&& match self.cur {
            Some(c) => c < NENV,
            None => true,
        }
        &&& self.asids_wf()
    }

    /// The identifiers in use are those of the slots in use, one for each.
    pub open spec fn asids_wf(self) -> bool {
        &&& forall|a: int| self.asids.contains(a) ==> 0 <= a < NASID
        &&& forall|e: int| #[trigger]
            self.live(e) ==> self.envs[e].env_asid.0 < NASID && self.asids.contains(
                self.envs[e].env_asid.0 as int,
            )
        &&& forall|e1: int, e2: int|
            #[trigger] self.live(e1) && #[trigger] self.live(e2) && e1 != e2 ==> self.envs[e1].env_asid
                != self.envs[e2].env_asid
        &&& forall|a: int| #[trigger]
            self.asids.contains(a) ==> exists|e: int| #[trigger] self.live(e) && self.envs[e].env_asid.0 == a
    }
}

impl ASID {
    /// Wraps a number.
    pub fn new(v: usize) -> (r: Self)
        ensures
            r.0 == v,
    {
        Self(v)
    }

    /// The identifier zero.
    pub fn zero() -> (r: Self)
        ensures
            r.0 == 0,
    {
        Self(0)
    }

    /// The number.
    pub fn as_usize(self) -> (r: usize)
        ensures
            r == self.0,
    {
        self.0
    }
}

impl EnvID {
    /// Wraps a number.
    pub fn new(v: usize) -> (r: Self)
        ensures
            r.0 == v,
    {
        Self(v)
    }

    /// The identifier zero, which stands for the running environment.
    pub fn zero() -> (r: Self)
        ensures
            r.0 == 0,
    {
        Self(0)
    }

    /// The number.
    pub fn as_usize(self) -> (r: usize)
        ensures
            r == self.0,
    {
        self.0
    }

    /// The slot that the identifier belongs to.
    pub fn envx(self) -> (r: usize)
        ensures
            r == spec_envx(self),
            r < NENV,
    {
        let x = self.0;
        proof {
            assert(x & 1023usize == x % 1024) by (bit_vector);
        }
        x & (NENV - 1)
    }
}

impl Default for EnvID {
    fn default() -> (r: Self)
        ensures
            r.0 == 0,
    {
        Self(0)
    }
}

impl From<usize> for EnvStatus {
    fn from(value: usize) -> (r: EnvStatus) {
        if value == 0 {
            EnvStatus::Free
        } else if value == 1 {
            EnvStatus::Runnable
        } else {
            EnvStatus::NotRunnable
        }
    }
}

impl FromSpecImpl<usize> for EnvStatus {
    open spec fn obeys_from_spec() -> bool {
        true
    }

    open spec fn from_spec(value: usize) -> EnvStatus {
        if value == 0 {
            EnvStatus::Free
        } else if value == 1 {
            EnvStatus::Runnable
        } else {
            EnvStatus::NotRunnable
        }
    }
}

/// A slot that has never been used.
pub open spec fn fresh_env() -> Env {
    Env {
        env_tf: zero_trapframe(),
        env_id: EnvID(0),
        env_asid: ASID(0),
        env_parent_id: EnvID(0),
        env_status: EnvStatus::Free,
        env_pgdir: None,
        env_pri: 0,
        env_ipc_value: 0,
        env_ipc_from: 0,
        env_ipc_receiving: 0,
        env_ipc_dstva: VirtAddr(0),
        env_ipc_perm: 0,
        env_user_tlb_mod_entry: 0,
        env_runs: 0,
    }
}

/// The trapframe with every register zero.
pub open spec fn zero_trapframe() -> Trapframe {
    Trapframe {
        regs: vstd::array::spec_array_fill_for_copy_type(0usize),
        cp0_status: 0,
        hi: 0,
        lo: 0,
        cp0_badvaddr: 0,
        cp0_cause: 0,
        cp0_epc: 0,
    }
}

impl Env {
    /// A free slot with every field zero.
    pub fn new() -> (r: Self)
        ensures
            r == fresh_env(),
    {
        let tf = Trapframe::new();
        proof {
            assert(tf.regs =~= zero_trapframe().regs);
        }
        Env {
            env_tf: tf,
            env_id: EnvID::zero(),
            env_asid: ASID::zero(),
            env_parent_id: EnvID::zero(),
            env_status: EnvStatus::Free,
            env_pgdir: None,
            env_pri: 0,
            env_ipc_value: 0,
            env_ipc_from: 0,
            env_ipc_receiving: 0,
            env_ipc_dstva: VirtAddr::zero(),
            env_ipc_perm: 0,
            env_user_tlb_mod_entry: 0,
            env_runs: 0,
        }
    }

    /// Takes `tf` as the saved registers of this environment.
    pub fn load_tf(&mut self, tf: &Trapframe)
        ensures
            *final(self) == (Env { env_tf: *tf, ..*old(self) }),
    {
        self.env_tf = *tf;
    }
}

/// The slot of a freshly allocated environment: identifiers and parent set,
/// no fault handler, no runs yet, interrupts on and user mode in the saved
/// status, the stack pointer two words below the top of the user stack, and
/// not runnable. What the slot held otherwise stays.
pub open spec fn allocated_env(e: Env, id: EnvID, asid: ASID, parent_id: EnvID) -> Env {
    Env {
        env_user_tlb_mod_entry: 0,
        env_runs: 0,
        env_id: id,
        env_asid: asid,
        env_parent_id: parent_id,
        env_status: EnvStatus::NotRunnable,
        env_tf: Trapframe {
            cp0_status: STATUS_INITIAL,
            ..with_reg(e.env_tf, REG_SP as int, (USTACKTOP - 8) as usize)
        },
        ..e
    }
}

/// Memory after the directory of a new environment has been set up in the
/// frame at the head of the free list: the frame is zeroed and gets one
/// reference, takes the two entries of the base directory that cover the
/// windows onto the environment table and the frame metadata, and maps
/// itself, read-only, as the window onto its own page tables.
pub open spec fn after_setup(s: FrameState, base: PhysPageNum) -> FrameState {
    let p = s.free[0] as int;
    let s1 = s.after_alloc().after_incref(p);
    let s2 = s1.after_write(p, UTOP_PDX as int, s1.entry(base.0 as int, UTOP_PDX as int));
    let s3 = s2.after_write(p, UTOP_PDX + 1, s2.entry(base.0 as int, UTOP_PDX + 1));
    s3.after_write(p, UVPT_PDX as int, Pte::spec_from_ppn(PhysPageNum(p as usize), PTE_V))
}

/// The least identifier that is not in use, if there is one below 256.
pub open spec fn lowest_free_asid(asids: Set<int>, a: int) -> bool {
    &&& 0 <= a < NASID
    &&& !asids.contains(a)
    &&& forall|b: int| 0 <= b < a ==> asids.contains(b)
}

/// Whether all 256 identifiers are in use.
pub open spec fn asids_exhausted(asids: Set<int>) -> bool {
    forall|b: int| 0 <= b < NASID ==> asids.contains(b)
}

/// The table before `init`: no slot at all, nothing running, no identifier
/// in use, every counter and register zero.
pub open spec fn unset_env_state() -> EnvState {
    EnvState {
        envs: Seq::empty(),
        base_pgdir: PhysPageNum(0),
        free: Seq::empty(),
        sched: Seq::empty(),
        cur: None,
        asids: Set::empty(),
        alloced: 0,
        count: 0,
        tf: zero_trapframe(),
    }
}

/// A bitmap of zero words marks no identifier.
pub proof fn lemma_zero_bitmap(bitmap: Seq<usize>, a: int)
    requires
        bitmap.len() == ASID_WORDS,
        forall|i: int| 0 <= i < ASID_WORDS ==> bitmap[i] == 0,
        0 <= a < NASID,
    ensures
        !asid_bit(bitmap, a),
{
    lemma_asid_index(a as usize);
    let sh = (a % 32) as usize;
    assert(0usize & (1usize << sh) == 0) by (bit_vector);
}

/// The table right after `init`: every slot fresh and free, lowest first, no
/// environment running or runnable, no identifier in use.
pub open spec fn boot_env_state(base: PhysPageNum) -> EnvState {
    EnvState {
        envs: Seq::new(NENV as nat, |i: int| fresh_env()),
        base_pgdir: base,
        free: Seq::new(NENV as nat, |i: int| i as usize),
        sched: Seq::empty(),
        cur: None,
        asids: Set::empty(),
        alloced: 0,
        count: 0,
        tf: zero_trapframe(),
    }
}

/// The slot on which an allocation works: the head of the free list.
pub open spec fn alloc_slot(s: EnvState) -> int {
    s.free[0] as int
}

/// Whether an allocation succeeds: a slot, a frame for the directory and an
/// address-space identifier are free.
pub open spec fn alloc_succeeds(s: EnvState, f: FrameState) -> bool {
    s.free.len() > 0 && f.free.len() > 0 && !asids_exhausted(s.asids)
}

/// The error of an allocation that does not succeed: `NoFreeEnv` where no
/// slot is free, else `NoMem` where no frame is free, else `NoFreeEnv` for
/// want of an identifier.
pub open spec fn alloc_error(s: EnvState, f: FrameState) -> Error {
    if s.free.len() > 0 && f.free.len() == 0 {
        Error::NoMem
    } else {
        Error::NoFreeEnv
    }
}

/// The table after a successful allocation with identifier `asid`.
pub open spec fn after_env_alloc(s: EnvState, pgdir: PhysPageNum, asid: ASID, parent_id: EnvID) -> EnvState {
    let ind = alloc_slot(s);
    EnvState {
        envs: s.envs.update(
            ind,
            allocated_env(
                Env { env_pgdir: Some(pgdir), ..s.envs[ind] },
                spec_mkenvid((s.alloced + 1) as usize, ind as usize),
                asid,
                parent_id,
            ),
        ),
        free: s.free.drop_first(),
        asids: s.asids.insert(asid.0 as int),
        alloced: (s.alloced + 1) as usize,
        ..s
    }
}

/// The schedule list without slot `ind`, if `ind` is runnable.
pub open spec fn sched_without(s: EnvState, ind: int) -> Seq<usize> {
    if s.envs[ind].env_status == EnvStatus::Runnable {
        s.sched.remove(s.sched.index_of(ind as usize))
    } else {
        s.sched
    }
}

/// The table after slot `ind` has been freed: the slot is free and heads the
/// free list, is off the schedule list, and its identifier is free.
pub open spec fn after_env_free(s: EnvState, ind: int) -> EnvState {
    EnvState {
        envs: s.envs.update(ind, Env { env_status: EnvStatus::Free, ..s.envs[ind] }),
        free: seq![ind as usize] + s.free,
        sched: sched_without(s, ind),
        asids: s.asids.remove(s.envs[ind].env_asid.0 as int),
        ..s
    }
}

/// The table after slot `ind` has been given the processor: the trapframe on
/// the kernel stack is saved in the slot that ran before, if any, `ind` is
/// the running slot and has one more run.
pub open spec fn after_run(s: EnvState, ind: int) -> EnvState {
    let envs1 = match s.cur {
        Some(c) => s.envs.update(c as int, Env { env_tf: s.tf, ..s.envs[c as int] }),
        None => s.envs,
    };
    EnvState {
        envs: envs1.update(ind, Env { env_runs: (envs1[ind].env_runs + 1) as usize, ..envs1[ind] }),
        cur: Some(ind as usize),
        ..s
    }
}

/// Whether the scheduler picks anew: on a yield, when the turn is used up,
/// and when no runnable environment is running.
pub open spec fn sched_switches(s: EnvState, y: i32) -> bool {
    ||| y != 0
    ||| s.count - 1 == 0
    ||| s.cur.is_none()
    ||| s.envs[s.cur.unwrap() as int].env_status != EnvStatus::Runnable
}

/// The schedule list when the scheduler picks anew: the running slot, if it
/// is runnable, has moved to the tail.
pub open spec fn sched_rotated(s: EnvState) -> Seq<usize> {
    if s.cur.is_some() && s.envs[s.cur.unwrap() as int].env_status == EnvStatus::Runnable {
        s.sched.remove(s.sched.index_of(s.cur.unwrap())).push(s.cur.unwrap())
    } else {
        s.sched
    }
}

/// The slot that runs next.
pub open spec fn sched_next(s: EnvState, y: i32) -> usize {
    if sched_switches(s, y) {
        sched_rotated(s)[0]
    } else {
        s.cur.unwrap()
    }
}

/// The table after the scheduler has decided, before the switch itself: one
/// time slice is used; on a new pick the list is rotated and the turn is as
/// long as the priority of the slot picked.
pub open spec fn after_sched_pick(s: EnvState, y: i32) -> EnvState {
    if sched_switches(s, y) {
        EnvState {
            sched: sched_rotated(s),
            count: s.envs[sched_next(s, y) as int].env_pri as isize,
            ..s
        }
    } else {
        EnvState { count: (s.count - 1) as isize, ..s }
    }
}

/// What `env_sched` needs: a time slice can be counted, there is a runnable
/// environment when a new one is picked, its priority fits the counter, and
/// its run counter can grow.
pub open spec fn sched_ok(s: EnvState, y: i32) -> bool {
    &&& s.count > isize::MIN
    &&& sched_switches(s, y) ==> s.sched.len() > 0 && s.envs[sched_next(s, y) as int].env_pri
        <= isize::MAX
    &&& s.envs[sched_next(s, y) as int].env_runs < usize::MAX
}

/// The least address-space identifier that is not in use.
pub open spec fn the_free_asid(asids: Set<int>) -> int {
    choose|a: int| lowest_free_asid(asids, a)
}

/// There is one least free identifier at most.
pub proof fn lemma_lowest_free_asid_unique(asids: Set<int>, a: int)
    requires
        lowest_free_asid(asids, a),
    ensures
        a == the_free_asid(asids),
        !asids_exhausted(asids),
{
    let b = the_free_asid(asids);
    assert(lowest_free_asid(asids, b));
    if a < b {
        assert(asids.contains(a));
    }
    if b < a {
        assert(asids.contains(b));
    }
}

/// The environment that `create` makes in the slot at the head of the free
/// list, before its program is loaded: allocated without a parent, with the
/// priority asked for, runnable.
pub open spec fn created_env(s: EnvState, pgdir: PhysPageNum, priority: usize) -> Env {
    let a = after_env_alloc(s, pgdir, ASID(the_free_asid(s.asids) as usize), EnvID(0));
    Env { env_pri: priority, env_status: EnvStatus::Runnable, ..a.envs[alloc_slot(s)] }
}

/// What `create` needs: a free slot, a free frame for the directory, a free
/// identifier, and a program image that loads.
pub open spec fn create_ok(s: EnvState, m: MapState, binary: Seq<u8>, size: usize, priority: usize) -> bool {
    &&& s.free.len() > 0
    &&& m.frames.free.len() > 0
    &&& !asids_exhausted(s.asids)
    &&& s.alloced < usize::MAX
    &&& s.base_pgdir.0 < m.frames.nframes()
    &&& load_icode_ok(
        MapState { frames: after_setup(m.frames, s.base_pgdir), tlb: m.tlb },
        created_env(s, PhysPageNum(m.frames.free[0]), priority),
        binary,
        size,
    )
}

/// The table after `create`: the new environment resumes at the entry point
/// of its program and heads the schedule list.
pub open spec fn after_create(s: EnvState, pgdir: PhysPageNum, binary: Seq<u8>, priority: usize) -> EnvState {
    let a = after_env_alloc(s, pgdir, ASID(the_free_asid(s.asids) as usize), EnvID(0));
    let ind = alloc_slot(s);
    let e = created_env(s, pgdir, priority);
    EnvState {
        envs: a.envs.update(
            ind,
            Env { env_tf: Trapframe { cp0_epc: image_header(binary).e_entry as usize, ..e.env_tf }, ..e },
        ),
        sched: seq![ind as usize] + a.sched,
        ..a
    }
}

/// The table after the status of slot `ind`, which is in use, has been set
/// to `status`: a runnable slot leaves the schedule list, and a slot that
/// becomes runnable joins its tail.
pub open spec fn after_set_status(s: EnvState, ind: int, status: EnvStatus) -> EnvState {
    let without = sched_without(s, ind);
    EnvState {
        envs: s.envs.update(ind, Env { env_status: status, ..s.envs[ind] }),
        sched: if status == EnvStatus::Runnable {
            without.push(ind as usize)
        } else {
            without
        },
        ..s
    }
}

/// Setting the status of a slot in use to another status of use keeps the
/// table well formed.
pub proof fn lemma_set_status_wf(s: EnvState, ind: int, status: EnvStatus)
    requires
        s.wf(),
        s.live(ind),
        status != EnvStatus::Free,
    ensures
        after_set_status(s, ind, status).wf(),
{
    let r = after_set_status(s, ind, status);
    let w = sched_without(s, ind);
    lemma_sched_without(s, ind);
    assert forall|e: int| r.live(e) == s.live(e) by {}
    assert(r.asids_wf());
    assert(r.sched.no_duplicates()) by {
        assert forall|i: int, j: int| 0 <= i < r.sched.len() && 0 <= j < r.sched.len() && i != j implies r.sched[i]
            != r.sched[j] by {
            if i < w.len() {
                assert(w.contains(w[i]));
            }
            if j < w.len() {
                assert(w.contains(w[j]));
            }
        }
    }
    assert forall|i: int| 0 <= i < r.sched.len() implies #[trigger] r.sched[i] < NENV by {
        if i < w.len() {
            assert(r.sched[i] == w[i]);
        }
    }
    assert forall|e: int| 0 <= e < NENV implies (r.sched.contains(e as usize) <==> (#[trigger] r.envs[e]).env_status
        == EnvStatus::Runnable) by {
        assert(s.envs[e].env_status == EnvStatus::Runnable <==> s.sched.contains(e as usize));
        if r.sched.contains(e as usize) {
            let i = choose|i: int| 0 <= i < r.sched.len() && r.sched[i] == e as usize;
            if i < w.len() {
                assert(w.contains(e as usize));
            }
        }
        if e != ind && s.sched.contains(e as usize) {
            assert(w.contains(e as usize));
            let i = choose|i: int| 0 <= i < w.len() && w[i] == e as usize;
            assert(r.sched[i] == e as usize);
        }
        if e == ind && status == EnvStatus::Runnable {
            assert(r.sched[w.len() as int] == ind as usize);
        }
    }
    assert forall|e: int| 0 <= e < NENV implies (r.free.contains(e as usize) <==> (#[trigger] r.envs[e]).env_status
        == EnvStatus::Free) by {
        assert(s.envs[e].env_status == EnvStatus::Free <==> s.free.contains(e as usize));
    }
}

/// The table after `create` is well formed.
pub proof fn lemma_create_wf(s: EnvState, pgdir: PhysPageNum, binary: Seq<u8>, priority: usize)
    requires
        s.wf(),
        s.free.len() > 0,
        !asids_exhausted(s.asids),
        lowest_free_asid(s.asids, the_free_asid(s.asids)),
    ensures
        after_create(s, pgdir, binary, priority).wf(),
{
    let asid = ASID(the_free_asid(s.asids) as usize);
    let a = after_env_alloc(s, pgdir, asid, EnvID(0));
    lemma_alloc_wf(s, pgdir, asid, EnvID(0));
    let ind = alloc_slot(s);
    assert(s.free[0] < NENV);
    let b = after_set_status(a, ind, EnvStatus::Runnable);
    lemma_set_status_wf(a, ind, EnvStatus::Runnable);
    let r = after_create(s, pgdir, binary, priority);
    assert(!a.sched.contains(ind as usize));
    assert forall|e: int| 0 <= e < NENV implies (#[trigger] r.envs[e]).env_status == b.envs[e].env_status
        && r.envs[e].env_asid == b.envs[e].env_asid by {}
    assert forall|e: int| r.live(e) == b.live(e) by {}
    assert(r.asids_wf()) by {
        assert forall|e: int| #[trigger] r.live(e) implies r.envs[e].env_asid.0 < NASID && r.asids.contains(
            r.envs[e].env_asid.0 as int,
        ) by {
            assert(b.live(e));
        }
        assert forall|e1: int, e2: int| #[trigger] r.live(e1) && #[trigger] r.live(e2) && e1 != e2 implies r.envs[e1].env_asid
            != r.envs[e2].env_asid by {
            assert(b.live(e1) && b.live(e2));
        }
        assert forall|x: int| #[trigger] r.asids.contains(x) implies exists|e: int| #[trigger]
            r.live(e) && r.envs[e].env_asid.0 == x by {
            assert(r.asids == b.asids);
            assert(b.asids.contains(x));
            let e = choose|e: int| #[trigger] b.live(e) && b.envs[e].env_asid.0 == x;
            assert(b.live(e) && b.envs[e].env_asid.0 == x);
            assert(r.live(e));
        }
    }
    assert(r.sched.no_duplicates()) by {
        assert forall|i: int, j: int| 0 <= i < r.sched.len() && 0 <= j < r.sched.len() && i != j implies r.sched[i]
            != r.sched[j] by {
            if i > 0 {
                assert(a.sched.contains(a.sched[i - 1]));
            }
            if j > 0 {
                assert(a.sched.contains(a.sched[j - 1]));
            }
        }
    }
    assert forall|i: int| 0 <= i < r.sched.len() implies #[trigger] r.sched[i] < NENV by {
        if i > 0 {
            assert(r.sched[i] == a.sched[i - 1]);
        }
    }
    assert forall|e: int| 0 <= e < NENV implies (r.sched.contains(e as usize) <==> (#[trigger] r.envs[e]).env_status
        == EnvStatus::Runnable) by {
        assert(a.envs[e].env_status == EnvStatus::Runnable <==> a.sched.contains(e as usize));
        assert(r.sched[0] == ind as usize);
        if r.sched.contains(e as usize) && e != ind {
            let i = choose|i: int| 0 <= i < r.sched.len() && r.sched[i] == e as usize;
            assert(a.sched[i - 1] == e as usize);
        }
        if a.sched.contains(e as usize) {
            let i = choose|i: int| 0 <= i < a.sched.len() && a.sched[i] == e as usize;
            assert(r.sched[i + 1] == e as usize);
        }
    }
    assert forall|e: int| 0 <= e < NENV implies (r.free.contains(e as usize) <==> (#[trigger] r.envs[e]).env_status
        == EnvStatus::Free) by {
        assert(a.envs[e].env_status == EnvStatus::Free <==> a.free.contains(e as usize));
    }
}

/// What the exit path restores to let an environment run: its saved
/// registers, under its address-space identifier.
#[derive(Clone, Copy, Debug)]
pub struct RunTarget {
    pub tf: Trapframe,
    pub asid: usize,
}

/// A state that differs from a well-formed one in no status, no identifier
/// and neither list is well formed.
pub proof fn lemma_wf_same_keys(s: EnvState, r: EnvState)
    requires
        s.wf(),
        r.envs.len() == s.envs.len(),
        forall|e: int|
            0 <= e < NENV ==> (#[trigger] r.envs[e]).env_status == s.envs[e].env_status && r.envs[e].env_asid
                == s.envs[e].env_asid,
        r.free == s.free,
        r.sched == s.sched,
        r.asids == s.asids,
        match r.cur {
            Some(c) => c < NENV,
            None => true,
        },
    ensures
        r.wf(),
{
    assert forall|e: int| r.live(e) == s.live(e) by {
        if 0 <= e < NENV {
            assert(r.envs[e].env_status == s.envs[e].env_status);
        }
    }
    assert forall|e: int| #[trigger] r.live(e) implies r.envs[e].env_asid.0 < NASID && r.asids.contains(
        r.envs[e].env_asid.0 as int,
    ) by {
        assert(s.live(e));
        assert(r.envs[e].env_asid == s.envs[e].env_asid);
    }
    assert forall|e1: int, e2: int| #[trigger] r.live(e1) && #[trigger] r.live(e2) && e1 != e2 implies r.envs[e1].env_asid
        != r.envs[e2].env_asid by {
        assert(s.live(e1) && s.live(e2));
        assert(r.envs[e1].env_asid == s.envs[e1].env_asid);
        assert(r.envs[e2].env_asid == s.envs[e2].env_asid);
    }
    assert forall|a: int| #[trigger] r.asids.contains(a) implies exists|e: int| #[trigger]
        r.live(e) && r.envs[e].env_asid.0 == a by {
        let e = choose|e: int| #[trigger] s.live(e) && s.envs[e].env_asid.0 == a;
        assert(r.live(e));
        assert(r.envs[e].env_asid == s.envs[e].env_asid);
    }
    assert forall|e: int| 0 <= e < NENV implies (r.free.contains(e as usize) <==> (#[trigger] r.envs[e]).env_status
        == EnvStatus::Free) by {
        assert(s.envs[e].env_status == r.envs[e].env_status);
    }
    assert forall|e: int| 0 <= e < NENV implies (r.sched.contains(e as usize) <==> (#[trigger] r.envs[e]).env_status
        == EnvStatus::Runnable) by {
        assert(s.envs[e].env_status == r.envs[e].env_status);
    }
}

/// Giving an environment the processor keeps the table well formed.
pub proof fn lemma_run_wf(s: EnvState, ind: int)
    requires
        s.wf(),
        0 <= ind < NENV,
    ensures
        after_run(s, ind).wf(),
{
    lemma_wf_same_keys(s, after_run(s, ind));
}

/// A successful allocation keeps the table well formed.
pub proof fn lemma_alloc_wf(s: EnvState, pgdir: PhysPageNum, asid: ASID, parent_id: EnvID)
    requires
        s.wf(),
        s.free.len() > 0,
        lowest_free_asid(s.asids, asid.0 as int),
    ensures
        after_env_alloc(s, pgdir, asid, parent_id).wf(),
{
    let r = after_env_alloc(s, pgdir, asid, parent_id);
    let ind = alloc_slot(s);
    assert(s.free[0] < NENV);
    assert(s.free.contains(s.free[0]));
    assert(s.envs[ind].env_status == EnvStatus::Free);
    assert(!s.live(ind));
    assert forall|e: int| r.live(e) == (e == ind || s.live(e)) by {}
    assert forall|i: int| 0 <= i < r.free.len() implies #[trigger] r.free[i] < NENV by {
        assert(r.free[i] == s.free[i + 1]);
    }
    assert forall|e: int| 0 <= e < NENV implies (r.free.contains(e as usize) <==> (#[trigger] r.envs[e]).env_status
        == EnvStatus::Free) by {
        if r.free.contains(e as usize) {
            let i = choose|i: int| 0 <= i < r.free.len() && r.free[i] == e as usize;
            assert(s.free[i + 1] == e as usize);
            assert(s.free.contains(e as usize));
            assert(e != ind);
        }
        if e != ind && s.free.contains(e as usize) {
            let i = choose|i: int| 0 <= i < s.free.len() && s.free[i] == e as usize;
            assert(i > 0);
            assert(r.free[i - 1] == e as usize);
        }
        assert(s.envs[e].env_status == EnvStatus::Free <==> s.free.contains(e as usize));
    }
    assert forall|e: int| 0 <= e < NENV implies (r.sched.contains(e as usize) <==> (#[trigger] r.envs[e]).env_status
        == EnvStatus::Runnable) by {
        assert(s.envs[e].env_status == EnvStatus::Runnable <==> s.sched.contains(e as usize));
    }
    assert forall|e: int| #[trigger] r.live(e) implies r.envs[e].env_asid.0 < NASID && r.asids.contains(
        r.envs[e].env_asid.0 as int,
    ) by {
        if e != ind {
            assert(s.live(e));
        }
    }
    assert forall|e1: int, e2: int| #[trigger] r.live(e1) && #[trigger] r.live(e2) && e1 != e2 implies r.envs[e1].env_asid
        != r.envs[e2].env_asid by {
        if e1 != ind {
            assert(s.live(e1));
        }
        if e2 != ind {
            assert(s.live(e2));
        }
    }
    assert forall|a: int| #[trigger] r.asids.contains(a) implies exists|e: int| #[trigger]
        r.live(e) && r.envs[e].env_asid.0 == a by {
        if a == asid.0 {
            assert(r.live(ind));
        } else {
            let e = choose|e: int| #[trigger] s.live(e) && s.envs[e].env_asid.0 == a;
            assert(r.live(e));
        }
    }
}

/// Freeing a slot that is in use keeps the table well formed.
pub proof fn lemma_free_wf(s: EnvState, ind: int)
    requires
        s.wf(),
        s.live(ind),
    ensures
        after_env_free(s, ind).wf(),
{
    let r = after_env_free(s, ind);
    let a0 = s.envs[ind].env_asid.0 as int;
    assert(!s.free.contains(ind as usize));
    assert forall|e: int| r.live(e) == (e != ind && s.live(e)) by {}
    assert(r.free.no_duplicates()) by {
        assert forall|i: int, j: int| 0 <= i < r.free.len() && 0 <= j < r.free.len() && i != j implies r.free[i]
            != r.free[j] by {
            if i > 0 {
                assert(r.free[i] == s.free[i - 1]);
                assert(s.free.contains(s.free[i - 1]));
            }
            if j > 0 {
                assert(r.free[j] == s.free[j - 1]);
                assert(s.free.contains(s.free[j - 1]));
            }
        }
    }
    assert forall|i: int| 0 <= i < r.free.len() implies #[trigger] r.free[i] < NENV by {
        if i > 0 {
            assert(r.free[i] == s.free[i - 1]);
        }
    }
    assert forall|e: int| 0 <= e < NENV implies (r.free.contains(e as usize) <==> (#[trigger] r.envs[e]).env_status
        == EnvStatus::Free) by {
        assert(r.free[0] == ind as usize);
        if r.free.contains(e as usize) && e != ind {
            let i = choose|i: int| 0 <= i < r.free.len() && r.free[i] == e as usize;
            assert(s.free[i - 1] == e as usize);
            assert(s.free.contains(e as usize));
        }
        if e != ind && s.free.contains(e as usize) {
            let i = choose|i: int| 0 <= i < s.free.len() && s.free[i] == e as usize;
            assert(r.free[i + 1] == e as usize);
        }
        assert(s.envs[e].env_status == EnvStatus::Free <==> s.free.contains(e as usize));
    }
    lemma_sched_without(s, ind);
    assert forall|e: int| 0 <= e < NENV implies (r.sched.contains(e as usize) <==> (#[trigger] r.envs[e]).env_status
        == EnvStatus::Runnable) by {
        assert(s.envs[e].env_status == EnvStatus::Runnable <==> s.sched.contains(e as usize));
    }
    assert forall|e: int| #[trigger] r.live(e) implies r.envs[e].env_asid.0 < NASID && r.asids.contains(
        r.envs[e].env_asid.0 as int,
    ) by {
        assert(s.live(e) && s.live(ind));
    }
    assert forall|e1: int, e2: int| #[trigger] r.live(e1) && #[trigger] r.live(e2) && e1 != e2 implies r.envs[e1].env_asid
        != r.envs[e2].env_asid by {
        assert(s.live(e1) && s.live(e2));
    }
    assert forall|a: int| #[trigger] r.asids.contains(a) implies exists|e: int| #[trigger]
        r.live(e) && r.envs[e].env_asid.0 == a by {
        let e = choose|e: int| #[trigger] s.live(e) && s.envs[e].env_asid.0 == a;
        assert(e != ind);
        assert(r.live(e));
    }
}

/// The schedule list without one slot holds the other slots it held, each once.
pub proof fn lemma_sched_without(s: EnvState, ind: int)
    requires
        s.wf(),
        0 <= ind < NENV,
    ensures
        sched_without(s, ind).no_duplicates(),
        forall|i: int| 0 <= i < sched_without(s, ind).len() ==> #[trigger] sched_without(s, ind)[i] < NENV,
        forall|e: usize| sched_without(s, ind).contains(e) <==> (e != ind && s.sched.contains(e)),
{
    let t = sched_without(s, ind);
    if s.envs[ind].env_status == EnvStatus::Runnable {
        assert(s.sched.contains(ind as usize));
        lemma_seq_remove(s.sched, ind as usize);
        assert forall|i: int| 0 <= i < t.len() implies #[trigger] t[i] < NENV by {
            assert(t.contains(t[i]));
            assert(s.sched.contains(t[i]));
            let j = choose|j: int| 0 <= j < s.sched.len() && s.sched[j] == t[i];
            assert(s.sched[j] < NENV);
        }
    } else {
        assert(!s.sched.contains(ind as usize));
    }
}

/// A sequence without repeats, less one of its members, holds the others, each once.
pub proof fn lemma_seq_remove(q: Seq<usize>, x: usize)
    requires
        q.no_duplicates(),
        q.contains(x),
    ensures
        q.remove(q.index_of(x)).no_duplicates(),
        q.remove(q.index_of(x)).len() == q.len() - 1,
        forall|e: usize| q.remove(q.index_of(x)).contains(e) <==> (e != x && q.contains(e)),
{
    q.index_of_first_ensures(x);
    let k = q.index_of(x);
    let t = q.remove(k);
    assert forall|i: int, j: int| 0 <= i < t.len() && 0 <= j < t.len() && i != j implies t[i] != t[j] by {
        let si = if i < k { i } else { i + 1 };
        let sj = if j < k { j } else { j + 1 };
        assert(t[i] == q[si]);
        assert(t[j] == q[sj]);
    }
    assert forall|e: usize| t.contains(e) <==> (e != x && q.contains(e)) by {
        if t.contains(e) {
            let i = choose|i: int| 0 <= i < t.len() && t[i] == e;
            let si = if i < k { i } else { i + 1 };
            assert(q[si] == e);
        }
        if e != x && q.contains(e) {
            let i = choose|i: int| 0 <= i < q.len() && q[i] == e;
            if i < k {
                assert(t[i] == e);
            } else {
                assert(t[i - 1] == e);
            }
        }
    }
}

/// The rotated schedule list holds the slots the list held, each once.
pub proof fn lemma_sched_rotated(s: EnvState)
    requires
        s.wf(),
    ensures
        sched_rotated(s).no_duplicates(),
        sched_rotated(s).len() == s.sched.len(),
        forall|e: usize| sched_rotated(s).contains(e) <==> s.sched.contains(e),
{
    let t = sched_rotated(s);
    if s.cur.is_some() && s.envs[s.cur.unwrap() as int].env_status == EnvStatus::Runnable {
        let c = s.cur.unwrap();
        assert(s.sched.contains(c));
        lemma_seq_remove(s.sched, c);
        let u = s.sched.remove(s.sched.index_of(c));
        assert(!u.contains(c));
        assert forall|i: int, j: int| 0 <= i < t.len() && 0 <= j < t.len() && i != j implies t[i] != t[j] by {
            if i < u.len() {
                assert(u.contains(u[i]));
            }
            if j < u.len() {
                assert(u.contains(u[j]));
            }
        }
        assert forall|e: usize| t.contains(e) <==> s.sched.contains(e) by {
            if t.contains(e) {
                let i = choose|i: int| 0 <= i < t.len() && t[i] == e;
                if i < u.len() {
                    assert(u.contains(e));
                }
            }
            if s.sched.contains(e) {
                if e == c {
                    assert(t[u.len() as int] == c);
                } else {
                    assert(u.contains(e));
                    let i = choose|i: int| 0 <= i < u.len() && u[i] == e;
                    assert(t[i] == e);
                }
            }
        }
    }
}

/// The head of the schedule list without one slot: the second slot where
/// the slot left out is runnable and heads the list, else the first.
pub proof fn lemma_sched_without_head(s: EnvState, ind: int)
    requires
        s.wf(),
        0 <= ind < NENV,
    ensures
        s.envs[ind].env_status == EnvStatus::Runnable ==> sched_without(s, ind).len() == s.sched.len() - 1,
        s.envs[ind].env_status != EnvStatus::Runnable ==> sched_without(s, ind) == s.sched,
        sched_without(s, ind).len() > 0 ==> sched_without(s, ind)[0] == (if s.envs[ind].env_status
            == EnvStatus::Runnable && s.sched[0] == ind {
            s.sched[1]
        } else {
            s.sched[0]
        }),
{
    if s.envs[ind].env_status == EnvStatus::Runnable {
        assert(s.sched.contains(ind as usize));
        s.sched.index_of_first_ensures(ind as usize);
        let k = s.sched.index_of(ind as usize);
        assert(s.sched[k] == ind as usize);
        if s.sched[0] == ind {
            assert(k == 0);
        }
    }
}

/// The head of the rotated schedule list: the second slot where the running
/// slot is runnable and heads a list of more than one, else the first.
pub proof fn lemma_sched_rotated_head(s: EnvState)
    requires
        s.wf(),
        s.sched.len() > 0,
    ensures
        sched_rotated(s)[0] == (if s.cur.is_some() && s.envs[s.cur.unwrap() as int].env_status
            == EnvStatus::Runnable && s.sched[0] == s.cur.unwrap() && s.sched.len() > 1 {
            s.sched[1]
        } else {
            s.sched[0]
        }),
{
    if s.cur.is_some() && s.envs[s.cur.unwrap() as int].env_status == EnvStatus::Runnable {
        let c = s.cur.unwrap();
        assert(s.sched.contains(c));
        s.sched.index_of_first_ensures(c);
        let k = s.sched.index_of(c);
        assert(s.sched[k] == c);
        if s.sched[0] == c {
            assert(k == 0);
        }
    }
}

/// The scheduler's decision keeps the table well formed, and the slot it
/// picks is runnable.
pub proof fn lemma_sched_pick_wf(s: EnvState, y: i32)
    requires
        s.wf(),
        sched_ok(s, y),
    ensures
        after_sched_pick(s, y).wf(),
        sched_next(s, y) < NENV,
        s.envs[sched_next(s, y) as int].env_status == EnvStatus::Runnable,
{
    let r = after_sched_pick(s, y);
    lemma_sched_rotated(s);
    if sched_switches(s, y) {
        let t = sched_rotated(s);
        assert(t.contains(t[0]));
        assert(s.sched.contains(t[0]));
        let j = choose|j: int| 0 <= j < s.sched.len() && s.sched[j] == t[0];
        assert(s.sched[j] < NENV);
        assert forall|i: int| 0 <= i < t.len() implies #[trigger] t[i] < NENV by {
            assert(t.contains(t[i]));
            assert(s.sched.contains(t[i]));
            let j = choose|j: int| 0 <= j < s.sched.len() && s.sched[j] == t[i];
            assert(s.sched[j] < NENV);
        }
        assert forall|e: int| 0 <= e < NENV implies (r.sched.contains(e as usize) <==> (#[trigger] r.envs[e]).env_status
            == EnvStatus::Runnable) by {
            assert(s.envs[e].env_status == EnvStatus::Runnable <==> s.sched.contains(e as usize));
        }
        assert forall|e: int| r.live(e) == s.live(e) by {}
        assert(r.asids_wf());
    } else {
        lemma_wf_same_keys(s, r);
    }
}

impl View for EnvManager {
    type V = EnvState;

    closed spec fn view(&self) -> EnvState {
        EnvState {
            envs: self.envs@,
            base_pgdir: self.base_pgdir,
            free: self.env_free_list@,
            sched: self.env_sched_list@,
            cur: self.cur_env_ind,
            asids: Set::new(|a: int| 0 <= a < NASID && asid_bit(self.asid_bitmap@, a)),
            alloced: self.alloced_env,
            count: self.count,
            tf: self.trap_tf,
        }
    }
}

/// Setting or clearing one bit of a word leaves the other bits alone.
pub proof fn lemma_bit_ops(w: usize, i: usize, j: usize)
    requires
        i < 32,
        j < 32,
    ensures
        ((w | (1usize << i)) & (1usize << j) != 0) == (i == j || (w & (1usize << j) != 0)),
        ((w & !(1usize << i)) & (1usize << j) != 0) == (i != j && (w & (1usize << j) != 0)),
{
    assert(((w | (1usize << i)) & (1usize << j) != 0) == (i == j || (w & (1usize << j) != 0)))
        by (bit_vector)
        requires
            i < 32,
            j < 32,
    ;
    assert(((w & !(1usize << i)) & (1usize << j) != 0) == (i != j && (w & (1usize << j) != 0)))
        by (bit_vector)
        requires
            i < 32,
            j < 32,
    ;
}

/// The word and the bit of identifier `i` in the bitmap.
pub proof fn lemma_asid_index(i: usize)
    requires
        i < NASID,
    ensures
        i >> 5 == i / 32,
        i & 31 == i % 32,
        i / 32 < ASID_WORDS,
{
    assert(i >> 5 == i / 32 && i & 31 == i % 32) by (bit_vector);
}

impl EnvManager {
    /// The two lists are sound and the table has its 1024 slots.
    pub closed spec fn inv(&self) -> bool {
        &&& self.envs@.len() == NENV
        &&& self.env_free_list.wf()
        &&& self.env_free_list.spec_n() == NENV
        &&& self.env_sched_list.wf()
        &&& self.env_sched_list.spec_n() == NENV
    }

    /// The manager is initialised and its state is well formed.
    pub open spec fn wf(&self) -> bool {
        &&& self.inv()
        &&& self@.wf()
    }

    /// A manager before `init`.
    pub closed spec fn is_unset(&self) -> bool {
        &&& self.envs@.len() == 0
        &&& self.env_free_list.is_unset()
        &&& self.env_sched_list.is_unset()
        &&& self.cur_env_ind.is_none()
        &&& self.alloced_env == 0
        &&& self.count == 0
        &&& forall|i: int| 0 <= i < ASID_WORDS ==> self.asid_bitmap@[i] == 0
        &&& self.trap_tf == zero_trapframe()
    }

    /// Creates a manager that `init` has not been called on yet.
    pub fn new() -> (r: Self)
        ensures
            r.is_unset(),
            r@ == unset_env_state(),
    {
        let tf = Trapframe::new();
        proof {
            assert(tf.regs =~= zero_trapframe().regs);
        }
        let r = EnvManager {
            envs: Vec::new(),
            base_pgdir: PhysPageNum::new(0),
            env_free_list: IndexLink::new(),
            env_sched_list: IndexLink::new(),
            cur_env_ind: None,
            asid_bitmap: [0; ASID_WORDS],
            alloced_env: 0,
            count: 0,
            trap_tf: tf,
        };
        proof {
            assert(r@.asids =~= Set::<int>::empty()) by {
                assert forall|a: int| !r@.asids.contains(a) by {
                    if 0 <= a < NASID {
                        lemma_zero_bitmap(r.asid_bitmap@, a);
                    }
                }
            }
            assert(r@.envs =~= Seq::<Env>::empty());
        }
        r
    }

    /// Takes the least identifier that is not in use; `NoFreeEnv` when all
    /// 256 are in use.
    pub fn asid_alloc(&mut self) -> (r: Result<ASID, Error>)
        ensures
            old(self).inv() ==> final(self).inv(),
            match r {
                Ok(a) => lowest_free_asid(old(self)@.asids, a.0 as int) && final(self)@ == (EnvState {
                    asids: old(self)@.asids.insert(a.0 as int),
                    ..old(self)@
                }),
                Err(e) => e == Error::NoFreeEnv && asids_exhausted(old(self)@.asids) && final(self)@
                    == old(self)@,
            },
    {
        let mut i: usize = 0;
        while i < NASID
            invariant
                i <= NASID,
                *self == *old(self),
                forall|b: int| 0 <= b < i ==> old(self)@.asids.contains(b),
            decreases NASID - i,
        {
            let index = i >> 5;
            let inner = i & 31;
            proof {
                lemma_asid_index(i);
            }
            if (self.asid_bitmap[index] & (1usize << inner)) == 0 {
                let w = self.asid_bitmap[index];
                self.asid_bitmap[index] = w | (1usize << inner);
                proof {
                    let pre = old(self)@;
                    let post = self@;
                    assert forall|a: int| post.asids.contains(a) == pre.asids.insert(i as int).contains(
                        a,
                    ) by {
                        if 0 <= a < NASID {
                            lemma_asid_index(a as usize);
                            lemma_bit_ops(w, inner, (a % 32) as usize);
                        }
                    }
                    assert(post.asids =~= pre.asids.insert(i as int));
                }
                return Ok(ASID::new(i));
            }
            i += 1;
        }
        Err(Error::NoFreeEnv)
    }

    /// Gives identifier `asid` back.
    pub fn asid_free(&mut self, asid: ASID)
        requires
            asid.0 < NASID,
        ensures
            old(self).inv() ==> final(self).inv(),
            final(self)@ == (EnvState { asids: old(self)@.asids.remove(asid.0 as int), ..old(self)@ }),
    {
        let i = asid.as_usize();
        let index = i >> 5;
        let inner = i & 31;
        proof {
            lemma_asid_index(i);
        }
        let w = self.asid_bitmap[index];
        self.asid_bitmap[index] = w & !(1usize << inner);
        proof {
            let pre = old(self)@;
            let post = self@;
            assert forall|a: int| post.asids.contains(a) == pre.asids.remove(i as int).contains(a) by {
                if 0 <= a < NASID {
                    lemma_asid_index(a as usize);
                    lemma_bit_ops(w, inner, (a % 32) as usize);
                }
            }
            assert(post.asids =~= pre.asids.remove(i as int));
        }
    }

    /// Makes the next identifier for slot `ind`: the number of identifiers
    /// made so far, this one included, above the slot index.
    pub fn mkenvid(&mut self, ind: usize) -> (r: EnvID)
        requires
            old(self)@.alloced < usize::MAX,
        ensures
            old(self).inv() ==> final(self).inv(),
            r == spec_mkenvid((old(self)@.alloced + 1) as usize, ind),
            final(self)@ == (EnvState { alloced: (old(self)@.alloced + 1) as usize, ..old(self)@ }),
    {
        self.alloced_env += 1;
        EnvID::new((self.alloced_env << (1 + LOG2NENV)) | ind)
    }

    /// The slot that `id` names, seen from the running environment.
    pub fn envid2ind(&self, id: EnvID, checkperm: i32) -> (r: Result<usize, Error>)
        requires
            self.wf(),
            self@.cur.is_some(),
        ensures
            r == spec_envid2ind(self@, id, checkperm),
            r.is_ok() ==> r.unwrap() < NENV,
    {
        let cur = match self.cur_env_ind {
            Some(c) => c,
            None => 0,
        };
        if id.0 == 0 {
            return Ok(cur);
        }
        let cur_env_id = self.envs[cur].env_id;
        let e = &self.envs[id.envx()];
        if e.env_status == EnvStatus::Free || e.env_id != id {
            return Err(Error::BadEnv);
        }
        if checkperm != 0 {
            if e.env_id != cur_env_id && e.env_parent_id != cur_env_id {
                return Err(Error::BadEnv);
            }
        }
        Ok(id.envx())
    }

    /// Sets the table up: 1024 fresh slots, all free, lowest first. The two
    /// windows onto the frame metadata and onto the environment table, which
    /// the kernel heap placed at `envs_addr`, are mapped in the base
    /// directory, which the kernel image holds in frame `base_pgdir`.
    pub fn init(
        &mut self,
        fa: &mut FrameAllocator,
        tlb: &mut Tlb,
        base_pgdir: PhysPageNum,
        envs_addr: VirtAddr,
    )
        requires
            old(self).is_unset(),
            old(fa).wf(),
            init_ok(MapState { frames: old(fa)@, tlb: old(tlb)@ }, base_pgdir, envs_addr),
        ensures
            final(self).wf(),
            final(fa).wf(),
            final(self)@ == boot_env_state(base_pgdir),
            (MapState { frames: final(fa)@, tlb: final(tlb)@ }) == after_init(
                MapState { frames: old(fa)@, tlb: old(tlb)@ },
                base_pgdir,
                envs_addr,
            ),
    {
        let mut envs: Vec<Env> = Vec::new();
        let mut k: usize = 0;
        while k < NENV
            invariant
                k <= NENV,
                envs@.len() == k,
                forall|j: int| 0 <= j < k ==> envs@[j] == fresh_env(),
            decreases NENV - k,
        {
            envs.push(Env::new());
            k += 1;
        }
        self.envs = envs;
        self.base_pgdir = base_pgdir;
        self.env_free_list.init(NENV);
        self.env_sched_list.init(NENV);
        let mut i: usize = NENV;
        while i > 0
            invariant
                i <= NENV,
                self.envs@.len() == NENV,
                forall|j: int| 0 <= j < NENV ==> self.envs@[j] == fresh_env(),
                self.env_free_list.wf(),
                self.env_free_list.spec_n() == NENV,
                self.env_sched_list.wf(),
                self.env_sched_list.spec_n() == NENV,
                self.env_sched_list@ == Seq::<usize>::empty(),
                self.env_free_list@ == Seq::new((NENV - i) as nat, |j: int| (i + j) as usize),
                self.base_pgdir == base_pgdir,
                self.cur_env_ind.is_none(),
                self.alloced_env == 0,
                self.count == 0,
                forall|j: int| 0 <= j < ASID_WORDS ==> self.asid_bitmap@[j] == 0,
                self.trap_tf == zero_trapframe(),
            decreases i,
        {
            i -= 1;
            let mut e = self.envs[i];
            e.env_status = EnvStatus::Free;
            self.envs.set(i, e);
            proof {
                let l = self.env_free_list@;
                if l.contains(i) {
                    let j = choose|j: int| 0 <= j < l.len() && l[j] == i;
                    assert(l[j] == i + 1 + j);
                }
            }
            self.env_free_list.insert_head(i);
            proof {
                assert(self.env_free_list@ =~= Seq::new((NENV - i) as nat, |j: int| (i + j) as usize));
            }
        }
        let base_pa = fa.base_phy_addr();
        let base_size = fa.base_size();
        PageTable::map_segment(fa, tlb, base_pgdir, ASID::zero(), base_pa, VirtAddr::new(UPAGES), base_size, PTE_G);
        let envs_size = self.envs_size();
        PageTable::map_segment(
            fa,
            tlb,
            base_pgdir,
            ASID::zero(),
            PhysAddr::from_kva(envs_addr),
            VirtAddr::new(UENVS),
            envs_size,
            PTE_G,
        );
        proof {
            let b = boot_env_state(base_pgdir);
            let v = self@;
            assert(v.envs =~= b.envs);
            assert(v.free =~= b.free);
            assert(v.asids =~= b.asids) by {
                assert forall|a: int| !v.asids.contains(a) by {
                    if 0 <= a < NASID {
                        lemma_zero_bitmap(self.asid_bitmap@, a);
                    }
                }
            }
            assert(v == b);
            lemma_boot_env_wf(base_pgdir);
        }
    }

    /// Gives slot `ind` a page directory in a fresh frame.
    fn setup(&mut self, fa: &mut FrameAllocator, ind: usize) -> (r: Result<(), Error>)
        requires
            old(self).inv(),
            old(fa).wf(),
            ind < NENV,
            old(fa)@.free.len() > 0 ==> old(self)@.base_pgdir.0 < old(fa)@.nframes(),
        ensures
            final(self).inv(),
            final(fa).wf(),
            old(fa)@.free.len() == 0 ==> r == Err::<(), Error>(Error::NoMem) && final(fa)@ == old(fa)@
                && final(self)@ == old(self)@,
            old(fa)@.free.len() > 0 ==> r == Ok::<(), Error>(()) && final(fa)@ == after_setup(
                old(fa)@,
                old(self)@.base_pgdir,
            ) && final(self)@ == (EnvState {
                envs: old(self)@.envs.update(
                    ind as int,
                    Env {
                        env_pgdir: Some(PhysPageNum(old(fa)@.free[0])),
                        ..old(self)@.envs[ind as int]
                    },
                ),
                ..old(self)@
            }),
    {
        let ppn = match fa.allocate() {
            Ok(p) => p,
            Err(e) => {
                return Err(e);
            },
        };
        proof {
            let s = old(fa)@;
            assert(s.free[0] < s.refs.len());
            assert(s.refs[s.free[0] as int] == 0);
            lemma_alloc_not_free(s);
        }
        fa.incref(ppn);
        let mut e = self.envs[ind];
        e.env_pgdir = Some(ppn);
        self.envs.set(ind, e);
        let e0 = fa.read_entry(self.base_pgdir, UTOP_PDX);
        fa.write_entry(ppn, UTOP_PDX, e0);
        let e1 = fa.read_entry(self.base_pgdir, UTOP_PDX + 1);
        fa.write_entry(ppn, UTOP_PDX + 1, e1);
        fa.write_entry(ppn, UVPT_PDX, Pte::new_from_ppn(ppn, PTE_V));
        Ok(())
    }

    /// Allocates an environment with parent `parent_id` in the slot at the
    /// head of the free list: a directory, the next identifier number and the
    /// least free address-space identifier. The new environment is not
    /// runnable.
    pub fn allocate(&mut self, fa: &mut FrameAllocator, parent_id: EnvID) -> (r: Result<EnvID, Error>)
        requires
            old(self).wf(),
            old(fa).wf(),
            alloc_succeeds(old(self)@, old(fa)@) ==> old(self)@.base_pgdir.0 < old(fa)@.nframes() && old(
                self,
            )@.alloced < usize::MAX,
        ensures
            final(self).wf(),
            final(fa).wf(),
            r.is_ok() == alloc_succeeds(old(self)@, old(fa)@),
            !alloc_succeeds(old(self)@, old(fa)@) ==> r == Err::<EnvID, Error>(
                alloc_error(old(self)@, old(fa)@),
            ) && final(self)@ == old(self)@ && final(fa)@ == old(fa)@,
            alloc_succeeds(old(self)@, old(fa)@) ==> final(fa)@ == after_setup(
                old(fa)@,
                old(self)@.base_pgdir,
            ) && r == Ok::<EnvID, Error>(
                spec_mkenvid((old(self)@.alloced + 1) as usize, old(self)@.free[0]),
            ) && lowest_free_asid(
                old(self)@.asids,
                final(self)@.envs[alloc_slot(old(self)@)].env_asid.0 as int,
            ) && final(self)@ == after_env_alloc(
                old(self)@,
                PhysPageNum(old(fa)@.free[0]),
                final(self)@.envs[alloc_slot(old(self)@)].env_asid,
                parent_id,
            ),
    {
        if self.env_free_list.is_empty() {
            return Err(Error::NoFreeEnv);
        }
        let ind = match self.env_free_list.first() {
            Some(i) => i,
            None => 0,
        };
        proof {
            assert(self@.free[0] < NENV);
        }
        if fa.num_free() == 0 {
            return Err(Error::NoMem);
        }
        let asid = match self.asid_alloc() {
            Ok(a) => a,
            Err(e) => {
                return Err(e);
            },
        };
        match self.setup(fa, ind) {
            Ok(()) => {},
            Err(e) => {
                return Err(e);
            },
        }
        let envid = self.mkenvid(ind);
        let mut e = self.envs[ind];
        e.env_user_tlb_mod_entry = 0;
        e.env_runs = 0;
        e.env_id = envid;
        e.env_asid = asid;
        e.env_parent_id = parent_id;
        e.env_status = EnvStatus::NotRunnable;
        e.env_tf.cp0_status = STATUS_INITIAL;
        e.env_tf.regs[REG_SP] = USTACKTOP - 4 - 4;
        self.envs.set(ind, e);
        proof {
            assert(self.env_free_list@.contains(self.env_free_list@[0]));
        }
        self.env_free_list.remove(ind);
        proof {
            let s = old(self)@;
            let r = self@;
            let want = after_env_alloc(s, PhysPageNum(old(fa)@.free[0]), asid, parent_id);
            s.free.index_of_first_ensures(s.free[0]);
            assert(s.free.index_of(s.free[0]) == 0);
            assert(s.free.remove(0) =~= s.free.drop_first());
            let we = want.envs[ind as int];
            assert(e.env_tf.regs =~= we.env_tf.regs);
            assert(e.env_tf == we.env_tf);
            assert(e == we);
            assert(r.envs =~= want.envs);
            assert(r == want);
            assert(!asids_exhausted(s.asids));
            lemma_alloc_wf(s, PhysPageNum(old(fa)@.free[0]), asid, parent_id);
        }
        Ok(envid)
    }

    /// Frees the environment in slot `ind`: tears its address space down,
    /// gives its directory and its identifier back, and puts the slot at the
    /// head of the free list and off the schedule list.
    pub fn free(&mut self, fa: &mut FrameAllocator, tlb: &mut Tlb, ind: usize)
        requires
            old(self).wf(),
            old(fa).wf(),
            ind < NENV,
            old(self)@.envs[ind as int].env_status != EnvStatus::Free,
            match old(self)@.envs[ind as int].env_pgdir {
                Some(d) => free_space_ok(
                    MapState { frames: old(fa)@, tlb: old(tlb)@ },
                    d,
                    old(self)@.envs[ind as int].env_asid,
                ),
                None => true,
            },
        ensures
            final(self).wf(),
            final(fa).wf(),
            final(self)@ == after_env_free(old(self)@, ind as int),
            (MapState { frames: final(fa)@, tlb: final(tlb)@ }) == after_free_memory(
                MapState { frames: old(fa)@, tlb: old(tlb)@ },
                old(self)@.envs[ind as int],
            ),
    {
        let env = self.envs[ind];
        let asid = env.env_asid;
        proof {
            assert(self@.live(ind as int));
        }
        match env.env_pgdir {
            Some(pgdir) => {
                free_user_tables(fa, tlb, pgdir, asid);
                fa.decref(pgdir);
            },
            None => {},
        }
        let was_runnable = env.env_status == EnvStatus::Runnable;
        let mut e = env;
        e.env_status = EnvStatus::Free;
        self.envs.set(ind, e);
        self.asid_free(asid);
        proof {
            assert((UVPT_PDX << 12) == UVPT_PDX * 4096) by (bit_vector);
        }
        tlb_invalidate(tlb, asid, VirtAddr::new(UVPT + (UVPT_PDX << PGSHIFT)));
        proof {
            let s = old(self)@;
            assert(!s.free.contains(ind));
            if was_runnable {
                assert(s.sched.contains(ind));
            }
        }
        self.env_free_list.insert_head(ind);
        if was_runnable {
            self.env_sched_list.remove(ind);
        }
        proof {
            let s = old(self)@;
            let r = self@;
            let want = after_env_free(s, ind as int);
            assert(r.envs =~= want.envs);
            assert(r == want);
            lemma_free_wf(s, ind as int);
        }
    }

    /// Gives the processor to the runnable environment in slot `ind`. The
    /// trapframe on the kernel stack is saved in the slot that ran before.
    /// Returns what the exit path has to restore.
    pub fn run(&mut self, ind: usize) -> (r: RunTarget)
        requires
            old(self).wf(),
            ind < NENV,
            old(self)@.envs[ind as int].env_status == EnvStatus::Runnable,
            old(self)@.envs[ind as int].env_runs < usize::MAX,
        ensures
            final(self).wf(),
            final(self)@ == after_run(old(self)@, ind as int),
            r.tf == final(self)@.envs[ind as int].env_tf,
            r.asid == final(self)@.envs[ind as int].env_asid.0,
    {
        match self.cur_env_ind {
            Some(cur_ind) => {
                let mut c = self.envs[cur_ind];
                c.load_tf(&self.trap_tf);
                self.envs.set(cur_ind, c);
            },
            None => {},
        }
        self.cur_env_ind = Some(ind);
        let mut e = self.envs[ind];
        e.env_runs += 1;
        self.envs.set(ind, e);
        proof {
            let s = old(self)@;
            let want = after_run(s, ind as int);
            assert(self@.envs =~= want.envs);
            assert(self@ == want);
            lemma_run_wf(s, ind as int);
        }
        RunTarget { tf: e.env_tf, asid: e.env_asid.as_usize() }
    }

    /// Counts one time slice and decides which environment runs next, then
    /// gives it the processor. A nonzero `y` gives the rest of the turn up.
    pub fn sched(&mut self, y: i32) -> (r: RunTarget)
        requires
            old(self).wf(),
            sched_ok(old(self)@, y),
        ensures
            final(self).wf(),
            final(self)@ == after_run(after_sched_pick(old(self)@, y), sched_next(old(self)@, y) as int),
            r.tf == final(self)@.envs[sched_next(old(self)@, y) as int].env_tf,
            r.asid == final(self)@.envs[sched_next(old(self)@, y) as int].env_asid.0,
    {
        proof {
            lemma_sched_pick_wf(self@, y);
        }
        self.count -= 1;
        let e = self.cur_env_ind;
        let cur_runnable = match e {
            Some(c) => self.envs[c].env_status == EnvStatus::Runnable,
            None => false,
        };
        let next_run: usize;
        if y != 0 || self.count == 0 || e.is_none() || !cur_runnable {
            match e {
                Some(c) => {
                    if cur_runnable {
                        proof {
                            assert(self@.sched.contains(c));
                        }
                        self.env_sched_list.remove(c);
                        self.env_sched_list.insert_tail(c);
                    }
                },
                None => {},
            }
            next_run = match self.env_sched_list.first() {
                Some(n) => n,
                None => 0,
            };
            proof {
                lemma_sched_rotated(old(self)@);
                assert(self.env_sched_list@ == sched_rotated(old(self)@));
            }
            self.count = self.envs[next_run].env_pri as isize;
        } else {
            next_run = match e {
                Some(c) => c,
                None => 0,
            };
        }
        proof {
            assert(self@ == after_sched_pick(old(self)@, y));
        }
        self.run(next_run)
    }

    /// Creates a runnable environment without a parent from the program
    /// image `binary`, of which `size` bytes are meant, with the priority
    /// given, and puts it at the head of the schedule list.
    pub fn create(
        &mut self,
        fa: &mut FrameAllocator,
        tlb: &mut Tlb,
        binary: &Vec<u8>,
        size: usize,
        priority: usize,
    ) -> (r: EnvID)
        requires
            old(self).wf(),
            old(fa).wf(),
            create_ok(old(self)@, MapState { frames: old(fa)@, tlb: old(tlb)@ }, binary@, size, priority),
        ensures
            final(self).wf(),
            final(fa).wf(),
            r == spec_mkenvid((old(self)@.alloced + 1) as usize, old(self)@.free[0]),
            final(self)@ == after_create(old(self)@, PhysPageNum(old(fa)@.free[0]), binary@, priority),
            (MapState { frames: final(fa)@, tlb: final(tlb)@ }) == load_segments(
                MapState { frames: after_setup(old(fa)@, old(self)@.base_pgdir), tlb: old(tlb)@ },
                created_env(old(self)@, PhysPageNum(old(fa)@.free[0]), priority),
                binary@,
                image_header(binary@),
                image_header(binary@).e_phnum as nat,
            ),
    {
        let ghost s = self@;
        let ghost pgdir = PhysPageNum(fa@.free[0]);
        let envid = match self.allocate(fa, EnvID::zero()) {
            Ok(id) => id,
            Err(_) => EnvID::zero(),
        };
        proof {
            assert(s.free[0] < NENV);
            lemma_mkenvid_envx((s.alloced + 1) as usize, s.free[0]);
            lemma_lowest_free_asid_unique(s.asids, self@.envs[alloc_slot(s)].env_asid.0 as int);
        }
        let ind = envid.envx();
        let mut env = self.envs[ind];
        env.env_pri = priority;
        env.env_status = EnvStatus::Runnable;
        let entry = load_icode(fa, tlb, &env, binary, size);
        env.env_tf.cp0_epc = entry;
        self.envs.set(ind, env);
        proof {
            let a = after_env_alloc(s, pgdir, ASID(the_free_asid(s.asids) as usize), EnvID(0));
            assert(!a.sched.contains(ind));
        }
        self.env_sched_list.insert_head(ind);
        proof {
            let want = after_create(s, pgdir, binary@, priority);
            assert(self@.envs =~= want.envs);
            assert(self@ == want);
            lemma_create_wf(s, pgdir, binary@, priority);
        }
        envid
    }

    /// Replaces the environment in slot `ind` by `e`, which has the status
    /// and the address-space identifier that the slot has.
    pub fn put_env(&mut self, ind: usize, e: Env)
        requires
            old(self).wf(),
            ind < NENV,
            e.env_status == old(self)@.envs[ind as int].env_status,
            e.env_asid == old(self)@.envs[ind as int].env_asid,
        ensures
            final(self).wf(),
            final(self)@ == (EnvState { envs: old(self)@.envs.update(ind as int, e), ..old(self)@ }),
    {
        self.envs.set(ind, e);
        proof {
            lemma_wf_same_keys(old(self)@, self@);
        }
    }

    /// Sets the status of slot `ind`, which is in use, to `status`, and keeps
    /// the schedule list in step: a runnable slot leaves it, a slot that
    /// becomes runnable joins its tail.
    pub fn set_status(&mut self, ind: usize, status: EnvStatus)
        requires
            old(self).wf(),
            ind < NENV,
            old(self)@.envs[ind as int].env_status != EnvStatus::Free,
            status != EnvStatus::Free,
        ensures
            final(self).wf(),
            final(self)@ == after_set_status(old(self)@, ind as int, status),
    {
        let mut e = self.envs[ind];
        let prev = e.env_status;
        e.env_status = status;
        self.envs.set(ind, e);
        proof {
            lemma_sched_without(old(self)@, ind as int);
            if prev == EnvStatus::Runnable {
                assert(old(self)@.sched.contains(ind));
            }
        }
        if prev == EnvStatus::Runnable {
            self.env_sched_list.remove(ind);
        }
        if status == EnvStatus::Runnable {
            self.env_sched_list.insert_tail(ind);
        }
        proof {
            assert(old(self)@.live(ind as int));
            lemma_set_status_wf(old(self)@, ind as int, status);
        }
    }

    /// The trapframe that the trap entry saved on the kernel stack.
    pub fn trap_tf(&self) -> (r: Trapframe)
        ensures
            r == self@.tf,
    {
        self.trap_tf
    }

    /// Replaces the trapframe on the kernel stack.
    pub fn set_trap_tf(&mut self, tf: Trapframe)
        requires
            old(self).wf(),
        ensures
            final(self).wf(),
            final(self)@ == (EnvState { tf, ..old(self)@ }),
    {
        self.trap_tf = tf;
        proof {
            lemma_wf_same_keys(old(self)@, self@);
        }
    }

    /// Notes that no environment is running.
    pub fn clear_cur(&mut self)
        requires
            old(self).wf(),
        ensures
            final(self).wf(),
            final(self)@ == (EnvState { cur: None, ..old(self)@ }),
    {
        self.cur_env_ind = None;
        proof {
            lemma_wf_same_keys(old(self)@, self@);
        }
    }

    /// Puts slot `ind` at the tail of the schedule list.
    pub fn push_sched(&mut self, ind: usize)
        requires
            old(self).inv(),
            ind < NENV,
            !old(self)@.sched.contains(ind),
        ensures
            final(self).inv(),
            final(self)@ == (EnvState { sched: old(self)@.sched.push(ind), ..old(self)@ }),
    {
        self.env_sched_list.insert_tail(ind);
    }

    /// The runnable slots in the order in which they take their turn.
    pub fn sched_order(&self) -> (r: Vec<usize>)
        requires
            self.inv(),
        ensures
            r@ == self@.sched,
    {
        self.env_sched_list.to_vec()
    }

    /// The free slots; the first is the next to be allocated.
    pub fn free_order(&self) -> (r: Vec<usize>)
        requires
            self.inv(),
        ensures
            r@ == self@.free,
    {
        self.env_free_list.to_vec()
    }

    /// The frame of the directory whose kernel part every environment shares.
    pub fn base_pgdir(&self) -> (r: PhysPageNum)
        ensures
            r == self@.base_pgdir,
    {
        self.base_pgdir
    }

    /// How many identifiers have been made.
    pub fn alloced(&self) -> (r: usize)
        ensures
            r == self@.alloced,
    {
        self.alloced_env
    }

    /// Whether an address-space identifier is free.
    pub fn asid_available(&self) -> (r: bool)
        ensures
            r == !asids_exhausted(self@.asids),
    {
        let mut i: usize = 0;
        while i < NASID
            invariant
                i <= NASID,
                forall|b: int| 0 <= b < i ==> self@.asids.contains(b),
            decreases NASID - i,
        {
            if !self.asid_used(ASID::new(i)) {
                return true;
            }
            i += 1;
        }
        false
    }

    /// Whether `sched` finds what it needs.
    pub fn sched_admissible(&self, y: i32) -> (r: bool)
        requires
            self.wf(),
        ensures
            r == sched_ok(self@, y),
    {
        if self.count == isize::MIN {
            return false;
        }
        let cur_runnable = match self.cur_env_ind {
            Some(c) => self.envs[c].env_status == EnvStatus::Runnable,
            None => false,
        };
        let next: usize;
        if y != 0 || self.count - 1 == 0 || self.cur_env_ind.is_none() || !cur_runnable {
            let order = self.env_sched_list.to_vec();
            if order.len() == 0 {
                return false;
            }
            let cur = match self.cur_env_ind {
                Some(c) => c,
                None => 0,
            };
            proof {
                lemma_sched_rotated_head(self@);
                assert(order@[0] < NENV);
                if order@.len() > 1 {
                    assert(order@[1] < NENV);
                }
            }
            next = if cur_runnable && order[0] == cur && order.len() > 1 {
                order[1]
            } else {
                order[0]
            };
            if self.envs[next].env_pri > isize::MAX as usize {
                return false;
            }
        } else {
            next = match self.cur_env_ind {
                Some(c) => c,
                None => 0,
            };
        }
        self.envs[next].env_runs < usize::MAX
    }

    /// Time slices left in the current turn.
    pub fn count(&self) -> (r: isize)
        ensures
            r == self@.count,
    {
        self.count
    }

    /// Whether the address-space identifier `asid` is in use.
    pub fn asid_used(&self, asid: ASID) -> (r: bool)
        requires
            asid.0 < NASID,
        ensures
            r == self@.asids.contains(asid.0 as int),
    {
        let i = asid.as_usize();
        proof {
            lemma_asid_index(i);
        }
        (self.asid_bitmap[i >> 5] & (1usize << (i & 31))) != 0
    }

    /// How many address-space identifiers are in use.
    pub fn asid_count(&self) -> (r: usize)
        ensures
            self@.asids.finite(),
            r == self@.asids.len(),
    {
        let mut n: usize = 0;
        let mut i: usize = 0;
        proof {
            assert(asids_below(self@.asids, 0) =~= Set::<int>::empty());
        }
        while i < NASID
            invariant
                i <= NASID,
                n <= i,
                asids_below(self@.asids, i as int).finite(),
                n == asids_below(self@.asids, i as int).len(),
            decreases NASID - i,
        {
            let used = self.asid_used(ASID::new(i));
            proof {
                let a = asids_below(self@.asids, i as int);
                let b = asids_below(self@.asids, i + 1);
                if used {
                    assert(b =~= a.insert(i as int));
                } else {
                    assert(b =~= a);
                }
            }
            if used {
                n += 1;
            }
            i += 1;
        }
        proof {
            assert(asids_below(self@.asids, NASID as int) =~= self@.asids);
        }
        n
    }

    /// The environment in slot `ind`.
    pub fn get_env(&self, ind: usize) -> (r: &Env)
        requires
            self.inv(),
            ind < NENV,
        ensures
            *r == self@.envs[ind as int],
    {
        &self.envs[ind]
    }

    /// The slot of the running environment.
    pub fn cur_env_ind(&self) -> (r: Option<usize>)
        ensures
            r == self@.cur,
    {
        self.cur_env_ind
    }

    /// Bytes that the environment table occupies on the target.
    pub fn envs_size(&self) -> (r: usize)
        requires
            self.inv(),
        ensures
            r == NENV * ENV_BYTES,
    {
        self.envs.len() * ENV_BYTES
    }
}

/// Sets the environment table up. See [`EnvManager::init`].
pub fn env_init(
    em: &mut EnvManager,
    fa: &mut FrameAllocator,
    tlb: &mut Tlb,
    base_pgdir: PhysPageNum,
    envs_addr: VirtAddr,
)
    requires
        old(em).is_unset(),
        old(fa).wf(),
        init_ok(MapState { frames: old(fa)@, tlb: old(tlb)@ }, base_pgdir, envs_addr),
    ensures
        final(em).wf(),
        final(fa).wf(),
        final(em)@ == boot_env_state(base_pgdir),
        (MapState { frames: final(fa)@, tlb: final(tlb)@ }) == after_init(
            MapState { frames: old(fa)@, tlb: old(tlb)@ },
            base_pgdir,
            envs_addr,
        ),
{
    em.init(fa, tlb, base_pgdir, envs_addr);
}

/// The slot of the running environment.
pub fn get_cur_env_ind(em: &EnvManager) -> (r: Option<usize>)
    ensures
        r == em@.cur,
{
    em.cur_env_ind()
}

/// The identifier of the running environment.
pub fn get_cur_env_id(em: &EnvManager) -> (r: Option<EnvID>)
    requires
        em.wf(),
    ensures
        r == (match em@.cur {
            Some(ind) => Some(em@.envs[ind as int].env_id),
            None => None,
        }),
{
    match em.cur_env_ind() {
        Some(ind) => Some(em.get_env(ind).env_id),
        None => None,
    }
}

/// The slot that `envid` names, seen from the running environment.
pub fn envid2ind(em: &EnvManager, envid: EnvID, checkperm: i32) -> (r: Result<usize, Error>)
    requires
        em.wf(),
        em@.cur.is_some(),
    ensures
        r == spec_envid2ind(em@, envid, checkperm),
        r.is_ok() ==> r.unwrap() < NENV,
{
    em.envid2ind(envid, checkperm)
}

/// The user address of the write-fault handler of the running environment;
/// zero if it has none.
pub fn user_tlb_mod_entry(em: &EnvManager) -> (r: usize)
    requires
        em.wf(),
        em@.cur.is_some(),
    ensures
        r == em@.envs[em@.cur.unwrap() as int].env_user_tlb_mod_entry,
{
    match em.cur_env_ind() {
        Some(ind) => em.get_env(ind).env_user_tlb_mod_entry,
        None => 0,
    }
}

/// What `env_destroy` needs: what freeing the slot needs, a running
/// environment, and, where the running environment destroys itself, another
/// one to run.
pub open spec fn destroy_ok(s: EnvState, m: MapState, ind: int) -> bool {
    &&& s.envs[ind].env_status != EnvStatus::Free
    &&& match s.envs[ind].env_pgdir {
        Some(d) => free_space_ok(m, d, s.envs[ind].env_asid),
        None => true,
    }
    &&& s.cur.is_some()
    &&& s.cur == Some(ind as usize) ==> sched_ok(EnvState { cur: None, ..after_env_free(s, ind) }, 1)
}

/// The table after `env_destroy`: the slot is freed, and where it was the
/// running one, the scheduler has picked the next.
pub open spec fn after_destroy(s: EnvState, ind: int) -> EnvState {
    if s.cur == Some(ind as usize) {
        let s1 = EnvState { cur: None, ..after_env_free(s, ind) };
        after_run(after_sched_pick(s1, 1), sched_next(s1, 1) as int)
    } else {
        after_env_free(s, ind)
    }
}

/// Destroys the environment in slot `ind`. Where that is the running
/// environment, the scheduler picks another, and what has to be restored for
/// it is returned.
pub fn env_destroy(em: &mut EnvManager, fa: &mut FrameAllocator, tlb: &mut Tlb, ind: usize) -> (r: Option<
    RunTarget,
>)
    requires
        old(em).wf(),
        old(fa).wf(),
        ind < NENV,
        destroy_ok(old(em)@, MapState { frames: old(fa)@, tlb: old(tlb)@ }, ind as int),
    ensures
        final(em).wf(),
        final(fa).wf(),
        final(em)@ == after_destroy(old(em)@, ind as int),
        (MapState { frames: final(fa)@, tlb: final(tlb)@ }) == after_free_memory(
            MapState { frames: old(fa)@, tlb: old(tlb)@ },
            old(em)@.envs[ind as int],
        ),
        r.is_some() == (old(em)@.cur == Some(ind)),
        r.is_some() ==> r.unwrap().tf == final(em)@.envs[final(em)@.cur.unwrap() as int].env_tf
            && r.unwrap().asid == final(em)@.envs[final(em)@.cur.unwrap() as int].env_asid.0,
{
    em.free(fa, tlb, ind);
    let cur = match em.cur_env_ind() {
        Some(c) => c,
        None => 0,
    };
    if ind == cur {
        em.clear_cur();
        Some(env_sched(em, 1))
    } else {
        None
    }
}

/// Called before an environment is given the processor; does nothing.
pub fn pre_env_run(ind: usize) {
}

/// Gives the processor to the runnable environment in slot `ind`.
pub fn env_run(em: &mut EnvManager, ind: usize) -> (r: RunTarget)
    requires
        old(em).wf(),
        ind < NENV,
        old(em)@.envs[ind as int].env_status == EnvStatus::Runnable,
        old(em)@.envs[ind as int].env_runs < usize::MAX,
    ensures
        final(em).wf(),
        final(em)@ == after_run(old(em)@, ind as int),
        r.tf == final(em)@.envs[ind as int].env_tf,
        r.asid == final(em)@.envs[ind as int].env_asid.0,
{
    em.run(ind)
}

/// Counts one time slice, decides which environment runs next and gives it
/// the processor.
pub fn env_sched(em: &mut EnvManager, y: i32) -> (r: RunTarget)
    requires
        old(em).wf(),
        sched_ok(old(em)@, y),
    ensures
        final(em).wf(),
        final(em)@ == after_run(after_sched_pick(old(em)@, y), sched_next(old(em)@, y) as int),
        final(em)@.cur == Some(sched_next(old(em)@, y)),
        r.tf == final(em)@.envs[sched_next(old(em)@, y) as int].env_tf,
        r.asid == final(em)@.envs[sched_next(old(em)@, y) as int].env_asid.0,
{
    em.sched(y)
}

/// Lets the scheduler run at a timer tick: counts one time slice and gives
/// the processor to the environment whose turn it is. The argument is not
/// looked at: a tick never gives a turn up.
pub fn schedule(em: &mut EnvManager, y: i32) -> (r: RunTarget)
    requires
        old(em).wf(),
        sched_ok(old(em)@, 0),
    ensures
        final(em).wf(),
        final(em)@ == after_run(after_sched_pick(old(em)@, 0), sched_next(old(em)@, 0) as int),
        r.tf == final(em)@.envs[sched_next(old(em)@, 0) as int].env_tf,
        r.asid == final(em)@.envs[sched_next(old(em)@, 0) as int].env_asid.0,
{
    em.sched(0)
}

/// The slot that the identifier `envid` belongs to.
pub fn envx(envid: usize) -> (r: usize)
    ensures
        r == spec_envx(EnvID(envid)),
        r < NENV,
{
    EnvID::new(envid).envx()
}

/// Puts the slot of `envid` at the tail of the schedule list.
pub fn insert_sched(em: &mut EnvManager, envid: EnvID)
    requires
        old(em).inv(),
        !old(em)@.sched.contains(spec_envx(envid)),
    ensures
        final(em).inv(),
        final(em)@ == (EnvState { sched: old(em)@.sched.push(spec_envx(envid)), ..old(em)@ }),
{
    em.push_sched(envid.envx());
}

/// Allocates an environment. See [`EnvManager::allocate`].
pub fn env_alloc(em: &mut EnvManager, fa: &mut FrameAllocator, parent_id: EnvID) -> (r: Result<EnvID, Error>)
    requires
        old(em).wf(),
        old(fa).wf(),
        alloc_succeeds(old(em)@, old(fa)@) ==> old(em)@.base_pgdir.0 < old(fa)@.nframes() && old(
            em,
        )@.alloced < usize::MAX,
    ensures
        final(em).wf(),
        final(fa).wf(),
        !alloc_succeeds(old(em)@, old(fa)@) ==> r == Err::<EnvID, Error>(alloc_error(old(em)@, old(fa)@))
            && final(em)@ == old(em)@ && final(fa)@ == old(fa)@,
        alloc_succeeds(old(em)@, old(fa)@) ==> final(fa)@ == after_setup(old(fa)@, old(em)@.base_pgdir)
            && r == Ok::<EnvID, Error>(spec_mkenvid((old(em)@.alloced + 1) as usize, old(em)@.free[0]))
            && final(em)@ == after_env_alloc(
            old(em)@,
            PhysPageNum(old(fa)@.free[0]),
            ASID(the_free_asid(old(em)@.asids) as usize),
            parent_id,
        ),
{
    let r = em.allocate(fa, parent_id);
    proof {
        if r.is_ok() {
            lemma_lowest_free_asid_unique(old(em)@.asids, em@.envs[alloc_slot(old(em)@)].env_asid.0 as int);
        }
    }
    r
}

/// Frees the environment in slot `ind`. See [`EnvManager::free`].
pub fn env_free(em: &mut EnvManager, fa: &mut FrameAllocator, tlb: &mut Tlb, ind: usize)
    requires
        old(em).wf(),
        old(fa).wf(),
        ind < NENV,
        old(em)@.envs[ind as int].env_status != EnvStatus::Free,
        match old(em)@.envs[ind as int].env_pgdir {
            Some(d) => free_space_ok(
                MapState { frames: old(fa)@, tlb: old(tlb)@ },
                d,
                old(em)@.envs[ind as int].env_asid,
            ),
            None => true,
        },
    ensures
        final(em).wf(),
        final(fa).wf(),
        final(em)@ == after_env_free(old(em)@, ind as int),
        (MapState { frames: final(fa)@, tlb: final(tlb)@ }) == after_free_memory(
            MapState { frames: old(fa)@, tlb: old(tlb)@ },
            old(em)@.envs[ind as int],
        ),
{
    em.free(fa, tlb, ind);
}

/// Creates a runnable environment from a program image. See [`EnvManager::create`].
pub fn env_create(
    em: &mut EnvManager,
    fa: &mut FrameAllocator,
    tlb: &mut Tlb,
    binary: &Vec<u8>,
    size: usize,
    priority: usize,
) -> (r: EnvID)
    requires
        old(em).wf(),
        old(fa).wf(),
        create_ok(old(em)@, MapState { frames: old(fa)@, tlb: old(tlb)@ }, binary@, size, priority),
    ensures
        final(em).wf(),
        final(fa).wf(),
        r == spec_mkenvid((old(em)@.alloced + 1) as usize, old(em)@.free[0]),
        final(em)@ == after_create(old(em)@, PhysPageNum(old(fa)@.free[0]), binary@, priority),
        (MapState { frames: final(fa)@, tlb: final(tlb)@ }) == load_segments(
            MapState { frames: after_setup(old(fa)@, old(em)@.base_pgdir), tlb: old(tlb)@ },
            created_env(old(em)@, PhysPageNum(old(fa)@.free[0]), priority),
            binary@,
            image_header(binary@),
            image_header(binary@).e_phnum as nat,
        ),
{
    em.create(fa, tlb, binary, size, priority)
}

/// The page directory of the running environment.
pub fn cur_pgdir(em: &EnvManager) -> (r: Option<PhysPageNum>)
    requires
        em.wf(),
        em@.cur.is_some(),
    ensures
        r == em@.envs[em@.cur.unwrap() as int].env_pgdir,
{
    match em.cur_env_ind() {
        Some(ind) => em.get_env(ind).env_pgdir,
        None => None,
    }
}

/// The page directory of the environment in slot `ind`.
pub fn env_pgdir(em: &EnvManager, ind: usize) -> (r: Option<PhysPageNum>)
    requires
        em.wf(),
        ind < NENV,
    ensures
        r == em@.envs[ind as int].env_pgdir,
{
    em.get_env(ind).env_pgdir
}

/// Memory and gateway after the address space of environment `e` has been
/// given back: the teardown of its directory, if it has one, and the
/// invalidation of the place where the directory shows in its own window.
pub open spec fn after_free_memory(m: MapState, e: Env) -> MapState {
    let m1 = match e.env_pgdir {
        Some(d) => after_free_space(m, d, e.env_asid),
        None => m,
    };
    MapState {
        frames: m1.frames,
        tlb: m1.tlb.push(tlb_entry(e.env_asid, VirtAddr((UVPT + UVPT_PDX * 4096) as usize))),
    }
}

/// The physical address and the page count of the frame metadata, as `init`
/// maps them.
pub open spec fn init_pages_segment(s: FrameState) -> (PhysAddr, nat) {
    (PhysAddr((s.base_addr.0 - ULIM) as usize), (s.base_size / PAGE_SIZE) as nat)
}

/// Memory and gateway after `init` has mapped the window onto the frame metadata.
pub open spec fn after_init_pages(m: MapState, base: PhysPageNum) -> MapState {
    after_map_segment(
        m,
        base,
        ASID(0),
        init_pages_segment(m.frames).0,
        VirtAddr(UPAGES),
        init_pages_segment(m.frames).1,
        PTE_G,
    )
}

/// Memory and gateway after `init`: both windows are mapped in the base directory.
pub open spec fn after_init(m: MapState, base: PhysPageNum, envs_addr: VirtAddr) -> MapState {
    after_map_segment(
        after_init_pages(m, base),
        base,
        ASID(0),
        PhysAddr((envs_addr.0 - ULIM) as usize),
        VirtAddr(UENVS),
        ENV_TABLE_PAGES as nat,
        PTE_G,
    )
}

/// What `init` needs: the metadata and the table lie in the direct-mapped
/// kernel segment at page boundaries, the metadata fill whole pages, and each
/// insertion into the base directory succeeds.
pub open spec fn init_ok(m: MapState, base: PhysPageNum, envs_addr: VirtAddr) -> bool {
    &&& m.frames.base_addr.0 >= ULIM
    &&& envs_addr.0 >= ULIM
    &&& (m.frames.base_addr.0 - ULIM) % PAGE_SIZE as int == 0
    &&& (envs_addr.0 - ULIM) % PAGE_SIZE as int == 0
    &&& m.frames.base_size % PAGE_SIZE == 0
    &&& m.frames.base_addr.0 - ULIM + m.frames.base_size <= usize::MAX
    &&& UPAGES + m.frames.base_size <= usize::MAX
    &&& envs_addr.0 - ULIM + NENV * ENV_BYTES <= usize::MAX
    &&& map_segment_ok(
        m,
        base,
        ASID(0),
        init_pages_segment(m.frames).0,
        VirtAddr(UPAGES),
        init_pages_segment(m.frames).1,
        PTE_G,
    )
    &&& map_segment_ok(
        after_init_pages(m, base),
        base,
        ASID(0),
        PhysAddr((envs_addr.0 - ULIM) as usize),
        VirtAddr(UENVS),
        ENV_TABLE_PAGES as nat,
        PTE_G,
    )
}

/// No slot is on the free list and on the schedule list at once, and a slot
/// that is neither free nor runnable is on neither.
pub proof fn lemma_lists_disjoint(s: EnvState, e: int)
    requires
        s.wf(),
        0 <= e < NENV,
    ensures
        !(s.free.contains(e as usize) && s.sched.contains(e as usize)),
        s.envs[e].env_status == EnvStatus::NotRunnable ==> !s.free.contains(e as usize) && !s.sched.contains(
            e as usize,
        ),
{
}

/// No two slots in use have the same address-space identifier.
pub proof fn lemma_asids_distinct(s: EnvState, a: int, b: int)
    requires
        s.wf(),
        s.live(a),
        s.live(b),
        a != b,
    ensures
        s.envs[a].env_asid != s.envs[b].env_asid,
{
}

/// The directory of a new environment is a frame in use with one reference,
/// and it shows itself, read-only, in the window onto its own page tables.
pub proof fn lemma_setup_directory(s: FrameState, base: PhysPageNum)
    requires
        s.wf(),
        s.free.len() > 0,
    ensures
        after_setup(s, base).refs[s.free[0] as int] == 1,
        !after_setup(s, base).is_free(s.free[0] as int),
        after_setup(s, base).entry(s.free[0] as int, UVPT_PDX as int) == Pte::spec_from_ppn(
            PhysPageNum(s.free[0]),
            PTE_V,
        ),
        forall|i: int|
            0 <= i < UTOP_PDX ==> #[trigger] after_setup(s, base).entry(s.free[0] as int, i) == Pte(0),
{
    let p = s.free[0] as int;
    assert(p < s.refs.len());
    assert(s.refs[p] == 0);
    lemma_alloc_not_free(s);
    assert(crate::page_table::zero_table().len() == 1024);
    let r = after_setup(s, base);
    assert(r.free == s.after_alloc().free);
}

/// The identifiers in use below `upto`.
pub open spec fn asids_below(asids: Set<int>, upto: int) -> Set<int> {
    Set::new(|a: int| 0 <= a < upto && asids.contains(a))
}

/// The slots in use.
pub open spec fn live_slots(s: EnvState) -> Set<int> {
    Set::new(|e: int| s.live(e))
}

/// As many address-space identifiers are in use as there are slots in use.
pub proof fn lemma_asid_count(s: EnvState)
    requires
        s.wf(),
    ensures
        live_slots(s).finite(),
        s.asids.finite(),
        s.asids.len() == live_slots(s).len(),
{
    let x = live_slots(s);
    let all = vstd::set_lib::set_int_range(0, NENV as int);
    vstd::set_lib::lemma_int_range(0, NENV as int);
    assert(x.subset_of(all));
    vstd::set_lib::lemma_len_subset(x, all);
    let f = |e: int| s.envs[e].env_asid.0 as int;
    assert(vstd::relations::injective_on(f, x)) by {
        assert forall|e1: int, e2: int| x.contains(e1) && x.contains(e2) && #[trigger] f(e1) == #[trigger] f(
            e2,
        ) implies e1 == e2 by {
            assert(s.live(e1) && s.live(e2));
            if e1 != e2 {
                assert(s.envs[e1].env_asid != s.envs[e2].env_asid);
            }
        }
    }
    assert(x.map(f) =~= s.asids) by {
        assert forall|a: int| x.map(f).contains(a) <==> s.asids.contains(a) by {
            if x.map(f).contains(a) {
                let e = choose|e: int| x.contains(e) && f(e) == a;
                assert(s.live(e));
            }
            if s.asids.contains(a) {
                let e = choose|e: int| #[trigger] s.live(e) && s.envs[e].env_asid.0 == a;
                assert(x.contains(e) && f(e) == a);
            }
        }
    }
    vstd::set_lib::lemma_map_size(x, s.asids, f);
}

/// The identifier zero names the running environment, whatever is asked.
pub proof fn lemma_envid2ind_current(s: EnvState, checkperm: i32)
    ensures
        spec_envid2ind(s, EnvID(0), checkperm) == Ok::<usize, Error>(s.cur.unwrap()),
{
}

/// An identifier other than the one stored in its slot names nothing.
pub proof fn lemma_envid2ind_stale(s: EnvState, id: EnvID, checkperm: i32)
    requires
        id.0 != 0,
        s.envs[spec_envx(id) as int].env_id != id,
    ensures
        spec_envid2ind(s, id, checkperm) == Err::<usize, Error>(Error::BadEnv),
{
}

/// An identifier made for a slot leads back to that slot.
pub proof fn lemma_mkenvid_envx(generation: usize, ind: usize)
    requires
        ind < NENV,
    ensures
        spec_envx(spec_mkenvid(generation, ind)) == ind,
        ind != 0 ==> spec_mkenvid(generation, ind).0 != 0,
        0 < generation < 0x20_0000 ==> spec_mkenvid(generation, ind).0 != 0,
{
    assert(((generation << 11) | ind) % 1024 == ind && (ind != 0 ==> ((generation << 11) | ind) != 0) && (0
        < generation < 0x20_0000 ==> ((generation << 11) | ind) != 0)) by (bit_vector)
        requires
            ind < 1024,
    ;
}

/// After an environment has been freed its slot is free, its address-space
/// identifier is free, it is off the schedule list, and no user address is
/// mapped in its directory.
pub proof fn lemma_env_free_effects(s: EnvState, m: MapState, ind: int, va: VirtAddr)
    requires
        s.wf(),
        s.live(ind),
        m.frames.wf(),
        match s.envs[ind].env_pgdir {
            Some(d) => free_space_ok(m, d, s.envs[ind].env_asid),
            None => true,
        },
        va.0 < UTOP,
    ensures
        after_env_free(s, ind).envs[ind].env_status == EnvStatus::Free,
        after_env_free(s, ind).free.contains(ind as usize),
        !after_env_free(s, ind).asids.contains(s.envs[ind].env_asid.0 as int),
        !after_env_free(s, ind).sched.contains(ind as usize),
        match s.envs[ind].env_pgdir {
            Some(d) => spec_lookup(after_free_memory(m, s.envs[ind]).frames, d, va).is_none(),
            None => true,
        },
{
    let r = after_env_free(s, ind);
    assert(r.free[0] == ind as usize);
    lemma_sched_without(s, ind);
    match s.envs[ind].env_pgdir {
        Some(d) => {
            lemma_free_space_unmaps(m, d, s.envs[ind].env_asid, va);
        },
        None => {},
    }
}

/// The table right after `init` is well formed.
pub proof fn lemma_boot_env_wf(base: PhysPageNum)
    ensures
        boot_env_state(base).wf(),
{
    let b = boot_env_state(base);
    assert forall|e: int| 0 <= e < NENV implies (b.free.contains(e as usize) <==> (#[trigger] b.envs[e]).env_status
        == EnvStatus::Free) by {
        assert(b.free[e] == e as usize);
    }
    assert forall|e: int| !b.live(e) by {}
}

/// Bytes that one environment occupies on the target: 51 words.
pub const ENV_BYTES: usize = 204;

/// Where an identifier below `n` is free, there is a least free identifier.
proof fn lemma_least_free_asid(asids: Set<int>, n: int)
    requires
        0 <= n < NASID,
        !asids.contains(n),
    ensures
        lowest_free_asid(asids, the_free_asid(asids)),
    decreases n,
{
    if forall|b: int| 0 <= b < n ==> asids.contains(b) {
        assert(lowest_free_asid(asids, n));
    } else {
        let b = choose|b: int| 0 <= b < n && !asids.contains(b);
        lemma_least_free_asid(asids, b);
    }
}

/// While not every identifier is in use, the least free one can be taken.
pub proof fn lemma_free_asid_exists(asids: Set<int>)
    requires
        !asids_exhausted(asids),
    ensures
        lowest_free_asid(asids, the_free_asid(asids)),
{
    let n = choose|n: int| 0 <= n < NASID && !asids.contains(n);
    lemma_least_free_asid(asids, n);
}

/// A successful allocation leaves the new slot not runnable, takes one more
/// identifier into use, and leaves as many identifiers in use as there are
/// slots in use.
pub proof fn lemma_alloc_counts(s: EnvState, pgdir: PhysPageNum, parent_id: EnvID)
    requires
        s.wf(),
        s.free.len() > 0,
        !asids_exhausted(s.asids),
    ensures
        after_env_alloc(s, pgdir, ASID(the_free_asid(s.asids) as usize), parent_id).wf(),
        after_env_alloc(s, pgdir, ASID(the_free_asid(s.asids) as usize), parent_id).envs[alloc_slot(
            s,
        )].env_status == EnvStatus::NotRunnable,
        after_env_alloc(s, pgdir, ASID(the_free_asid(s.asids) as usize), parent_id).asids.len()
            == s.asids.len() + 1,
        after_env_alloc(s, pgdir, ASID(the_free_asid(s.asids) as usize), parent_id).asids.len() == live_slots(
            after_env_alloc(s, pgdir, ASID(the_free_asid(s.asids) as usize), parent_id),
        ).len(),
        live_slots(after_env_alloc(s, pgdir, ASID(the_free_asid(s.asids) as usize), parent_id)).len()
            == live_slots(s).len() + 1,
{
    let a = the_free_asid(s.asids);
    lemma_free_asid_exists(s.asids);
    let r = after_env_alloc(s, pgdir, ASID(a as usize), parent_id);
    lemma_alloc_wf(s, pgdir, ASID(a as usize), parent_id);
    lemma_asid_count(s);
    lemma_asid_count(r);
    assert(s.free[0] < NENV);
    assert(r.asids == s.asids.insert(a));
}

/// Freeing a slot in use puts it at the head of the free list, where it
/// stands once; takes its identifier, and no other, out of use; and takes the
/// slot off the schedule list, whose other slots stay in their order. One
/// identifier and one slot fewer are then in use.
pub proof fn lemma_env_free_lists(s: EnvState, ind: int)
    requires
        s.wf(),
        s.live(ind),
    ensures
        after_env_free(s, ind).wf(),
        after_env_free(s, ind).free == seq![ind as usize] + s.free,
        after_env_free(s, ind).free.no_duplicates(),
        !s.free.contains(ind as usize),
        forall|a: int|
            after_env_free(s, ind).asids.contains(a) <==> (s.asids.contains(a) && a
                != s.envs[ind].env_asid.0),
        after_env_free(s, ind).sched == sched_without(s, ind),
        !after_env_free(s, ind).sched.contains(ind as usize),
        forall|e: usize| e != ind ==> (after_env_free(s, ind).sched.contains(e) <==> s.sched.contains(e)),
        s.envs[ind].env_status == EnvStatus::Runnable ==> after_env_free(s, ind).sched == s.sched.remove(
            s.sched.index_of(ind as usize),
        ),
        s.envs[ind].env_status != EnvStatus::Runnable ==> after_env_free(s, ind).sched == s.sched,
        after_env_free(s, ind).asids.len() == s.asids.len() - 1,
        live_slots(after_env_free(s, ind)).len() == live_slots(s).len() - 1,
{
    let r = after_env_free(s, ind);
    lemma_free_wf(s, ind);
    lemma_sched_without(s, ind);
    lemma_asid_count(s);
    lemma_asid_count(r);
    assert(s.asids.contains(s.envs[ind].env_asid.0 as int));
}

/// Pages that the environment table occupies on the target.
pub const ENV_TABLE_PAGES: usize = 51;

} // verus!
