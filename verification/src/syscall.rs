//! The kernel as a whole, its system calls and their dispatcher.

use vstd::prelude::*;
use vstd::std_specs::convert::FromSpecImpl;
use crate::device::{
    CONSOLE_ADDR, CONSOLE_LEN, dev_read, dev_write, DevCopy, DeviceManager, DISK_ADDR, DISK_LEN,
};
use crate::env::{
    alloc_error, alloc_succeeds, after_destroy, after_env_alloc, after_free_memory, after_run,
    after_sched_pick, after_set_status, after_setup, alloc_slot, ASID, destroy_ok, Env,
    env_alloc, env_destroy, env_sched, EnvID, envid2ind, EnvManager, EnvState, EnvStatus, get_cur_env_id,
    NENV, RunTarget, sched_next, sched_ok, spec_envid2ind, spec_envx, spec_mkenvid, the_free_asid,
    unset_env_state,
};
use crate::err::Error;
use crate::frame::{FrameAllocator, FrameState, unset_frames};
use crate::mmu::{PhysAddr, PhysPageNum, PTE_V, UTEMP, UTOP, VirtAddr};
use crate::page_table::{
    after_refill, after_remove, insert_pre, insert_runs_out, insert_step, lemma_alloc_not_free,
    lemma_installed_perm, lemma_passive_fresh, MapState, PageTable, Pte, refill_ok, refill_pair, remove_pre,
    slot_entry, spec_lookup, spec_pde, tlb_after_remove, walkable, zero_table,
};
use crate::print::{ConsoleState, expand_all, expand_newline, printcharc, scancharc, Stdout};
use crate::sem::{after_sem_open, after_sem_post, after_sem_wait, SEM_NUM, SemManager, SemState};
use crate::shm::{
    after_shm_detach, after_shm_get, after_shm_map, after_shm_unmap, no_blocks_held, Shm, shm_at, shm_at_ok,
    shm_dt, shm_dt_ok, shm_exists, shm_get, shm_get_result, shm_map_fails, SHM_RMID, shm_rmid, ShmManager,
    ShmMem, SHMMNI, ShmState, unset_shm_state,
};
use crate::tlb::{Tlb, tlb_entry};
use crate::traps::{
    fault_frame_addr, fault_handler_frame, REG_A0, REG_SP, REG_V0, SavedFrame, Trapframe, TRAPFRAME_BYTES,
    with_reg,
};

verus! {

/// The whole kernel: physical memory, the TLB gateway, the environments, the
/// shared-memory and semaphore tables, the console and the device gateway.
pub struct Kernel {
    pub fa: FrameAllocator,
    pub tlb: Tlb,
    pub em: EnvManager,
    pub shm: ShmManager,
    pub sem: SemManager,
    pub console: Stdout,
    pub dev: DeviceManager,
}

/// The mathematical state of the kernel.
pub struct KernelState {
    pub frames: FrameState,
    pub tlb: Seq<usize>,
    pub env: EnvState,
    pub shm: ShmState,
    pub sem: SemState,
    pub console: ConsoleState,
    pub dev: Seq<DevCopy>,
}

impl View for Kernel {
    type V = KernelState;

    open spec fn view(&self) -> KernelState {
        KernelState {
            frames: self.fa@,
            tlb: self.tlb@,
            env: self.em@,
            shm: self.shm@,
            sem: self.sem@,
            console: self.console@,
            dev: self.dev@,
        }
    }
}

impl KernelState {
    /// Memory and gateway of this state.
    pub open spec fn map(self) -> MapState {
        MapState { frames: self.frames, tlb: self.tlb }
    }

    /// This state with memory and gateway replaced.
    pub open spec fn with_map(self, m: MapState) -> KernelState {
        KernelState { frames: m.frames, tlb: m.tlb, ..self }
    }

    /// The slot of the running environment; slot zero where none runs.
    pub open spec fn cur_or_zero(self) -> int {
        match self.env.cur {
            Some(c) => c as int,
            None => 0,
        }
    }
}

/// The kernel before any part of it is initialised: no memory, no
/// environment slots, empty shared-memory stacks, no semaphore counter and
/// every semaphore slot free, nothing on the console, and nothing recorded at
/// the two gateways.
pub open spec fn unset_kernel_state() -> KernelState {
    KernelState {
        frames: unset_frames(),
        tlb: Seq::empty(),
        env: unset_env_state(),
        shm: unset_shm_state(),
        sem: SemState { values: Seq::empty(), free: Seq::new(SEM_NUM as nat, |i: int| 1u8) },
        console: ConsoleState { output: Seq::empty(), input: Seq::empty() },
        dev: Seq::empty(),
    }
}

impl Kernel {
    /// Every part of the kernel is initialised and well formed.
    pub open spec fn wf(&self) -> bool {
        &&& self.fa.wf()
        &&& self.em.wf()
        &&& self.shm.wf()
        &&& self.sem.wf()
        &&& self.console.wf()
    }

    /// A kernel none of whose parts is initialised yet.
    pub fn new() -> (r: Self)
        ensures
            r@ == unset_kernel_state(),
            r.fa.is_unset(),
            r.em.is_unset(),
            r.shm.wf(),
            no_blocks_held(r@.shm.shms),
            r.console.wf(),
    {
        let r = Kernel {
            fa: FrameAllocator::new(),
            tlb: Tlb::new(),
            em: EnvManager::new(),
            shm: ShmManager::new(),
            sem: SemManager::new(),
            console: Stdout::new(),
            dev: DeviceManager::new(),
        };
        proof {
            let u = unset_kernel_state();
            assert(r@.sem.values =~= u.sem.values);
            assert(r@.sem.free =~= u.sem.free);
        }
        r
    }
}

/// The numbers of the system calls.
#[derive(Clone, Copy, Debug, PartialEq, Eq, Structural)]
pub enum SyscallID {
    Putchar,
    PrintCons,
    GetEnvID,
    Yield,
    EnvDestroy,
    SetTlbModEntry,
    MemAlloc,
    MemMap,
    MemUnmap,
    Exofork,
    SetEnvStatus,
    SetTrapframe,
    Panic,
    IpcTrySend,
    IpcRecv,
    CGetC,
    WriteDev,
    ReadDev,
    ShmGet,
    ShmAt,
    ShmDt,
    ShmCtl,
    SemOpen,
    SemWait,
    SemPost,
    SemKill,
    SysNo,
}

/// The number of system calls; every number from here on names none.
pub const SYS_NO: usize = 26;

/// The system call that a number names.
pub open spec fn spec_syscall_id(value: usize) -> SyscallID {
    if value == 0 {
        SyscallID::Putchar
    } else if value == 1 {
        SyscallID::PrintCons
    } else if value == 2 {
        SyscallID::GetEnvID
    } else if value == 3 {
        SyscallID::Yield
    } else if value == 4 {
        SyscallID::EnvDestroy
    } else if value == 5 {
        SyscallID::SetTlbModEntry
    } else if value == 6 {
        SyscallID::MemAlloc
    } else if value == 7 {
        SyscallID::MemMap
    } else if value == 8 {
        SyscallID::MemUnmap
    } else if value == 9 {
        SyscallID::Exofork
    } else if value == 10 {
        SyscallID::SetEnvStatus
    } else if value == 11 {
        SyscallID::SetTrapframe
    } else if value == 12 {
        SyscallID::Panic
    } else if value == 13 {
        SyscallID::IpcTrySend
    } else if value == 14 {
        SyscallID::IpcRecv
    } else if value == 15 {
        SyscallID::CGetC
    } else if value == 16 {
        SyscallID::WriteDev
    } else if value == 17 {
        SyscallID::ReadDev
    } else if value == 18 {
        SyscallID::ShmGet
    } else if value == 19 {
        SyscallID::ShmAt
    } else if value == 20 {
        SyscallID::ShmDt
    } else if value == 21 {
        SyscallID::ShmCtl
    } else if value == 22 {
        SyscallID::SemOpen
    } else if value == 23 {
        SyscallID::SemWait
    } else if value == 24 {
        SyscallID::SemPost
    } else if value == 25 {
        SyscallID::SemKill
    } else {
        SyscallID::SysNo
    }
}

impl SyscallID {
    /// The system call that the number `value` names; `SysNo` for a number
    /// that names none.
    pub fn from_usize(value: usize) -> (r: SyscallID)
        ensures
            r == spec_syscall_id(value),
    {
        match value {
            0 => SyscallID::Putchar,
            1 => SyscallID::PrintCons,
            2 => SyscallID::GetEnvID,
            3 => SyscallID::Yield,
            4 => SyscallID::EnvDestroy,
            5 => SyscallID::SetTlbModEntry,
            6 => SyscallID::MemAlloc,
            7 => SyscallID::MemMap,
            8 => SyscallID::MemUnmap,
            9 => SyscallID::Exofork,
            10 => SyscallID::SetEnvStatus,
            11 => SyscallID::SetTrapframe,
            12 => SyscallID::Panic,
            13 => SyscallID::IpcTrySend,
            14 => SyscallID::IpcRecv,
            15 => SyscallID::CGetC,
            16 => SyscallID::WriteDev,
            17 => SyscallID::ReadDev,
            18 => SyscallID::ShmGet,
            19 => SyscallID::ShmAt,
            20 => SyscallID::ShmDt,
            21 => SyscallID::ShmCtl,
            22 => SyscallID::SemOpen,
            23 => SyscallID::SemWait,
            24 => SyscallID::SemPost,
            25 => SyscallID::SemKill,
            _ => SyscallID::SysNo,
        }
    }
}

impl From<usize> for SyscallID {
    fn from(value: usize) -> (r: SyscallID) {
        SyscallID::from_usize(value)
    }
}

impl FromSpecImpl<usize> for SyscallID {
    open spec fn obeys_from_spec() -> bool {
        true
    }

    open spec fn from_spec(value: usize) -> SyscallID {
        spec_syscall_id(value)
    }
}

/// The value that user space receives for an error.
pub open spec fn errno(e: Error) -> i32 {
    e.spec_errno() as i32
}

/// Whether `va` lies outside the memory that a user may map.
pub open spec fn illegal_va(va: VirtAddr) -> bool {
    va.0 < UTEMP || va.0 >= UTOP
}

/// Whether the `len` bytes from `va` on do not all lie in the memory that a
/// user may map. An empty range is never illegal.
pub open spec fn illegal_va_range(va: VirtAddr, len: usize) -> bool {
    len != 0 && (va.0 < UTEMP || va.0 + len > UTOP)
}

/// Whether `va` lies outside the memory that a user may map.
pub fn is_illegal_va(va: VirtAddr) -> (r: bool)
    ensures
        r == illegal_va(va),
{
    va.as_usize() < UTEMP || va.as_usize() >= UTOP
}

/// Whether the `len` bytes from `va` on do not all lie in the memory that a
/// user may map.
pub fn is_illegal_va_range(va: VirtAddr, len: usize) -> (r: bool)
    ensures
        r == illegal_va_range(va, len),
{
    if len == 0 {
        false
    } else {
        match va.as_usize().checked_add(len) {
            Some(end) => va.as_usize() < UTEMP || end > UTOP,
            None => true,
        }
    }
}

/// Writes the character `c` to the console.
pub fn sys_putchar(k: &mut Kernel, c: i32)
    requires
        old(k).wf(),
    ensures
        final(k).wf(),
        final(k)@ == (KernelState {
            console: ConsoleState {
                output: old(k)@.console.output + expand_newline(c as u8),
                ..old(k)@.console
            },
            ..old(k)@
        }),
{
    printcharc(&mut k.console, #[verifier::truncate] (c as u8));
}

/// Writes the `num` bytes that the user holds at `s_addr`, and that the trap
/// entry has read into `data`, to the console; `Inval` where the bytes do not
/// all lie in user memory.
pub fn sys_print_cons(k: &mut Kernel, s_addr: VirtAddr, num: usize, data: &Vec<u8>) -> (r: i32)
    requires
        old(k).wf(),
        !illegal_va_range(s_addr, num) ==> data@.len() == num,
    ensures
        final(k).wf(),
        illegal_va_range(s_addr, num) ==> r == errno(Error::Inval) && final(k)@ == old(k)@,
        !illegal_va_range(s_addr, num) ==> r == 0 && final(k)@ == (KernelState {
            console: ConsoleState {
                output: old(k)@.console.output + expand_all(data@),
                ..old(k)@.console
            },
            ..old(k)@
        }),
{
    if is_illegal_va_range(s_addr, num) {
        Error::Inval.errno()
    } else {
        k.console.write_str(data);
        0
    }
}

/// The identifier of the running environment; zero where none runs.
pub fn sys_get_envid(k: &Kernel) -> (r: EnvID)
    requires
        k.wf(),
    ensures
        r == (match k@.env.cur {
            Some(c) => k@.env.envs[c as int].env_id,
            None => EnvID(0),
        }),
{
    match get_cur_env_id(&k.em) {
        Some(id) => id,
        None => EnvID::zero(),
    }
}

/// Gives the rest of the turn up: the scheduler picks the environment that
/// runs next, and what has to be restored for it is returned.
pub fn sys_yield(k: &mut Kernel) -> (r: RunTarget)
    requires
        old(k).wf(),
        sched_ok(old(k)@.env, 1),
    ensures
        final(k).wf(),
        final(k)@ == (KernelState {
            env: after_run(after_sched_pick(old(k)@.env, 1), sched_next(old(k)@.env, 1) as int),
            ..old(k)@
        }),
        r.tf == final(k)@.env.envs[sched_next(old(k)@.env, 1) as int].env_tf,
        r.asid == final(k)@.env.envs[sched_next(old(k)@.env, 1) as int].env_asid.0,
{
    env_sched(&mut k.em, 1)
}

/// What `sys_env_destroy` needs: a running environment, and, where the
/// identifier names an environment that may be destroyed, what destroying it
/// needs.
pub open spec fn sys_env_destroy_ok(s: KernelState, envid: EnvID) -> bool {
    &&& s.env.cur.is_some()
    &&& match spec_envid2ind(s.env, envid, 1) {
        Ok(ind) => destroy_ok(s.env, s.map(), ind as int),
        Err(_) => true,
    }
}

/// Destroys the environment that `envid` names, which is the running one or
/// a child of it. Where the running environment destroys itself, what has to
/// be restored for the one that runs next is returned too.
pub fn sys_env_destroy(k: &mut Kernel, envid: EnvID) -> (r: (i32, Option<RunTarget>))
    requires
        old(k).wf(),
        sys_env_destroy_ok(old(k)@, envid),
    ensures
        final(k).wf(),
        match spec_envid2ind(old(k)@.env, envid, 1) {
            Ok(ind) => {
                &&& r.0 == 0
                &&& final(k)@ == (KernelState {
                    env: after_destroy(old(k)@.env, ind as int),
                    ..old(k)@.with_map(after_free_memory(old(k)@.map(), old(k)@.env.envs[ind as int]))
                })
                &&& r.1.is_some() == (old(k)@.env.cur == Some(ind))
                &&& r.1.is_some() ==> r.1.unwrap().tf == final(k)@.env.envs[final(k)@.env.cur.unwrap() as int].env_tf
                    && r.1.unwrap().asid == final(k)@.env.envs[final(k)@.env.cur.unwrap() as int].env_asid.0
            },
            Err(e) => r.0 == errno(e) && r.1.is_none() && final(k)@ == old(k)@,
        },
{
    let ind = match envid2ind(&k.em, envid, 1) {
        Ok(i) => i,
        Err(e) => {
            return (e.errno(), None);
        },
    };
    let run = env_destroy(&mut k.em, &mut k.fa, &mut k.tlb, ind);
    (0, run)
}

/// Sets the user address of the write-fault handler of the environment that
/// `envid` names, which is the running one or a child of it.
pub fn sys_set_tlb_mod_entry(k: &mut Kernel, envid: EnvID, func: usize) -> (r: i32)
    requires
        old(k).wf(),
        old(k)@.env.cur.is_some(),
    ensures
        final(k).wf(),
        match spec_envid2ind(old(k)@.env, envid, 1) {
            Ok(ind) => r == 0 && final(k)@ == (KernelState {
                env: EnvState {
                    envs: old(k)@.env.envs.update(
                        ind as int,
                        Env { env_user_tlb_mod_entry: func, ..old(k)@.env.envs[ind as int] },
                    ),
                    ..old(k)@.env
                },
                ..old(k)@
            }),
            Err(e) => r == errno(e) && final(k)@ == old(k)@,
        },
{
    let ind = match k.em.envid2ind(envid, 1) {
        Ok(i) => i,
        Err(e) => {
            return e.errno();
        },
    };
    let mut e = *k.em.get_env(ind);
    e.env_user_tlb_mod_entry = func;
    k.em.put_env(ind, e);
    0
}

/// What `sys_mem_alloc` needs: a running environment, and, where a frame is
/// taken for an environment with a directory, what inserting it needs.
pub open spec fn sys_mem_alloc_ok(s: KernelState, envid: EnvID, va: VirtAddr) -> bool {
    &&& s.env.cur.is_some()
    &&& !illegal_va(va) && s.frames.free.len() > 0 ==> match spec_envid2ind(s.env, envid, 1) {
        Ok(ind) => match s.env.envs[ind as int].env_pgdir {
            Some(d) => insert_pre(s.frames.after_alloc(), d, PhysPageNum(s.frames.free[0]), va),
            None => true,
        },
        Err(_) => true,
    }
}

/// The state after `sys_mem_alloc` and the value it returns.
pub open spec fn spec_sys_mem_alloc(s: KernelState, envid: EnvID, va: VirtAddr, perm: usize) -> (
    KernelState,
    i32,
) {
    if illegal_va(va) {
        (s, errno(Error::Inval))
    } else {
        match spec_envid2ind(s.env, envid, 1) {
            Err(e) => (s, errno(e)),
            Ok(ind) => if s.frames.free.len() == 0 {
                (s, errno(Error::NoMem))
            } else {
                let p = PhysPageNum(s.frames.free[0]);
                let f1 = s.frames.after_alloc();
                let e = s.env.envs[ind as int];
                match e.env_pgdir {
                    None => (KernelState { frames: f1, ..s }, 0i32),
                    Some(d) => (
                        s.with_map(insert_step(MapState { frames: f1, tlb: s.tlb }, d, e.env_asid, p, va, perm)),
                        if insert_runs_out(f1, d, p, va) {
                            errno(Error::NoMem)
                        } else {
                            0i32
                        },
                    ),
                }
            },
        }
    }
}

/// `sys_mem_alloc` finds what it needs where an environment is running and
/// the address is not mapped yet in a directory that is in use and whose walk
/// stays in memory.
pub proof fn lemma_mem_alloc_admissible(s: KernelState, envid: EnvID, va: VirtAddr)
    requires
        s.frames.wf(),
        s.env.cur.is_some(),
        match spec_envid2ind(s.env, envid, 1) {
            Ok(ind) => match s.env.envs[ind as int].env_pgdir {
                Some(d) => walkable(s.frames, d, va) && spec_lookup(s.frames, d, va).is_none()
                    && !s.frames.is_free(d.0 as int),
                None => true,
            },
            Err(_) => true,
        },
    ensures
        sys_mem_alloc_ok(s, envid, va),
{
    if !illegal_va(va) && s.frames.free.len() > 0 {
        match spec_envid2ind(s.env, envid, 1) {
            Ok(ind) => match s.env.envs[ind as int].env_pgdir {
                Some(d) => {
                    let f = s.frames;
                    let p = f.free[0] as int;
                    let a = f.after_alloc();
                    lemma_passive_fresh(f);
                    lemma_alloc_not_free(f);
                    lemma_installed_perm(0);
                    assert(f.free[0] < f.refs.len());
                    assert(f.refs[p] == 0);
                    assert forall|x: int, i: int| 0 <= x < f.nframes() && 0 <= i < 1024 implies #[trigger] a.entry(
                        x,
                        i,
                    ) == (if x == p {
                        Pte(0)
                    } else {
                        f.entry(x, i)
                    }) by {
                        assert(zero_table().len() == 1024);
                    }
                    assert(spec_pde(a, d, va) == (if d.0 == p {
                        Pte(0)
                    } else {
                        spec_pde(f, d, va)
                    }));
                    if spec_pde(a, d, va).spec_valid() {
                        let t = spec_pde(f, d, va).spec_ppn() as int;
                        assert(a.entry(t, va.spec_ptx() as int) == (if t == p {
                            Pte(0)
                        } else {
                            f.entry(t, va.spec_ptx() as int)
                        }));
                    }
                    assert(spec_lookup(a, d, va).is_none());
                },
                None => {},
            },
            Err(_) => {},
        }
    }
}

/// Maps a fresh zeroed page at `va` in the environment that `envid` names,
/// with the flags `perm`.
pub fn sys_mem_alloc(k: &mut Kernel, envid: EnvID, va: VirtAddr, perm: usize) -> (r: i32)
    requires
        old(k).wf(),
        sys_mem_alloc_ok(old(k)@, envid, va),
    ensures
        final(k).wf(),
        (final(k)@, r) == spec_sys_mem_alloc(old(k)@, envid, va, perm),
{
    if is_illegal_va(va) {
        return Error::Inval.errno();
    }
    let ind = match envid2ind(&k.em, envid, 1) {
        Ok(i) => i,
        Err(e) => {
            return e.errno();
        },
    };
    let ppn = match k.fa.allocate() {
        Ok(p) => p,
        Err(e) => {
            return e.errno();
        },
    };
    let env = k.em.get_env(ind);
    match env.env_pgdir {
        Some(pgdir) => {
            match PageTable::insert(&mut k.fa, &mut k.tlb, pgdir, env.env_asid, ppn, va, perm) {
                Ok(()) => {},
                Err(e) => {
                    return e.errno();
                },
            }
        },
        None => {},
    }
    0
}

/// The frame that `sys_mem_map` finds mapped at `srcva`, or the error it ends with.
pub open spec fn mem_map_source(s: KernelState, srcid: EnvID, srcva: VirtAddr, dstid: EnvID) -> Result<
    PhysPageNum,
    Error,
> {
    match spec_envid2ind(s.env, srcid, 1) {
        Err(e) => Err(e),
        Ok(srcind) => match spec_envid2ind(s.env, dstid, 1) {
            Err(e) => Err(e),
            Ok(dstind) => match s.env.envs[srcind as int].env_pgdir {
                None => Err(Error::Inval),
                Some(d) => match spec_lookup(s.frames, d, srcva) {
                    Some(slot) => Ok(PhysPageNum(slot_entry(s.frames, slot).spec_ppn())),
                    None => Err(Error::NotMapped),
                },
            },
        },
    }
}

/// What `sys_mem_map` needs: a running environment, a walk in the source
/// that stays in memory, and what the insertion in the destination needs.
pub open spec fn sys_mem_map_ok(
    s: KernelState,
    srcid: EnvID,
    srcva: VirtAddr,
    dstid: EnvID,
    dstva: VirtAddr,
) -> bool {
    &&& s.env.cur.is_some()
    &&& !illegal_va(srcva) && !illegal_va(dstva) ==> {
        &&& match spec_envid2ind(s.env, srcid, 1) {
            Ok(srcind) => spec_envid2ind(s.env, dstid, 1).is_ok() ==> match s.env.envs[srcind as int].env_pgdir {
                Some(d) => walkable(s.frames, d, srcva),
                None => true,
            },
            Err(_) => true,
        }
        &&& match mem_map_source(s, srcid, srcva, dstid) {
            Ok(ppn) => match s.env.envs[spec_envid2ind(s.env, dstid, 1).unwrap() as int].env_pgdir {
                Some(dd) => insert_pre(s.frames, dd, ppn, dstva),
                None => true,
            },
            Err(_) => true,
        }
    }
}

/// The state after `sys_mem_map` and the value it returns.
pub open spec fn spec_sys_mem_map(
    s: KernelState,
    srcid: EnvID,
    srcva: VirtAddr,
    dstid: EnvID,
    dstva: VirtAddr,
    perm: usize,
) -> (KernelState, i32) {
    if illegal_va(srcva) || illegal_va(dstva) {
        (s, errno(Error::Inval))
    } else {
        match mem_map_source(s, srcid, srcva, dstid) {
            Err(e) => (s, errno(e)),
            Ok(ppn) => {
                let dst = s.env.envs[spec_envid2ind(s.env, dstid, 1).unwrap() as int];
                match dst.env_pgdir {
                    None => (s, 0i32),
                    Some(dd) => (
                        s.with_map(insert_step(s.map(), dd, dst.env_asid, ppn, dstva, perm)),
                        if insert_runs_out(s.frames, dd, ppn, dstva) {
                            errno(Error::NoMem)
                        } else {
                            0i32
                        },
                    ),
                }
            },
        }
    }
}

/// Maps the frame that `srcva` names in the environment `srcid` at `dstva`
/// in the environment `dstid`, with the flags `perm`.
pub fn sys_mem_map(
    k: &mut Kernel,
    srcid: EnvID,
    srcva: VirtAddr,
    dstid: EnvID,
    dstva: VirtAddr,
    perm: usize,
) -> (r: i32)
    requires
        old(k).wf(),
        sys_mem_map_ok(old(k)@, srcid, srcva, dstid, dstva),
    ensures
        final(k).wf(),
        (final(k)@, r) == spec_sys_mem_map(old(k)@, srcid, srcva, dstid, dstva, perm),
{
    if is_illegal_va(srcva) || is_illegal_va(dstva) {
        return Error::Inval.errno();
    }
    let srcind = match k.em.envid2ind(srcid, 1) {
        Ok(i) => i,
        Err(e) => {
            return e.errno();
        },
    };
    let dstind = match k.em.envid2ind(dstid, 1) {
        Ok(i) => i,
        Err(e) => {
            return e.errno();
        },
    };
    let ppn = match k.em.get_env(srcind).env_pgdir {
        Some(pgdir) => match PageTable::lookup_ppn(&k.fa, pgdir, srcva) {
            Ok(p) => p,
            Err(e) => {
                return e.errno();
            },
        },
        None => {
            return Error::Inval.errno();
        },
    };
    let dstenv = k.em.get_env(dstind);
    match dstenv.env_pgdir {
        Some(pgdir) => {
            match PageTable::insert(&mut k.fa, &mut k.tlb, pgdir, dstenv.env_asid, ppn, dstva, perm) {
                Ok(()) => {},
                Err(e) => {
                    return e.errno();
                },
            }
        },
        None => {},
    }
    0
}

/// What `sys_mem_unmap` needs: a running environment, and what the removal needs.
pub open spec fn sys_mem_unmap_ok(s: KernelState, envid: EnvID, va: VirtAddr) -> bool {
    &&& s.env.cur.is_some()
    &&& !illegal_va(va) ==> match spec_envid2ind(s.env, envid, 1) {
        Ok(ind) => match s.env.envs[ind as int].env_pgdir {
            Some(d) => remove_pre(s.frames, d, va),
            None => true,
        },
        Err(_) => true,
    }
}

/// The state after `sys_mem_unmap` and the value it returns.
pub open spec fn spec_sys_mem_unmap(s: KernelState, envid: EnvID, va: VirtAddr) -> (KernelState, i32) {
    if illegal_va(va) {
        (s, errno(Error::Inval))
    } else {
        match spec_envid2ind(s.env, envid, 1) {
            Err(e) => (s, errno(e)),
            Ok(ind) => {
                let e = s.env.envs[ind as int];
                match e.env_pgdir {
                    None => (s, 0i32),
                    Some(d) => (
                        KernelState {
                            frames: after_remove(s.frames, d, va),
                            tlb: tlb_after_remove(s.frames, s.tlb, d, e.env_asid, va),
                            ..s
                        },
                        0i32,
                    ),
                }
            },
        }
    }
}

/// Removes the mapping of `va` in the environment that `envid` names.
pub fn sys_mem_unmap(k: &mut Kernel, envid: EnvID, va: VirtAddr) -> (r: i32)
    requires
        old(k).wf(),
        sys_mem_unmap_ok(old(k)@, envid, va),
    ensures
        final(k).wf(),
        (final(k)@, r) == spec_sys_mem_unmap(old(k)@, envid, va),
{
    if is_illegal_va(va) {
        return Error::Inval.errno();
    }
    let ind = match envid2ind(&k.em, envid, 1) {
        Ok(i) => i,
        Err(e) => {
            return e.errno();
        },
    };
    let env = k.em.get_env(ind);
    match env.env_pgdir {
        Some(pgdir) => {
            PageTable::remove(&mut k.fa, &mut k.tlb, pgdir, env.env_asid, va);
        },
        None => {},
    }
    0
}

/// Whether an environment is running whose slot is in use.
pub open spec fn cur_live(s: EnvState) -> bool {
    s.cur.is_some() && s.envs[s.cur.unwrap() as int].env_status != EnvStatus::Free
}

/// The number that a system call hands back for the identifier `id`.
pub open spec fn envid_value(id: EnvID) -> i32 {
    id.0 as i32
}

/// The environment of a child right after a fork: as allocated, with the
/// priority of its parent and the registers that the parent had on entry to
/// the kernel, but with a return value of zero.
pub open spec fn forked_env(allocated: Env, parent: Env, tf: Trapframe) -> Env {
    Env { env_pri: parent.env_pri, env_tf: with_reg(tf, REG_V0 as int, 0), ..allocated }
}

/// What `sys_exofork` needs where a slot, a frame and an identifier are
/// free: the base directory is a frame of memory, and one more identifier
/// number can be counted.
pub open spec fn sys_exofork_ok(s: KernelState) -> bool {
    alloc_succeeds(s.env, s.frames) ==> s.env.base_pgdir.0 < s.frames.nframes() && s.env.alloced
        < usize::MAX
}

/// The state after `sys_exofork` and the value it returns.
pub open spec fn spec_sys_exofork(s: KernelState) -> (KernelState, i32) {
    let parent = s.env.envs[s.cur_or_zero()];
    if !alloc_succeeds(s.env, s.frames) {
        (s, errno(alloc_error(s.env, s.frames)))
    } else {
        let pgdir = PhysPageNum(s.frames.free[0]);
        let frames = after_setup(s.frames, s.env.base_pgdir);
        let a = after_env_alloc(s.env, pgdir, ASID(the_free_asid(s.env.asids) as usize), parent.env_id);
        let ind = alloc_slot(s.env);
        (
            KernelState {
                frames,
                env: EnvState { envs: a.envs.update(ind, forked_env(a.envs[ind], parent, s.env.tf)), ..a },
                ..s
            },
            envid_value(spec_mkenvid((s.env.alloced + 1) as usize, s.env.free[0])),
        )
    }
}

/// Makes a child of the running environment that shares nothing with it yet:
/// a new environment, not runnable, that will resume where its parent
/// entered the kernel, with zero as the value returned. Returns the
/// identifier of the child.
pub fn sys_exofork(k: &mut Kernel) -> (r: i32)
    requires
        old(k).wf(),
        sys_exofork_ok(old(k)@),
    ensures
        final(k).wf(),
        (final(k)@, r) == spec_sys_exofork(old(k)@),
{
    let cur_env_ind = match k.em.cur_env_ind() {
        Some(c) => c,
        None => 0,
    };
    let parent = *k.em.get_env(cur_env_ind);
    let envid = match env_alloc(&mut k.em, &mut k.fa, parent.env_id) {
        Ok(id) => id,
        Err(e) => {
            return e.errno();
        },
    };
    proof {
        assert(old(k)@.env.free[0] < NENV);
        crate::env::lemma_mkenvid_envx((old(k)@.env.alloced + 1) as usize, old(k)@.env.free[0]);
    }
    let env_ind = envid.envx();
    let mut env = *k.em.get_env(env_ind);
    env.env_pri = parent.env_pri;
    let tf = k.em.trap_tf();
    env.load_tf(&tf);
    env.env_tf.regs[REG_V0] = 0;
    env.env_status = EnvStatus::NotRunnable;
    proof {
        let want = forked_env(k.em@.envs[env_ind as int], parent, tf);
        assert(env.env_tf.regs =~= want.env_tf.regs);
        assert(env.env_tf == want.env_tf);
        assert(env == want);
    }
    k.em.put_env(env_ind, env);
    #[verifier::truncate]
    (envid.0 as i32)
}

/// The state after `sys_set_env_status` and the value it returns.
pub open spec fn spec_sys_set_env_status(s: KernelState, envid: EnvID, status: EnvStatus) -> (
    KernelState,
    i32,
) {
    if status == EnvStatus::Free {
        (s, errno(Error::Inval))
    } else {
        match spec_envid2ind(s.env, envid, 1) {
            Err(e) => (s, errno(e)),
            Ok(ind) => (KernelState { env: after_set_status(s.env, ind as int, status), ..s }, 0i32),
        }
    }
}

/// Makes the environment that `envid` names runnable or not runnable, and
/// puts it at the tail of the schedule list or takes it off.
pub fn sys_set_env_status(k: &mut Kernel, envid: EnvID, status: EnvStatus) -> (r: i32)
    requires
        old(k).wf(),
        cur_live(old(k)@.env),
    ensures
        final(k).wf(),
        (final(k)@, r) == spec_sys_set_env_status(old(k)@, envid, status),
{
    match status {
        EnvStatus::Free => {
            return Error::Inval.errno();
        },
        _ => {},
    }
    let ind = match k.em.envid2ind(envid, 1) {
        Ok(i) => i,
        Err(e) => {
            return e.errno();
        },
    };
    k.em.set_status(ind, status);
    0
}

/// The number that a system call hands back for a register value.
pub open spec fn reg_value(v: usize) -> i32 {
    v as i32
}

/// The state after `sys_set_trapframe` and the value it returns.
pub open spec fn spec_sys_set_trapframe(s: KernelState, envid: EnvID, tf_va: VirtAddr, tf: Trapframe) -> (
    KernelState,
    i32,
) {
    if illegal_va_range(tf_va, TRAPFRAME_BYTES) {
        (s, errno(Error::Inval))
    } else {
        match spec_envid2ind(s.env, envid, 1) {
            Err(e) => (s, errno(e)),
            Ok(ind) => if ind == s.cur_or_zero() {
                (KernelState { env: EnvState { tf, ..s.env }, ..s }, reg_value(tf.regs[REG_V0 as int]))
            } else {
                (
                    KernelState {
                        env: EnvState {
                            envs: s.env.envs.update(ind as int, Env { env_tf: tf, ..s.env.envs[ind as int] }),
                            ..s.env
                        },
                        ..s
                    },
                    0i32,
                )
            },
        }
    }
}

/// Replaces the saved registers of the environment that `envid` names by
/// `tf`, which the trap entry has read from the user address `tf_va`. For the
/// running environment the registers on the kernel stack are replaced, and
/// the value returned is the one that `tf` holds as return value.
pub fn sys_set_trapframe(k: &mut Kernel, envid: EnvID, tf_va: VirtAddr, tf: &Trapframe) -> (r: i32)
    requires
        old(k).wf(),
        old(k)@.env.cur.is_some(),
    ensures
        final(k).wf(),
        (final(k)@, r) == spec_sys_set_trapframe(old(k)@, envid, tf_va, *tf),
{
    if is_illegal_va_range(tf_va, TRAPFRAME_BYTES) {
        return Error::Inval.errno();
    }
    let ind = match k.em.envid2ind(envid, 1) {
        Ok(i) => i,
        Err(e) => {
            return e.errno();
        },
    };
    let cur_ind = match k.em.cur_env_ind() {
        Some(c) => c,
        None => 0,
    };
    if ind == cur_ind {
        k.em.set_trap_tf(*tf);
        #[verifier::truncate]
        (tf.regs[REG_V0] as i32)
    } else {
        let mut e = *k.em.get_env(ind);
        e.env_tf = *tf;
        k.em.put_env(ind, e);
        0
    }
}

/// The table after the running environment has begun to wait for a
/// message that is to arrive at `dstva`: it is receiving and not runnable,
/// and the registers on the kernel stack hold zero as the value returned.
pub open spec fn ipc_recv_waiting(s: EnvState, dstva: VirtAddr) -> EnvState {
    let cur = s.cur.unwrap() as int;
    let marked = EnvState {
        envs: s.envs.update(cur, Env { env_ipc_receiving: 1, env_ipc_dstva: dstva, ..s.envs[cur] }),
        ..s
    };
    EnvState { tf: with_reg(s.tf, REG_V0 as int, 0), ..after_set_status(marked, cur, EnvStatus::NotRunnable) }
}

/// What `sys_ipc_recv` needs where the address is legal: a running
/// environment in use, and another environment to run.
pub open spec fn sys_ipc_recv_ok(s: KernelState, dstva: VirtAddr) -> bool {
    !(dstva.0 != 0 && illegal_va(dstva)) ==> cur_live(s.env) && sched_ok(ipc_recv_waiting(s.env, dstva), 1)
}

/// Waits for a message: the running environment becomes a receiver that is
/// not runnable, and the scheduler picks the environment that runs next.
/// Returns what has to be restored for that one, or `Inval` for a destination
/// address, other than zero, outside user memory.
pub fn sys_ipc_recv(k: &mut Kernel, dstva: VirtAddr) -> (r: Result<RunTarget, i32>)
    requires
        old(k).wf(),
        sys_ipc_recv_ok(old(k)@, dstva),
    ensures
        final(k).wf(),
        dstva.0 != 0 && illegal_va(dstva) ==> r == Err::<RunTarget, i32>(errno(Error::Inval)) && final(k)@
            == old(k)@,
        !(dstva.0 != 0 && illegal_va(dstva)) ==> {
            let w = ipc_recv_waiting(old(k)@.env, dstva);
            &&& r.is_ok()
            &&& final(k)@ == (KernelState {
                env: after_run(after_sched_pick(w, 1), sched_next(w, 1) as int),
                ..old(k)@
            })
            &&& r.unwrap().tf == final(k)@.env.envs[sched_next(w, 1) as int].env_tf
            &&& r.unwrap().asid == final(k)@.env.envs[sched_next(w, 1) as int].env_asid.0
        },
{
    if !dstva.is_null() && is_illegal_va(dstva) {
        return Err(Error::Inval.errno());
    }
    let cur_ind = match k.em.cur_env_ind() {
        Some(c) => c,
        None => 0,
    };
    let mut env = *k.em.get_env(cur_ind);
    env.env_ipc_receiving = 1;
    env.env_ipc_dstva = dstva;
    k.em.put_env(cur_ind, env);
    k.em.set_status(cur_ind, EnvStatus::NotRunnable);
    let mut tf = k.em.trap_tf();
    tf.regs[REG_V0] = 0;
    proof {
        let want = with_reg(old(k)@.env.tf, REG_V0 as int, 0);
        assert(tf.regs =~= want.regs);
        assert(tf == want);
    }
    k.em.set_trap_tf(tf);
    Ok(env_sched(&mut k.em, 1))
}

/// The table after a message has been delivered to slot `ind`: value,
/// sender and flags are noted, the slot receives no more and is runnable at
/// the tail of the schedule list.
pub open spec fn ipc_delivered(s: EnvState, ind: int, value: usize, perm: usize) -> EnvState {
    let from = s.envs[match s.cur {
        Some(c) => c as int,
        None => 0,
    }].env_id.0;
    let noted = EnvState {
        envs: s.envs.update(
            ind,
            Env {
                env_ipc_value: value,
                env_ipc_from: from,
                env_ipc_perm: PTE_V | perm,
                env_ipc_receiving: 0,
                ..s.envs[ind]
            },
        ),
        ..s
    };
    after_set_status(noted, ind, EnvStatus::Runnable)
}

/// The frame that a send passes on: the one that `srcva` is mapped to in
/// the directory of the sender.
pub open spec fn ipc_source(s: KernelState, srcva: VirtAddr) -> Result<PhysPageNum, Error> {
    match s.env.envs[s.cur_or_zero()].env_pgdir {
        None => Err(Error::Inval),
        Some(d) => match spec_lookup(s.frames, d, srcva) {
            Some(slot) => Ok(PhysPageNum(slot_entry(s.frames, slot).spec_ppn())),
            None => Err(Error::NotMapped),
        },
    }
}

/// Whether a send to `envid` gets as far as delivering the message.
pub open spec fn ipc_delivers(s: KernelState, envid: EnvID, srcva: VirtAddr) -> bool {
    &&& !(srcva.0 != 0 && illegal_va(srcva))
    &&& spec_envid2ind(s.env, envid, 0).is_ok()
    &&& s.env.envs[spec_envid2ind(s.env, envid, 0).unwrap() as int].env_ipc_receiving != 0
}

/// What `sys_ipc_try_send` needs: a running environment in use, and, where
/// a page is passed on, a walk in the sender that stays in memory and what
/// the insertion in the receiver needs.
pub open spec fn sys_ipc_try_send_ok(s: KernelState, envid: EnvID, srcva: VirtAddr) -> bool {
    &&& cur_live(s.env)
    &&& ipc_delivers(s, envid, srcva) && srcva.0 != 0 ==> {
        let target = s.env.envs[spec_envid2ind(s.env, envid, 0).unwrap() as int];
        &&& match s.env.envs[s.cur_or_zero()].env_pgdir {
            Some(d) => walkable(s.frames, d, srcva),
            None => true,
        }
        &&& match ipc_source(s, srcva) {
            Ok(ppn) => match target.env_pgdir {
                Some(dd) => insert_pre(s.frames, dd, ppn, target.env_ipc_dstva),
                None => true,
            },
            Err(_) => true,
        }
    }
}

/// The state after `sys_ipc_try_send` and the value it returns.
pub open spec fn spec_sys_ipc_try_send(
    s: KernelState,
    envid: EnvID,
    value: usize,
    srcva: VirtAddr,
    perm: usize,
) -> (KernelState, i32) {
    if srcva.0 != 0 && illegal_va(srcva) {
        (s, errno(Error::Inval))
    } else {
        match spec_envid2ind(s.env, envid, 0) {
            Err(e) => (s, errno(e)),
            Ok(ind) => {
                let target = s.env.envs[ind as int];
                if target.env_ipc_receiving == 0 {
                    (s, errno(Error::IpcNotRecv))
                } else {
                    let s1 = KernelState { env: ipc_delivered(s.env, ind as int, value, perm), ..s };
                    if srcva.0 == 0 {
                        (s1, 0i32)
                    } else {
                        match ipc_source(s, srcva) {
                            Err(e) => (s1, errno(e)),
                            Ok(ppn) => match target.env_pgdir {
                                None => (s1, 0i32),
                                Some(dd) => (
                                    s1.with_map(
                                        insert_step(s.map(), dd, target.env_asid, ppn, target.env_ipc_dstva, perm),
                                    ),
                                    if insert_runs_out(s.frames, dd, ppn, target.env_ipc_dstva) {
                                        errno(Error::NoMem)
                                    } else {
                                        0i32
                                    },
                                ),
                            },
                        }
                    }
                }
            },
        }
    }
}

/// Sends `value` to the environment that `envid` names, if it is waiting
/// for a message, and makes it runnable. Where `srcva` is not zero, the page
/// that the sender has there is mapped in the receiver at the address it
/// asked for, with the flags `perm`.
pub fn sys_ipc_try_send(k: &mut Kernel, envid: EnvID, value: usize, srcva: VirtAddr, perm: usize) -> (r: i32)
    requires
        old(k).wf(),
        sys_ipc_try_send_ok(old(k)@, envid, srcva),
    ensures
        final(k).wf(),
        (final(k)@, r) == spec_sys_ipc_try_send(old(k)@, envid, value, srcva, perm),
{
    if !srcva.is_null() && is_illegal_va(srcva) {
        return Error::Inval.errno();
    }
    let cur_ind = match k.em.cur_env_ind() {
        Some(c) => c,
        None => 0,
    };
    let cur_env_id = k.em.get_env(cur_ind).env_id;
    let ind = match k.em.envid2ind(envid, 0) {
        Ok(i) => i,
        Err(e) => {
            return e.errno();
        },
    };
    let mut env = *k.em.get_env(ind);
    if env.env_ipc_receiving == 0 {
        return Error::IpcNotRecv.errno();
    }
    env.env_ipc_value = value;
    env.env_ipc_from = cur_env_id.0;
    env.env_ipc_perm = PTE_V | perm;
    env.env_ipc_receiving = 0;
    let dstva = env.env_ipc_dstva;
    let asid = env.env_asid;
    let target_pgdir = env.env_pgdir;
    k.em.put_env(ind, env);
    k.em.set_status(ind, EnvStatus::Runnable);
    if !srcva.is_null() {
        let ppn = match k.em.get_env(cur_ind).env_pgdir {
            Some(pgdir) => match PageTable::lookup_ppn(&k.fa, pgdir, srcva) {
                Ok(p) => p,
                Err(e) => {
                    return e.errno();
                },
            },
            None => {
                return Error::Inval.errno();
            },
        };
        match target_pgdir {
            Some(pgdir) => {
                match PageTable::insert(&mut k.fa, &mut k.tlb, pgdir, asid, ppn, dstva, perm) {
                    Ok(()) => {},
                    Err(e) => {
                        return e.errno();
                    },
                }
            },
            None => {},
        }
    }
    0
}

/// Reads one character from the console without waiting; zero if none is there.
pub fn sys_cgetc(k: &mut Kernel) -> (r: i32)
    requires
        old(k).wf(),
    ensures
        final(k).wf(),
        old(k)@.console.input.len() == 0 ==> r == 0 && final(k)@ == old(k)@,
        old(k)@.console.input.len() > 0 ==> r == old(k)@.console.input[0] && final(k)@ == (KernelState {
            console: ConsoleState { input: old(k)@.console.input.drop_first(), ..old(k)@.console },
            ..old(k)@
        }),
{
    scancharc(&mut k.console) as i32
}

/// Whether the `len` bytes at `pa` lie within the registers of the console
/// or within those of the disk.
pub open spec fn in_device_window(pa: PhysAddr, len: usize) -> bool {
    ||| CONSOLE_ADDR <= pa.0 && pa.0 + len <= CONSOLE_ADDR + CONSOLE_LEN
    ||| DISK_ADDR <= pa.0 && pa.0 + len <= DISK_ADDR + DISK_LEN
}

/// Whether a device access is refused: the user buffer is not in user
/// memory, the registers are not those of console or disk, the width is not
/// 1, 2 or 4, or an address is not a multiple of the width.
pub open spec fn dev_access_refused(va: VirtAddr, pa: PhysAddr, len: usize) -> bool {
    ||| illegal_va_range(va, len)
    ||| !in_device_window(pa, len)
    ||| (len != 1 && len != 2 && len != 4)
    ||| pa.0 % len != 0
    ||| va.0 % len != 0
}

/// Checks a device access.
fn dev_access_ok(va: VirtAddr, pa: PhysAddr, len: usize) -> (r: bool)
    ensures
        r == !dev_access_refused(va, pa, len),
{
    if is_illegal_va_range(va, len) {
        return false;
    }
    let p = pa.as_usize();
    let end = match p.checked_add(len) {
        Some(e) => e,
        None => {
            return false;
        },
    };
    if !(p >= CONSOLE_ADDR && end <= CONSOLE_ADDR + CONSOLE_LEN) && !(p >= DISK_ADDR && end <= DISK_ADDR
        + DISK_LEN) {
        return false;
    }
    if len != 1 && len != 2 && len != 4 {
        return false;
    }
    if p % len != 0 || va.as_usize() % len != 0 {
        return false;
    }
    true
}

/// Grants a write of `len` bytes from the user address `va` to the device
/// register at `pa`, or refuses it with `Inval`.
pub fn sys_write_dev(k: &mut Kernel, va: VirtAddr, pa: PhysAddr, len: usize) -> (r: i32)
    requires
        old(k).wf(),
    ensures
        final(k).wf(),
        dev_access_refused(va, pa, len) ==> r == errno(Error::Inval) && final(k)@ == old(k)@,
        !dev_access_refused(va, pa, len) ==> r == 0 && final(k)@ == (KernelState {
            dev: old(k)@.dev.push(dev_write(va, pa, len)),
            ..old(k)@
        }),
{
    if !dev_access_ok(va, pa, len) {
        return Error::Inval.errno();
    }
    k.dev.write(va, pa, len);
    0
}

/// Grants a read of `len` bytes from the device register at `pa` to the
/// user address `va`, or refuses it with `Inval`.
pub fn sys_read_dev(k: &mut Kernel, va: VirtAddr, pa: PhysAddr, len: usize) -> (r: i32)
    requires
        old(k).wf(),
    ensures
        final(k).wf(),
        dev_access_refused(va, pa, len) ==> r == errno(Error::Inval) && final(k)@ == old(k)@,
        !dev_access_refused(va, pa, len) ==> r == 0 && final(k)@ == (KernelState {
            dev: old(k)@.dev.push(dev_read(va, pa, len)),
            ..old(k)@
        }),
{
    if !dev_access_ok(va, pa, len) {
        return Error::Inval.errno();
    }
    k.dev.read(va, pa, len);
    0
}

/// The state after `sys_shmget` and the value it returns.
pub open spec fn spec_sys_shmget(s: KernelState, key: usize, size: usize) -> (KernelState, i32) {
    let sm = ShmMem { shm: s.shm, frames: s.frames };
    let r = after_shm_get(sm, key, size);
    (
        KernelState { shm: r.shm, frames: r.frames, ..s },
        match shm_get_result(sm, key, size) {
            Ok(id) => id,
            Err(e) => errno(e),
        },
    )
}

/// Finds the shared-memory segment made under `key`, or makes one of `size`
/// bytes. Returns its identifier.
pub fn sys_shmget(k: &mut Kernel, key: usize, size: usize) -> (r: i32)
    requires
        old(k).wf(),
        size + 4096 <= usize::MAX,
    ensures
        final(k).wf(),
        (final(k)@, r) == spec_sys_shmget(old(k)@, key, size),
{
    match shm_get(&mut k.shm, &mut k.fa, key, size) {
        Ok(id) => id,
        Err(e) => e.errno(),
    }
}

/// What `sys_shmat` needs: a running environment, and, where it has a
/// directory, what attaching needs.
pub open spec fn sys_shmat_ok(s: KernelState, id: usize, va: VirtAddr, perm: usize) -> bool {
    &&& s.env.cur.is_some()
    &&& match s.env.envs[s.cur_or_zero()].env_pgdir {
        Some(d) => shm_at_ok(s.shm, s.map(), id, va, s.env.envs[s.cur_or_zero()].env_asid, d, perm),
        None => true,
    }
}

/// The state after `sys_shmat` and the value it returns.
pub open spec fn spec_sys_shmat(s: KernelState, id: usize, va: VirtAddr, perm: usize) -> (KernelState, i32) {
    let e = s.env.envs[s.cur_or_zero()];
    match e.env_pgdir {
        None => (s, 0i32),
        Some(d) => if !shm_exists(s.shm, id) {
            (s, errno(Error::Inval))
        } else {
            let head = s.shm.shms[id as int].head as int;
            let n = s.shm.shms[id as int].nblocks as nat;
            let m = after_shm_map(s.map(), s.shm.blocks, d, va, head, n, e.env_asid, perm);
            if shm_map_fails(s.map(), s.shm.blocks, d, va, head, n, e.env_asid, perm) {
                (s.with_map(m), errno(Error::NoMem))
            } else {
                (
                    KernelState {
                        shm: ShmState {
                            shms: s.shm.shms.update(
                                id as int,
                                Shm {
                                    shm_ref: (s.shm.shms[id as int].shm_ref + 1) as usize,
                                    ..s.shm.shms[id as int]
                                },
                            ),
                            ..s.shm
                        },
                        ..s.with_map(m)
                    },
                    0i32,
                )
            }
        },
    }
}

/// Attaches the shared-memory segment `id` at `va` in the running
/// environment, with the flags `perm`.
pub fn sys_shmat(k: &mut Kernel, id: usize, va: VirtAddr, perm: usize) -> (r: i32)
    requires
        old(k).wf(),
        sys_shmat_ok(old(k)@, id, va, perm),
    ensures
        final(k).wf(),
        (final(k)@, r) == spec_sys_shmat(old(k)@, id, va, perm),
{
    let ind = match k.em.cur_env_ind() {
        Some(c) => c,
        None => 0,
    };
    let env = k.em.get_env(ind);
    match env.env_pgdir {
        Some(pgdir) => {
            match shm_at(&mut k.shm, &mut k.fa, &mut k.tlb, id, va, env.env_asid, pgdir, perm) {
                Ok(()) => {},
                Err(e) => {
                    return e.errno();
                },
            }
        },
        None => {},
    }
    0
}

/// What `sys_shmdt` needs: a running environment, and, where it has a
/// directory, what detaching needs.
pub open spec fn sys_shmdt_ok(s: KernelState, id: usize, va: VirtAddr) -> bool {
    &&& s.env.cur.is_some()
    &&& match s.env.envs[s.cur_or_zero()].env_pgdir {
        Some(d) => shm_dt_ok(s.shm, s.map(), id, va, s.env.envs[s.cur_or_zero()].env_asid, d),
        None => true,
    }
}

/// The state after `sys_shmdt` and the value it returns.
pub open spec fn spec_sys_shmdt(s: KernelState, id: usize, va: VirtAddr) -> (KernelState, i32) {
    let e = s.env.envs[s.cur_or_zero()];
    match e.env_pgdir {
        None => (s, 0i32),
        Some(d) => if !shm_exists(s.shm, id) {
            (s, errno(Error::Inval))
        } else {
            let u = after_shm_unmap(s.map(), d, va, s.shm.shms[id as int].nblocks as nat, e.env_asid);
            let r = after_shm_detach(ShmMem { shm: s.shm, frames: u.frames }, id as int);
            (KernelState { shm: r.shm, frames: r.frames, tlb: u.tlb, ..s }, 0i32)
        },
    }
}

/// Detaches the shared-memory segment `id` from `va` in the running environment.
pub fn sys_shmdt(k: &mut Kernel, id: usize, va: VirtAddr) -> (r: i32)
    requires
        old(k).wf(),
        sys_shmdt_ok(old(k)@, id, va),
    ensures
        final(k).wf(),
        (final(k)@, r) == spec_sys_shmdt(old(k)@, id, va),
{
    let ind = match k.em.cur_env_ind() {
        Some(c) => c,
        None => 0,
    };
    let env = k.em.get_env(ind);
    match env.env_pgdir {
        Some(pgdir) => {
            match shm_dt(&mut k.shm, &mut k.fa, &mut k.tlb, id, va, env.env_asid, pgdir) {
                Ok(()) => {},
                Err(e) => {
                    return e.errno();
                },
            }
        },
        None => {},
    }
    0
}

/// The state after `sys_shmctl` and the value it returns.
pub open spec fn spec_sys_shmctl(s: KernelState, id: usize, ctl: usize) -> (KernelState, i32) {
    if ctl != SHM_RMID {
        (s, 0i32)
    } else if s.shm.shms[id as int].nblocks == 0 {
        (s, errno(Error::Inval))
    } else {
        (
            KernelState {
                shm: ShmState {
                    shms: s.shm.shms.update(id as int, Shm { rmid: 1, ..s.shm.shms[id as int] }),
                    ..s.shm
                },
                ..s
            },
            0i32,
        )
    }
}

/// Controls the shared-memory segment `id`: the command `SHM_RMID` marks it
/// for removal at its last detach; any other command does nothing.
pub fn sys_shmctl(k: &mut Kernel, id: usize, ctl: usize) -> (r: i32)
    requires
        old(k).wf(),
        ctl == SHM_RMID ==> id < SHMMNI,
    ensures
        final(k).wf(),
        (final(k)@, r) == spec_sys_shmctl(old(k)@, id, ctl),
{
    if ctl == SHM_RMID {
        match shm_rmid(&mut k.shm, id) {
            Ok(()) => {},
            Err(e) => {
                return e.errno();
            },
        }
    }
    0
}

/// Opens semaphore `id` with the value `n` if its slot is free.
pub fn sys_semopen(k: &mut Kernel, id: usize, n: isize) -> (r: i32)
    requires
        old(k).wf(),
        id < SEM_NUM,
    ensures
        final(k).wf(),
        r == 0,
        final(k)@ == (KernelState { sem: after_sem_open(old(k)@.sem, id as int, n), ..old(k)@ }),
{
    k.sem.sem_open(id, n);
    0
}

/// Takes one unit of semaphore `id` without waiting: 0 if it did, 1 if none
/// was there.
pub fn sys_semwait(k: &mut Kernel, id: usize) -> (r: i32)
    requires
        old(k).wf(),
        id < SEM_NUM,
        old(k)@.sem.values[id as int] > isize::MIN,
    ensures
        final(k).wf(),
        r == (if old(k)@.sem.values[id as int] == 0 {
            1i32
        } else {
            0i32
        }),
        final(k)@ == (KernelState { sem: after_sem_wait(old(k)@.sem, id as int), ..old(k)@ }),
{
    k.sem.sem_wait(id)
}

/// Adds one unit to semaphore `id`.
pub fn sys_sempost(k: &mut Kernel, id: usize)
    requires
        old(k).wf(),
        id < SEM_NUM,
        old(k)@.sem.values[id as int] < isize::MAX,
    ensures
        final(k).wf(),
        final(k)@ == (KernelState { sem: after_sem_post(old(k)@.sem, id as int), ..old(k)@ }),
{
    k.sem.sem_post(id);
}

/// Marks the slot of semaphore `id` free.
pub fn sys_semkill(k: &mut Kernel, id: usize)
    requires
        old(k).wf(),
        id < SEM_NUM,
    ensures
        final(k).wf(),
        final(k)@ == (KernelState {
            sem: SemState { free: old(k)@.sem.free.update(id as int, 1), ..old(k)@.sem },
            ..old(k)@
        }),
{
    k.sem.sem_free(id);
}

/// What the trap entry has read from user memory for a system call: the
/// fourth and the fifth argument from the user stack, the bytes of the buffer
/// that the call names, and the trapframe that it names.
pub struct SyscallInput {
    pub arg4: usize,
    pub arg5: usize,
    pub data: Vec<u8>,
    pub tf: Trapframe,
}

/// The dispatcher of system calls.
pub struct Syscall;

/// The word that a register holds for a value returned.
pub open spec fn ret_word(ret: i32) -> usize {
    ret as usize
}

/// The state on entry to a system call: the saved program counter points
/// past the instruction that trapped.
pub open spec fn entered(s: KernelState) -> KernelState {
    KernelState {
        env: EnvState { tf: Trapframe { cp0_epc: (s.env.tf.cp0_epc + 4) as usize, ..s.env.tf }, ..s.env },
        ..s
    }
}

/// The state in which a system call returns `ret` to its caller.
pub open spec fn returned(s: KernelState, ret: i32) -> KernelState {
    KernelState { env: EnvState { tf: with_reg(s.env.tf, REG_V0 as int, ret_word(ret)), ..s.env }, ..s }
}

/// Argument `i` of the system call, for `i` from 1 to 3.
pub open spec fn sys_arg(s: KernelState, i: int) -> usize {
    s.env.tf.regs[REG_A0 + i]
}

/// The number of the system call.
pub open spec fn sys_number(s: KernelState) -> usize {
    s.env.tf.regs[REG_A0 as int]
}

/// The signed number that an argument stands for.
pub open spec fn signed_arg(v: usize) -> isize {
    v as isize
}

/// The character that an argument stands for.
pub open spec fn char_arg(v: usize) -> i32 {
    v as i32
}

/// The status that an argument stands for.
pub open spec fn status_arg(v: usize) -> EnvStatus {
    if v == 0 {
        EnvStatus::Free
    } else if v == 1 {
        EnvStatus::Runnable
    } else {
        EnvStatus::NotRunnable
    }
}

/// Whether the system call numbered `no` hands the processor on instead of
/// returning to its caller.
pub open spec fn sys_switches(s: KernelState, no: usize) -> bool {
    ||| no == 3
    ||| no == 14 && !(sys_arg(s, 1) != 0 && illegal_va(VirtAddr(sys_arg(s, 1))))
    ||| no == 4 && match spec_envid2ind(s.env, EnvID(sys_arg(s, 1)), 1) {
        Ok(ind) => s.env.cur == Some(ind),
        Err(_) => false,
    }
}

/// What the system call numbered `no` needs, in the state on entry.
pub open spec fn sys_call_ok(s: KernelState, no: usize, arg4: usize, arg5: usize, data: Seq<u8>) -> bool {
    let a1 = sys_arg(s, 1);
    let a2 = sys_arg(s, 2);
    let a3 = sys_arg(s, 3);
    &&& no != 12
    &&& no == 1 ==> (!illegal_va_range(VirtAddr(a1), a2) ==> data.len() == a2)
    &&& no == 3 ==> sched_ok(s.env, 1)
    &&& no == 4 ==> sys_env_destroy_ok(s, EnvID(a1))
    &&& no == 5 ==> s.env.cur.is_some()
    &&& no == 6 ==> sys_mem_alloc_ok(s, EnvID(a1), VirtAddr(a2))
    &&& no == 7 ==> sys_mem_map_ok(s, EnvID(a1), VirtAddr(a2), EnvID(a3), VirtAddr(arg4))
    &&& no == 8 ==> sys_mem_unmap_ok(s, EnvID(a1), VirtAddr(a2))
    &&& no == 9 ==> sys_exofork_ok(s)
    &&& no == 10 ==> cur_live(s.env)
    &&& no == 11 ==> s.env.cur.is_some()
    &&& no == 13 ==> sys_ipc_try_send_ok(s, EnvID(a1), VirtAddr(a3))
    &&& no == 14 ==> sys_ipc_recv_ok(s, VirtAddr(a1))
    &&& no == 18 ==> a2 + 4096 <= usize::MAX
    &&& no == 19 ==> sys_shmat_ok(s, a1, VirtAddr(a2), a3)
    &&& no == 20 ==> sys_shmdt_ok(s, a1, VirtAddr(a2))
    &&& no == 21 ==> (a2 == SHM_RMID ==> a1 < SHMMNI)
    &&& no == 22 || no == 23 || no == 24 || no == 25 ==> a1 < SEM_NUM
    &&& no == 23 ==> s.sem.values[a1 as int] > isize::MIN
    &&& no == 24 ==> s.sem.values[a1 as int] < isize::MAX
}

/// What `do_syscall` needs: for a number that names a system call, the
/// program counter can be advanced, and the call finds what it needs.
pub open spec fn do_syscall_ok(s: KernelState, arg4: usize, arg5: usize, data: Seq<u8>) -> bool {
    sys_number(s) < SYS_NO ==> s.env.tf.cp0_epc + 4 <= usize::MAX && sys_call_ok(
        entered(s),
        sys_number(s),
        arg4,
        arg5,
        data,
    )
}

/// The state after a system call that returns to its caller, and the value
/// it returns, from the state on entry.
pub open spec fn sys_call_effect(
    s: KernelState,
    no: usize,
    arg4: usize,
    arg5: usize,
    data: Seq<u8>,
    utf: Trapframe,
) -> (KernelState, i32) {
    let a1 = sys_arg(s, 1);
    let a2 = sys_arg(s, 2);
    let a3 = sys_arg(s, 3);
    if no == 0 {
        (
            KernelState {
                console: ConsoleState {
                    output: s.console.output + expand_newline(char_arg(a1) as u8),
                    ..s.console
                },
                ..s
            },
            0i32,
        )
    } else if no == 1 {
        if illegal_va_range(VirtAddr(a1), a2) {
            (s, errno(Error::Inval))
        } else {
            (
                KernelState {
                    console: ConsoleState { output: s.console.output + expand_all(data), ..s.console },
                    ..s
                },
                0i32,
            )
        }
    } else if no == 2 {
        (
            s,
            envid_value(
                match s.env.cur {
                    Some(c) => s.env.envs[c as int].env_id,
                    None => EnvID(0),
                },
            ),
        )
    } else if no == 4 {
        match spec_envid2ind(s.env, EnvID(a1), 1) {
            Ok(ind) => (
                KernelState {
                    env: after_destroy(s.env, ind as int),
                    ..s.with_map(after_free_memory(s.map(), s.env.envs[ind as int]))
                },
                0i32,
            ),
            Err(e) => (s, errno(e)),
        }
    } else if no == 5 {
        match spec_envid2ind(s.env, EnvID(a1), 1) {
            Ok(ind) => (
                KernelState {
                    env: EnvState {
                        envs: s.env.envs.update(
                            ind as int,
                            Env { env_user_tlb_mod_entry: a2, ..s.env.envs[ind as int] },
                        ),
                        ..s.env
                    },
                    ..s
                },
                0i32,
            ),
            Err(e) => (s, errno(e)),
        }
    } else if no == 6 {
        spec_sys_mem_alloc(s, EnvID(a1), VirtAddr(a2), a3)
    } else if no == 7 {
        spec_sys_mem_map(s, EnvID(a1), VirtAddr(a2), EnvID(a3), VirtAddr(arg4), arg5)
    } else if no == 8 {
        spec_sys_mem_unmap(s, EnvID(a1), VirtAddr(a2))
    } else if no == 9 {
        spec_sys_exofork(s)
    } else if no == 10 {
        spec_sys_set_env_status(s, EnvID(a1), status_arg(a2))
    } else if no == 11 {
        spec_sys_set_trapframe(s, EnvID(a1), VirtAddr(a2), utf)
    } else if no == 13 {
        spec_sys_ipc_try_send(s, EnvID(a1), a2, VirtAddr(a3), arg4)
    } else if no == 14 {
        (s, errno(Error::Inval))
    } else if no == 15 {
        if s.console.input.len() == 0 {
            (s, 0i32)
        } else {
            (
                KernelState {
                    console: ConsoleState { input: s.console.input.drop_first(), ..s.console },
                    ..s
                },
                s.console.input[0] as i32,
            )
        }
    } else if no == 16 {
        if dev_access_refused(VirtAddr(a1), PhysAddr(a2), a3) {
            (s, errno(Error::Inval))
        } else {
            (KernelState { dev: s.dev.push(dev_write(VirtAddr(a1), PhysAddr(a2), a3)), ..s }, 0i32)
        }
    } else if no == 17 {
        if dev_access_refused(VirtAddr(a1), PhysAddr(a2), a3) {
            (s, errno(Error::Inval))
        } else {
            (KernelState { dev: s.dev.push(dev_read(VirtAddr(a1), PhysAddr(a2), a3)), ..s }, 0i32)
        }
    } else if no == 18 {
        spec_sys_shmget(s, a1, a2)
    } else if no == 19 {
        spec_sys_shmat(s, a1, VirtAddr(a2), a3)
    } else if no == 20 {
        spec_sys_shmdt(s, a1, VirtAddr(a2))
    } else if no == 21 {
        spec_sys_shmctl(s, a1, a2)
    } else if no == 22 {
        (KernelState { sem: after_sem_open(s.sem, a1 as int, signed_arg(a2)), ..s }, 0i32)
    } else if no == 23 {
        (
            KernelState { sem: after_sem_wait(s.sem, a1 as int), ..s },
            if s.sem.values[a1 as int] == 0 {
                1i32
            } else {
                0i32
            },
        )
    } else if no == 24 {
        (KernelState { sem: after_sem_post(s.sem, a1 as int), ..s }, 0i32)
    } else {
        (KernelState { sem: SemState { free: s.sem.free.update(a1 as int, 1), ..s.sem }, ..s }, 0i32)
    }
}

/// The state after a system call that hands the processor on, from the
/// state on entry.
pub open spec fn sys_switch_effect(s: KernelState, no: usize) -> KernelState {
    if no == 3 {
        KernelState { env: after_run(after_sched_pick(s.env, 1), sched_next(s.env, 1) as int), ..s }
    } else if no == 14 {
        let w = ipc_recv_waiting(s.env, VirtAddr(sys_arg(s, 1)));
        KernelState { env: after_run(after_sched_pick(w, 1), sched_next(w, 1) as int), ..s }
    } else {
        sys_call_effect(s, no, 0, 0, Seq::empty(), s.env.tf).0
    }
}

/// The state after `do_syscall`. A number that names no system call gives
/// `NoSys`. Else the program counter is advanced and the call is made; where
/// it returns to its caller, the value returned is put in the register for it.
pub open spec fn spec_do_syscall(
    s: KernelState,
    arg4: usize,
    arg5: usize,
    data: Seq<u8>,
    utf: Trapframe,
) -> KernelState {
    let no = sys_number(s);
    if no >= SYS_NO {
        returned(s, errno(Error::NoSys))
    } else if sys_switches(entered(s), no) {
        sys_switch_effect(entered(s), no)
    } else {
        let e = sys_call_effect(entered(s), no, arg4, arg5, data, utf);
        returned(e.0, e.1)
    }
}

impl Syscall {
    /// Handles the system call that the trapframe on the kernel stack asks
    /// for. Returns what has to be restored where another environment runs
    /// next, and `None` where the call returns to its caller.
    pub fn do_syscall(&self, k: &mut Kernel, input: &SyscallInput) -> (r: Option<RunTarget>)
        requires
            old(k).wf(),
            do_syscall_ok(old(k)@, input.arg4, input.arg5, input.data@),
        ensures
            final(k).wf(),
            final(k)@ == spec_do_syscall(old(k)@, input.arg4, input.arg5, input.data@, input.tf),
            r.is_some() == (sys_number(old(k)@) < SYS_NO && sys_switches(
                entered(old(k)@),
                sys_number(old(k)@),
            )),
            r.is_some() ==> final(k)@.env.cur.is_some() && r.unwrap().tf == final(k)@.env.envs[final(k)@.env.cur.unwrap() as int].env_tf && r.unwrap().asid == final(k)@.env.envs[final(k)@.env.cur.unwrap() as int].env_asid.0,
    {
        let mut tf = k.em.trap_tf();
        let sysno = tf.regs[REG_A0];
        if sysno >= SYS_NO {
            put_return(k, Error::NoSys.errno());
            return None;
        }
        tf.cp0_epc += 4;
        k.em.set_trap_tf(tf);
        let arg1 = tf.regs[5];
        let arg2 = tf.regs[6];
        let arg3 = tf.regs[7];
        let arg4 = input.arg4;
        let arg5 = input.arg5;
        let ghost s1 = k@;
        proof {
            assert(s1 == entered(old(k)@));
        }
        let ret: i32 = match SyscallID::from(sysno) {
            SyscallID::Putchar => {
                sys_putchar(k, #[verifier::truncate] (arg1 as i32));
                0
            },
            SyscallID::PrintCons => sys_print_cons(k, VirtAddr::new(arg1), arg2, &input.data),
            SyscallID::GetEnvID => {
                let id = sys_get_envid(k);
                #[verifier::truncate]
                (id.0 as i32)
            },
            SyscallID::Yield => {
                return Some(sys_yield(k));
            },
            SyscallID::EnvDestroy => {
                let (v, run) = sys_env_destroy(k, EnvID::new(arg1));
                match run {
                    Some(t) => {
                        return Some(t);
                    },
                    None => v,
                }
            },
            SyscallID::SetTlbModEntry => sys_set_tlb_mod_entry(k, EnvID::new(arg1), arg2),
            SyscallID::MemAlloc => sys_mem_alloc(k, EnvID::new(arg1), VirtAddr::new(arg2), arg3),
            SyscallID::MemMap => sys_mem_map(
                k,
                EnvID::new(arg1),
                VirtAddr::new(arg2),
                EnvID::new(arg3),
                VirtAddr::new(arg4),
                arg5,
            ),
            SyscallID::MemUnmap => sys_mem_unmap(k, EnvID::new(arg1), VirtAddr::new(arg2)),
            SyscallID::Exofork => sys_exofork(k),
            SyscallID::SetEnvStatus => sys_set_env_status(k, EnvID::new(arg1), EnvStatus::from(arg2)),
            SyscallID::SetTrapframe => sys_set_trapframe(k, EnvID::new(arg1), VirtAddr::new(arg2), &input.tf),
            SyscallID::Panic => 0,
            SyscallID::IpcTrySend => sys_ipc_try_send(k, EnvID::new(arg1), arg2, VirtAddr::new(arg3), arg4),
            SyscallID::IpcRecv => {
                match sys_ipc_recv(k, VirtAddr::new(arg1)) {
                    Ok(t) => {
                        return Some(t);
                    },
                    Err(v) => v,
                }
            },
            SyscallID::CGetC => sys_cgetc(k),
            SyscallID::WriteDev => sys_write_dev(k, VirtAddr::new(arg1), PhysAddr::new(arg2), arg3),
            SyscallID::ReadDev => sys_read_dev(k, VirtAddr::new(arg1), PhysAddr::new(arg2), arg3),
            SyscallID::ShmGet => sys_shmget(k, arg1, arg2),
            SyscallID::ShmAt => sys_shmat(k, arg1, VirtAddr::new(arg2), arg3),
            SyscallID::ShmDt => sys_shmdt(k, arg1, VirtAddr::new(arg2)),
            SyscallID::ShmCtl => sys_shmctl(k, arg1, arg2),
            SyscallID::SemOpen => sys_semopen(k, arg1, #[verifier::truncate] (arg2 as isize)),
            SyscallID::SemWait => sys_semwait(k, arg1),
            SyscallID::SemPost => {
                sys_sempost(k, arg1);
                0
            },
            SyscallID::SemKill => {
                sys_semkill(k, arg1);
                0
            },
            SyscallID::SysNo => 0,
        };
        proof {
            assert((k@, ret) == sys_call_effect(s1, sysno, arg4, arg5, input.data@, input.tf));
        }
        put_return(k, ret);
        None
    }
}

/// Puts the value that a system call returns in the register for it.
fn put_return(k: &mut Kernel, ret: i32)
    requires
        old(k).wf(),
    ensures
        final(k).wf(),
        final(k)@ == returned(old(k)@, ret),
{
    let mut tf = k.em.trap_tf();
    tf.regs[REG_V0] = #[verifier::truncate] (ret as usize);
    proof {
        let want = with_reg(old(k)@.env.tf, REG_V0 as int, ret_word(ret));
        assert(tf.regs =~= want.regs);
        assert(tf == want);
    }
    k.em.set_trap_tf(tf);
}

/// Handles the system call that the trapframe on the kernel stack asks for.
pub fn do_syscall(k: &mut Kernel, input: &SyscallInput) -> (r: Option<RunTarget>)
    requires
        old(k).wf(),
        do_syscall_ok(old(k)@, input.arg4, input.arg5, input.data@),
    ensures
        final(k).wf(),
        final(k)@ == spec_do_syscall(old(k)@, input.arg4, input.arg5, input.data@, input.tf),
        r.is_some() == (sys_number(old(k)@) < SYS_NO && sys_switches(entered(old(k)@), sys_number(old(k)@))),
        r.is_some() ==> final(k)@.env.cur.is_some() && r.unwrap().tf == final(k)@.env.envs[final(k)@.env.cur.unwrap() as int].env_tf && r.unwrap().asid == final(k)@.env.envs[final(k)@.env.cur.unwrap() as int].env_asid.0,
{
    Syscall.do_syscall(k, input)
}

/// Handles a TLB miss of the running environment at `va`: fills `entries`
/// with the pair of words to load, supplying a page where none is mapped.
/// Nothing happens where the running environment has no directory.
pub fn _do_tlb_refill(k: &mut Kernel, entries: &mut [usize; 2], va: VirtAddr, asid: ASID)
    requires
        old(k).wf(),
        old(k)@.env.cur.is_some(),
        match old(k)@.env.envs[old(k)@.cur_or_zero()].env_pgdir {
            Some(d) => refill_ok(old(k)@.frames, d, va),
            None => true,
        },
    ensures
        final(k).wf(),
        match old(k)@.env.envs[old(k)@.cur_or_zero()].env_pgdir {
            Some(d) => {
                &&& final(k)@ == old(k)@.with_map(
                    after_refill(
                        MapState { frames: old(k)@.frames, tlb: old(k)@.tlb.push(tlb_entry(asid, va)) },
                        d,
                        asid,
                        va,
                    ),
                )
                &&& spec_lookup(final(k)@.frames, d, va).is_some()
                &&& (final(entries)[0], final(entries)[1]) == refill_pair(
                    final(k)@.frames,
                    spec_lookup(final(k)@.frames, d, va).unwrap(),
                )
            },
            None => final(k)@ == old(k)@ && *final(entries) == *old(entries),
        },
{
    match crate::env::cur_pgdir(&k.em) {
        Some(pgdir) => {
            PageTable::do_tlb_refill(&mut k.fa, &mut k.tlb, pgdir, entries, va, asid);
        },
        None => {},
    }
}

/// Hands a write fault on a page that is not writable to the handler that
/// the running environment has registered: the trapframe on the kernel stack
/// is redirected to the handler. Returns the copy of the faulting state and
/// the address on the user exception stack at which it is to be stored.
pub fn do_tlb_mod(k: &mut Kernel) -> (r: SavedFrame)
    requires
        old(k).wf(),
        old(k)@.env.cur.is_some(),
        old(k)@.env.envs[old(k)@.cur_or_zero()].env_user_tlb_mod_entry != 0,
    ensures
        final(k).wf(),
        r.frame == old(k)@.env.tf,
        r.at.0 == fault_frame_addr(old(k)@.env.tf.regs[REG_SP as int]),
        final(k)@ == (KernelState {
            env: EnvState {
                tf: fault_handler_frame(
                    old(k)@.env.tf,
                    old(k)@.env.envs[old(k)@.cur_or_zero()].env_user_tlb_mod_entry,
                ),
                ..old(k)@.env
            },
            ..old(k)@
        }),
{
    let entry = crate::env::user_tlb_mod_entry(&k.em);
    let mut tf = k.em.trap_tf();
    let saved = tf.do_tlb_mod(entry);
    k.em.set_trap_tf(tf);
    saved
}

/// Whether `sys_exofork` finds what it needs.
pub fn sys_exofork_admissible(k: &Kernel) -> (r: bool)
    requires
        k.wf(),
    ensures
        r == sys_exofork_ok(k@),
{
    let succeeds = k.em.free_order().len() > 0 && k.fa.num_free() > 0 && k.em.asid_available();
    !succeeds || (k.em.base_pgdir().as_usize() < k.fa.num_frames() && k.em.alloced() < usize::MAX)
}

/// Whether `sys_mem_unmap` finds what it needs.
pub fn sys_mem_unmap_admissible(k: &Kernel, envid: EnvID, va: VirtAddr) -> (r: bool)
    requires
        k.wf(),
    ensures
        r == sys_mem_unmap_ok(k@, envid, va),
{
    if k.em.cur_env_ind().is_none() {
        return false;
    }
    if is_illegal_va(va) {
        return true;
    }
    match k.em.envid2ind(envid, 1) {
        Ok(ind) => match k.em.get_env(ind).env_pgdir {
            Some(d) => PageTable::remove_admissible(&k.fa, d, va),
            None => true,
        },
        Err(_) => true,
    }
}

/// Whether `sys_mem_map` finds what it needs.
pub fn sys_mem_map_admissible(k: &Kernel, srcid: EnvID, srcva: VirtAddr, dstid: EnvID, dstva: VirtAddr) -> (r:
    bool)
    requires
        k.wf(),
    ensures
        r == sys_mem_map_ok(k@, srcid, srcva, dstid, dstva),
{
    if k.em.cur_env_ind().is_none() {
        return false;
    }
    if is_illegal_va(srcva) || is_illegal_va(dstva) {
        return true;
    }
    let srcind = match k.em.envid2ind(srcid, 1) {
        Ok(i) => i,
        Err(_) => {
            return true;
        },
    };
    let dstind = match k.em.envid2ind(dstid, 1) {
        Ok(i) => i,
        Err(_) => {
            return true;
        },
    };
    let d = match k.em.get_env(srcind).env_pgdir {
        Some(d) => d,
        None => {
            return true;
        },
    };
    if !PageTable::walk_admissible(&k.fa, d, srcva) {
        return false;
    }
    match PageTable::lookup_ppn(&k.fa, d, srcva) {
        Ok(ppn) => match k.em.get_env(dstind).env_pgdir {
            Some(dd) => PageTable::insert_admissible(&k.fa, dd, ppn, dstva),
            None => true,
        },
        Err(_) => true,
    }
}

/// Whether `sys_ipc_try_send` finds what it needs.
pub fn sys_ipc_try_send_admissible(k: &Kernel, envid: EnvID, srcva: VirtAddr) -> (r: bool)
    requires
        k.wf(),
    ensures
        r == sys_ipc_try_send_ok(k@, envid, srcva),
{
    let cur = match k.em.cur_env_ind() {
        Some(c) => c,
        None => {
            return false;
        },
    };
    match k.em.get_env(cur).env_status {
        EnvStatus::Free => {
            return false;
        },
        _ => {},
    }
    if srcva.is_null() || is_illegal_va(srcva) {
        return true;
    }
    let ind = match k.em.envid2ind(envid, 0) {
        Ok(i) => i,
        Err(_) => {
            return true;
        },
    };
    let target = k.em.get_env(ind);
    if target.env_ipc_receiving == 0 {
        return true;
    }
    let d = match k.em.get_env(cur).env_pgdir {
        Some(d) => d,
        None => {
            return true;
        },
    };
    if !PageTable::walk_admissible(&k.fa, d, srcva) {
        return false;
    }
    match PageTable::lookup_ppn(&k.fa, d, srcva) {
        Ok(ppn) => match target.env_pgdir {
            Some(dd) => PageTable::insert_admissible(&k.fa, dd, ppn, target.env_ipc_dstva),
            None => true,
        },
        Err(_) => true,
    }
}

/// Whether `sys_mem_alloc` finds what it needs.
pub fn sys_mem_alloc_admissible(k: &Kernel, envid: EnvID, va: VirtAddr) -> (r: bool)
    requires
        k.wf(),
    ensures
        r == sys_mem_alloc_ok(k@, envid, va),
{
    if k.em.cur_env_ind().is_none() {
        return false;
    }
    if is_illegal_va(va) {
        return true;
    }
    let p = match k.fa.next_free() {
        Some(p) => p,
        None => {
            return true;
        },
    };
    let d = match k.em.envid2ind(envid, 1) {
        Ok(ind) => match k.em.get_env(ind).env_pgdir {
            Some(d) => d,
            None => {
                return true;
            },
        },
        Err(_) => {
            return true;
        },
    };
    proof {
        let f = k@.frames;
        let a = f.after_alloc();
        lemma_passive_fresh(f);
        lemma_alloc_not_free(f);
        lemma_installed_perm(0);
        assert(f.refs[p.0 as int] == 0);
        assert(zero_table().len() == 1024);
        assert forall|x: int, i: int| 0 <= x < f.nframes() && 0 <= i < 1024 implies #[trigger] a.entry(x, i)
            == (if x == p.0 {
            Pte(0)
        } else {
            f.entry(x, i)
        }) by {}
    }
    let n = k.fa.num_frames();
    if d.as_usize() >= n {
        return false;
    }
    let pde = if d.as_usize() == p.as_usize() {
        Pte::new(0)
    } else {
        k.fa.read_entry(d, va.pdx())
    };
    if !pde.valid() {
        return true;
    }
    let t = pde.ppn();
    if t.as_usize() >= n {
        return false;
    }
    let pte = if t.as_usize() == p.as_usize() {
        Pte::new(0)
    } else {
        k.fa.read_entry(t, va.ptx())
    };
    if !pte.valid() {
        return true;
    }
    pte.ppn().as_usize() < n && k.fa.refcount(pte.ppn()) > 0
}

/// Whether `sys_ipc_recv` finds what it needs.
pub fn sys_ipc_recv_admissible(k: &Kernel, dstva: VirtAddr) -> (r: bool)
    requires
        k.wf(),
    ensures
        r == sys_ipc_recv_ok(k@, dstva),
{
    if !dstva.is_null() && is_illegal_va(dstva) {
        return true;
    }
    let cur = match k.em.cur_env_ind() {
        Some(c) => c,
        None => {
            return false;
        },
    };
    let runnable = match k.em.get_env(cur).env_status {
        EnvStatus::Free => {
            return false;
        },
        EnvStatus::Runnable => true,
        EnvStatus::NotRunnable => false,
    };
    if k.em.count() == isize::MIN {
        return false;
    }
    let order = k.em.sched_order();
    proof {
        let s = k@.env;
        let c = cur as int;
        let marked = EnvState {
            envs: s.envs.update(c, Env { env_ipc_receiving: 1, env_ipc_dstva: dstva, ..s.envs[c] }),
            ..s
        };
        crate::env::lemma_wf_same_keys(s, marked);
        crate::env::lemma_sched_without_head(marked, c);
        crate::env::lemma_sched_without(marked, c);
        let w = ipc_recv_waiting(s, dstva);
        assert(w.sched == crate::env::sched_without(marked, c));
        assert(crate::env::sched_rotated(w) == w.sched);
        if order@.len() > 0 {
            assert(order@[0] < NENV);
        }
        if order@.len() > 1 {
            assert(order@[1] < NENV);
        }
    }
    let next = if runnable {
        if order.len() < 2 {
            return false;
        }
        if order[0] == cur {
            order[1]
        } else {
            order[0]
        }
    } else {
        if order.len() == 0 {
            return false;
        }
        order[0]
    };
    let e = k.em.get_env(next);
    e.env_pri <= isize::MAX as usize && e.env_runs < usize::MAX
}

/// A fork that finds a slot, a frame and an identifier returns the
/// identifier of the child, a positive number. The child stands in the slot
/// that headed the free list, under that identifier and with the caller as
/// its parent. It is not runnable, and its saved registers are those that the
/// caller had on entry to the kernel, but for the return value, which is
/// zero. The slot of a caller that is in use stays as it was, and so do the
/// registers it entered with. This holds while fewer than 2^20 identifiers
/// have been made.
pub proof fn lemma_exofork_child(s: KernelState)
    requires
        s.env.wf(),
        alloc_succeeds(s.env, s.frames),
        s.env.alloced + 1 < 0x10_0000,
    ensures
        spec_sys_exofork(s).1 > 0,
        spec_sys_exofork(s).1 == spec_sys_exofork(s).0.env.envs[s.env.free[0] as int].env_id.0,
        spec_envx(spec_sys_exofork(s).0.env.envs[s.env.free[0] as int].env_id) == s.env.free[0],
        spec_sys_exofork(s).0.env.envs[s.env.free[0] as int].env_parent_id
            == s.env.envs[s.cur_or_zero()].env_id,
        spec_sys_exofork(s).0.env.envs[s.env.free[0] as int].env_status == EnvStatus::NotRunnable,
        spec_sys_exofork(s).0.env.envs[s.env.free[0] as int].env_pri == s.env.envs[s.cur_or_zero()].env_pri,
        spec_sys_exofork(s).0.env.envs[s.env.free[0] as int].env_tf.regs[REG_V0 as int] == 0,
        forall|j: int|
            0 <= j < 32 && j != REG_V0 ==> spec_sys_exofork(s).0.env.envs[s.env.free[0] as int].env_tf.regs[j]
                == s.env.tf.regs[j],
        spec_sys_exofork(s).0.env.envs[s.env.free[0] as int].env_tf.cp0_epc == s.env.tf.cp0_epc,
        spec_sys_exofork(s).0.env.cur == s.env.cur,
        spec_sys_exofork(s).0.env.tf == s.env.tf,
        s.env.live(s.cur_or_zero()) ==> spec_sys_exofork(s).0.env.envs[s.cur_or_zero()]
            == s.env.envs[s.cur_or_zero()],
{
    let i = s.env.free[0];
    let g = (s.env.alloced + 1) as usize;
    assert(i < NENV);
    assert(((g << 11) | i) < 0x8000_0000 && ((g << 11) | i) != 0 && ((g << 11) | i) % 1024 == i)
        by (bit_vector)
        requires
            i < 1024,
            0 < g < 0x10_0000,
    ;
    assert(s.env.free.contains(i));
    assert(s.env.envs[i as int].env_status == EnvStatus::Free);
    match s.env.cur {
        Some(c) => {
            assert(c < NENV);
        },
        None => {},
    }
}

} // verus!
