//! The boot sequence.

use vstd::prelude::*;
use crate::env::{
    after_create, after_init, after_run, after_sched_pick, after_setup, ASID, boot_env_state, create_ok,
    created_env, env_create, env_init, ENV_TABLE_PAGES, EnvState, init_ok, RunTarget, sched_next, sched_ok,
    schedule,
};
use crate::frame::{used_frame_count, boot_state, FrameState, init_memory, MAX_FRAMES};
use crate::loader::{image_header, load_segments};
use crate::mmu::{PAGE_SIZE, PhysAddr, PhysPageNum, PTE_G, UENVS, ULIM, UPAGES, VirtAddr};
use crate::page_table::{after_map_segment, lemma_installed_perm, MapState, Pte, zero_table};
use crate::segment::{fresh_segment, lemma_map_fresh_segment, lemma_segment_frames_distinct, segment_progress};
use crate::sem::SEM_NUM;
use crate::shm::{no_blocks_held, SHMALL, SHMMNI};
use crate::syscall::Kernel;

verus! {

/// The boot sequence of the kernel.
pub struct Init;

/// Where the kernel image and its tables lie, as the boot loader and the
/// linker tell.
#[derive(Clone, Copy, Debug)]
pub struct BootLayout {
    /// Bytes of physical memory.
    pub ram_low_size: usize,
    /// Kernel address of the first byte behind the kernel image.
    pub kernel_end: VirtAddr,
    /// Kernel address of the frame metadata.
    pub frames_addr: VirtAddr,
    /// Kernel address of the environment table.
    pub envs_addr: VirtAddr,
    /// Frame in which the kernel image holds the base directory.
    pub base_pgdir: PhysPageNum,
}

/// Physical memory right after it has been set up.
pub open spec fn boot_frames(l: BootLayout) -> FrameState {
    boot_state((l.ram_low_size / PAGE_SIZE) as int, used_frame_count(l.kernel_end), l.frames_addr)
}

/// Memory and gateway after the environment table has been set up.
pub open spec fn boot_map(l: BootLayout) -> MapState {
    after_init(MapState { frames: boot_frames(l), tlb: Seq::empty() }, l.base_pgdir, l.envs_addr)
}

/// Memory after the directory of the first program has been set up.
pub open spec fn boot_first_space(l: BootLayout) -> MapState {
    MapState { frames: after_setup(boot_map(l).frames, l.base_pgdir), tlb: boot_map(l).tlb }
}

/// The table after the first program has been started.
pub open spec fn boot_first_env(l: BootLayout, first: Seq<u8>) -> EnvState {
    after_create(boot_env_state(l.base_pgdir), PhysPageNum(boot_map(l).frames.free[0]), first, 1)
}

/// Memory and gateway after the first program has been loaded.
pub open spec fn boot_first_map(l: BootLayout, first: Seq<u8>) -> MapState {
    load_segments(
        boot_first_space(l),
        created_env(boot_env_state(l.base_pgdir), PhysPageNum(boot_map(l).frames.free[0]), 1),
        first,
        image_header(first),
        image_header(first).e_phnum as nat,
    )
}

/// The table after both programs have been started.
pub open spec fn boot_second_env(l: BootLayout, first: Seq<u8>, second: Seq<u8>) -> EnvState {
    after_create(boot_first_env(l, first), PhysPageNum(boot_first_map(l, first).frames.free[0]), second, 1)
}

/// Memory and gateway after both programs have been loaded.
pub open spec fn boot_second_map(l: BootLayout, first: Seq<u8>, second: Seq<u8>) -> MapState {
    load_segments(
        MapState {
            frames: after_setup(boot_first_map(l, first).frames, l.base_pgdir),
            tlb: boot_first_map(l, first).tlb,
        },
        created_env(boot_first_env(l, first), PhysPageNum(boot_first_map(l, first).frames.free[0]), 1),
        second,
        image_header(second),
        image_header(second).e_phnum as nat,
    )
}

/// The kernel image fits physical memory and holds the tables of the
/// kernel: the frame metadata, which fill whole pages, the environment table
/// and the base directory lie at page boundaries in the frames of the kernel
/// image, and two frames at least are left over for page tables.
pub open spec fn boot_layout_ok(l: BootLayout) -> bool {
    let n = (l.ram_low_size / PAGE_SIZE) as int;
    let used = used_frame_count(l.kernel_end);
    &&& l.kernel_end.0 >= ULIM
    &&& used + 2 <= n <= MAX_FRAMES
    &&& l.frames_addr.0 >= ULIM
    &&& l.frames_addr.0 % 4096 == 0
    &&& l.envs_addr.0 >= ULIM
    &&& l.envs_addr.0 % 4096 == 0
    &&& (n * 2) % 4096 == 0
    &&& (l.frames_addr.0 - ULIM) / 4096 + (n * 2) / 4096 <= used
    &&& (l.envs_addr.0 - ULIM) / 4096 + ENV_TABLE_PAGES <= used
    &&& l.base_pgdir.0 < used
}

/// Whether the kernel image is laid out well.
pub fn boot_layout_admissible(l: &BootLayout) -> (r: bool)
    ensures
        r == boot_layout_ok(*l),
{
    let n = l.ram_low_size / PAGE_SIZE;
    if l.kernel_end.0 < ULIM || n > MAX_FRAMES {
        return false;
    }
    let pa = l.kernel_end.0 - ULIM;
    let used = if pa % PAGE_SIZE == 0 {
        pa / PAGE_SIZE
    } else {
        pa / PAGE_SIZE + 1
    };
    if used > n || n - used < 2 {
        return false;
    }
    if l.frames_addr.0 < ULIM || l.frames_addr.0 % PAGE_SIZE != 0 || l.envs_addr.0 < ULIM || l.envs_addr.0
        % PAGE_SIZE != 0 {
        return false;
    }
    if (n * 2) % PAGE_SIZE != 0 {
        return false;
    }
    let meta = (l.frames_addr.0 - ULIM) / PAGE_SIZE;
    let envs = (l.envs_addr.0 - ULIM) / PAGE_SIZE;
    if meta > used || used - meta < (n * 2) / PAGE_SIZE {
        return false;
    }
    if envs > used || used - envs < ENV_TABLE_PAGES {
        return false;
    }
    l.base_pgdir.0 < used
}

/// Physical memory right after it has been set up is well formed: the
/// frames of the kernel image are in use with one reference each, the others
/// are free, and every word is zero.
pub proof fn lemma_boot_frames(l: BootLayout)
    requires
        boot_layout_ok(l),
    ensures
        boot_frames(l).wf(),
        boot_frames(l).nframes() == l.ram_low_size / PAGE_SIZE,
        boot_frames(l).free.len() == l.ram_low_size / PAGE_SIZE - used_frame_count(l.kernel_end),
        forall|x: int|
            0 <= x < used_frame_count(l.kernel_end) ==> !boot_frames(l).is_free(x) && #[trigger] boot_frames(
                l,
            ).refs[x] == 1,
        forall|x: int, i: int|
            0 <= x < boot_frames(l).nframes() && 0 <= i < 1024 ==> #[trigger] boot_frames(l).entry(x, i)
                == Pte(0),
{
    let b = boot_frames(l);
    let used = used_frame_count(l.kernel_end);
    assert(zero_table().len() == 1024);
    assert forall|x: int| 0 <= x < used implies !b.is_free(x) && #[trigger] b.refs[x] == 1 by {
        if b.is_free(x) {
            let i = choose|i: int| 0 <= i < b.free.len() && b.free[i] == x;
            assert(b.free[i] == used + i);
        }
    }
}

/// A machine whose kernel image is laid out well gives `EnvManager::init`
/// what it needs.
pub proof fn lemma_boot_init_ok(l: BootLayout, tlb: Seq<usize>)
    requires
        boot_layout_ok(l),
    ensures
        init_ok(MapState { frames: boot_frames(l), tlb }, l.base_pgdir, l.envs_addr),
{
    let s = boot_frames(l);
    let m = MapState { frames: s, tlb };
    let d = l.base_pgdir;
    let n = (l.ram_low_size / PAGE_SIZE) as int;
    let used = used_frame_count(l.kernel_end);
    lemma_boot_frames(l);
    lemma_installed_perm(0);
    let pa1 = PhysAddr((l.frames_addr.0 - ULIM) as usize);
    let n1 = (s.base_size / PAGE_SIZE) as nat;
    assert(s.base_size == n * 2);
    assert(n1 <= 256);
    let va1 = VirtAddr(UPAGES);
    assert(va1.spec_pdx() == 510 && va1.spec_ptx() == 0);
    assert(s.entry(d.0 as int, 510) == Pte(0));
    assert forall|k: int| 0 <= k < n1 implies {
        let f = #[trigger] crate::page_table::segment_frame(pa1, k).0 as int;
        f < s.nframes() && !s.is_free(f) && s.refs[f] < u16::MAX
    } by {
        lemma_segment_frames_distinct(pa1, k + 1, k);
        let f = crate::page_table::segment_frame(pa1, k).0 as int;
        assert(f == pa1.0 / 4096 + k);
        assert(s.refs[f] == 1);
    }
    assert(fresh_segment(s, d, pa1, va1, n1));
    lemma_map_fresh_segment(m, d, ASID(0), pa1, va1, n1, n1, PTE_G);
    let m1 = after_map_segment(m, d, ASID(0), pa1, va1, n1, PTE_G);
    let r = m1.frames;
    assert(segment_progress(s, r, d, pa1, va1, n1, n1));
    let pa2 = PhysAddr((l.envs_addr.0 - ULIM) as usize);
    let va2 = VirtAddr(UENVS);
    let n2 = ENV_TABLE_PAGES as nat;
    assert(va2.spec_pdx() == 509 && va2.spec_ptx() == 0);
    assert(r.entry(d.0 as int, 509) == s.entry(d.0 as int, 509));
    assert forall|k: int| 0 <= k < n2 implies {
        let f = #[trigger] crate::page_table::segment_frame(pa2, k).0 as int;
        f < r.nframes() && !r.is_free(f) && r.refs[f] < u16::MAX
    } by {
        lemma_segment_frames_distinct(pa2, k + 1, k);
        let f = crate::page_table::segment_frame(pa2, k).0 as int;
        assert(f == pa2.0 / 4096 + k);
        assert(s.refs[f] == 1);
        assert(!s.is_free(f));
        assert(r.refs[f] <= s.refs[f] + 1);
    }
    assert(!s.is_free(d.0 as int));
    assert(fresh_segment(r, d, pa2, va2, n2));
    lemma_map_fresh_segment(m1, d, ASID(0), pa2, va2, n2, n2, PTE_G);
}

/// What the boot sequence needs: the kernel image is laid out well, both
/// programs load, and an environment can be scheduled.
pub open spec fn boot_ok(l: BootLayout, first: Seq<u8>, second: Seq<u8>) -> bool {
    &&& boot_layout_ok(l)
    &&& first.len() <= usize::MAX
    &&& second.len() <= usize::MAX
    &&& create_ok(boot_env_state(l.base_pgdir), boot_map(l), first, first.len() as usize, 1)
    &&& create_ok(boot_first_env(l, first), boot_first_map(l, first), second, second.len() as usize, 1)
    &&& sched_ok(boot_second_env(l, first, second), 0)
}

/// Sets up physical memory and every table of a kernel none of whose parts
/// is initialised yet. No environment exists afterwards.
pub fn init_tables(k: &mut Kernel, layout: BootLayout)
    requires
        old(k).em.is_unset(),
        old(k).shm.wf(),
        no_blocks_held(old(k)@.shm.shms),
        old(k)@.sem.values.len() == 0,
        old(k)@.sem.free.len() == SEM_NUM,
        old(k).console.wf(),
        boot_layout_ok(layout),
    ensures
        final(k).wf(),
        final(k)@.frames == after_init(
            MapState { frames: boot_frames(layout), tlb: old(k)@.tlb },
            layout.base_pgdir,
            layout.envs_addr,
        ).frames,
        final(k)@.tlb == after_init(
            MapState { frames: boot_frames(layout), tlb: old(k)@.tlb },
            layout.base_pgdir,
            layout.envs_addr,
        ).tlb,
        final(k)@.env == boot_env_state(layout.base_pgdir),
        final(k)@.shm.blockstop == SHMALL,
        final(k)@.shm.idstop == SHMMNI,
        final(k)@.shm.shms == old(k)@.shm.shms,
        forall|i: int| 0 <= i < SEM_NUM ==> final(k)@.sem.values[i] == 0,
        final(k)@.sem.free == old(k)@.sem.free,
        final(k)@.console == old(k)@.console,
        final(k)@.dev == old(k)@.dev,
{
    proof {
        lemma_boot_init_ok(layout, k@.tlb);
    }
    init_memory(&mut k.fa, layout.ram_low_size, layout.kernel_end, layout.frames_addr);
    env_init(&mut k.em, &mut k.fa, &mut k.tlb, layout.base_pgdir, layout.envs_addr);
    crate::shm::init(&mut k.shm);
    crate::sem::init(&mut k.sem);
}

/// Makes a kernel with physical memory and every table set up and no
/// environment yet, for a machine whose kernel image is laid out well.
pub fn new_kernel(layout: BootLayout) -> (k: Kernel)
    requires
        boot_layout_ok(layout),
    ensures
        k.wf(),
        k@.frames == boot_map(layout).frames,
        k@.tlb == boot_map(layout).tlb,
        k@.env == boot_env_state(layout.base_pgdir),
        k@.shm.blockstop == SHMALL,
        k@.shm.idstop == SHMMNI,
        no_blocks_held(k@.shm.shms),
        forall|i: int| 0 <= i < SEM_NUM ==> k@.sem.values[i] == 0 && k@.sem.free[i] == 1,
        k@.console.output == Seq::<u8>::empty(),
        k@.console.input == Seq::<u8>::empty(),
        k@.dev == Seq::<crate::device::DevCopy>::empty(),
{
    let mut k = Kernel::new();
    init_tables(&mut k, layout);
    k
}

impl Init {
    /// Brings a kernel up, none of whose parts is initialised yet: sets up
    /// physical memory, the environment table, the shared-memory tables and
    /// the semaphores, starts the two programs `first` and `second` with
    /// priority 1, and lets the scheduler pick the environment that runs
    /// first. Returns what has to be restored for it.
    pub fn init(&mut self, k: &mut Kernel, layout: BootLayout, first: &Vec<u8>, second: &Vec<u8>) -> (r:
        RunTarget)
        requires
            old(k).em.is_unset(),
            old(k).shm.wf(),
            no_blocks_held(old(k)@.shm.shms),
            old(k)@.sem.values.len() == 0,
            old(k)@.sem.free.len() == SEM_NUM,
            old(k).console.wf(),
            old(k)@.tlb == Seq::<usize>::empty(),
            boot_ok(layout, first@, second@),
        ensures
            final(k).wf(),
            final(k)@.frames == boot_second_map(layout, first@, second@).frames,
            final(k)@.tlb == boot_second_map(layout, first@, second@).tlb,
            final(k)@.env == after_run(
                after_sched_pick(boot_second_env(layout, first@, second@), 0),
                sched_next(boot_second_env(layout, first@, second@), 0) as int,
            ),
            final(k)@.shm.blockstop == SHMALL,
            final(k)@.shm.idstop == SHMMNI,
            final(k)@.shm.shms == old(k)@.shm.shms,
            forall|i: int| 0 <= i < SEM_NUM ==> final(k)@.sem.values[i] == 0,
            final(k)@.sem.free == old(k)@.sem.free,
            final(k)@.console == old(k)@.console,
            final(k)@.dev == old(k)@.dev,
            r.tf == final(k)@.env.envs[final(k)@.env.cur.unwrap() as int].env_tf,
            r.asid == final(k)@.env.envs[final(k)@.env.cur.unwrap() as int].env_asid.0,
    {
        init_tables(k, layout);
        env_create(&mut k.em, &mut k.fa, &mut k.tlb, first, first.len(), 1);
        env_create(&mut k.em, &mut k.fa, &mut k.tlb, second, second.len(), 1);
        schedule(&mut k.em, 0)
    }
}

} // verus!
