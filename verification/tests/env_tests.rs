use mos::env::{
    cur_pgdir, env_alloc, env_create, env_destroy, env_free, env_init, env_pgdir, env_run, env_sched,
    envid2ind, get_cur_env_id, get_cur_env_ind, insert_sched, pre_env_run, schedule, user_tlb_mod_entry, ASID,
    EnvID, EnvManager, EnvStatus, NENV,
};
use mos::err::Error;
use mos::frame::FrameAllocator;
use mos::mmu::{PhysPageNum, VirtAddr, KSEG0, PAGE_SIZE, PTE_D, PTE_G, PTE_V, UENVS, UPAGES, USTACKTOP, UTEXT};
use mos::page_table::PageTable;
use mos::tlb::Tlb;
use mos::traps::{STATUS_EXL, STATUS_IE, STATUS_IM7, STATUS_UM};

struct Machine {
    fa: FrameAllocator,
    tlb: Tlb,
    em: EnvManager,
}

const USED_FRAMES: usize = 128;
const BASE_PGDIR: usize = 120;

fn boot_machine() -> Machine {
    let mut fa = FrameAllocator::new();
    fa.init(VirtAddr::new(KSEG0 + USED_FRAMES * PAGE_SIZE), 2048, VirtAddr::new(KSEG0 + 64 * PAGE_SIZE));
    let mut tlb = Tlb::new();
    let mut em = EnvManager::new();
    env_init(&mut em, &mut fa, &mut tlb, PhysPageNum::new(BASE_PGDIR), VirtAddr::new(KSEG0 + 65 * PAGE_SIZE));
    Machine { fa, tlb, em }
}

fn spawn_runnable(m: &mut Machine, priority: usize) -> (usize, EnvID) {
    let id = m.em.allocate(&mut m.fa, EnvID::zero()).unwrap();
    let ind = id.envx();
    let mut e = *m.em.get_env(ind);
    e.env_pri = priority;
    m.em.put_env(ind, e);
    m.em.set_status(ind, EnvStatus::Runnable);
    (ind, id)
}

fn live_envs(m: &Machine) -> usize {
    (0..NENV).filter(|i| m.em.get_env(*i).env_status != EnvStatus::Free).count()
}

fn tiny_program(entry: u32, vaddr: u32, data: &[u8], memsz: u32, flags: u32) -> Vec<u8> {
    let mut image = vec![0u8; 52 + 32];
    image[0] = 0x7f;
    image[1] = b'E';
    image[2] = b'L';
    image[3] = b'F';
    image[24..28].copy_from_slice(&entry.to_le_bytes());
    image[28..32].copy_from_slice(&52u32.to_le_bytes());
    image[42..44].copy_from_slice(&32u16.to_le_bytes());
    image[44..46].copy_from_slice(&1u16.to_le_bytes());
    let ph = 52;
    image[ph..ph + 4].copy_from_slice(&1u32.to_le_bytes());
    image[ph + 4..ph + 8].copy_from_slice(&84u32.to_le_bytes());
    image[ph + 8..ph + 12].copy_from_slice(&vaddr.to_le_bytes());
    image[ph + 16..ph + 20].copy_from_slice(&(data.len() as u32).to_le_bytes());
    image[ph + 20..ph + 24].copy_from_slice(&memsz.to_le_bytes());
    image[ph + 24..ph + 28].copy_from_slice(&flags.to_le_bytes());
    image.extend_from_slice(data);
    image
}

#[test]
fn init_frees_every_slot_and_maps_the_windows() {
    let m = boot_machine();
    assert_eq!(m.em.free_order(), (0..NENV).collect::<Vec<usize>>());
    assert!(m.em.sched_order().is_empty());
    assert_eq!(get_cur_env_ind(&m.em), None);
    assert_eq!(get_cur_env_id(&m.em), None);
    assert_eq!(m.em.asid_count(), 0);
    assert_eq!(m.em.envs_size(), 51 * PAGE_SIZE);
    let base = PhysPageNum::new(BASE_PGDIR);
    assert_eq!(
        PageTable::translate(&m.fa, base, VirtAddr::new(UPAGES)).map(|p| p.as_usize()),
        Some(64 * PAGE_SIZE)
    );
    assert_eq!(
        PageTable::translate(&m.fa, base, VirtAddr::new(UENVS + 50 * PAGE_SIZE + 8)).map(|p| p.as_usize()),
        Some((65 + 50) * PAGE_SIZE + 8)
    );
    assert_eq!(PageTable::translate(&m.fa, base, VirtAddr::new(UENVS + 51 * PAGE_SIZE)), None);
    let (_, slot) = PageTable::lookup(&m.fa, base, VirtAddr::new(UPAGES)).unwrap();
    assert_eq!(m.fa.read_entry(slot.table, slot.index).perm() & PTE_G, PTE_G);
    assert_eq!(m.fa.num_free(), 2048 - USED_FRAMES - 2);
}

#[test]
fn allocation_fills_the_slot() {
    let mut m = boot_machine();
    let free_before = m.fa.num_free();
    let id = env_alloc(&mut m.em, &mut m.fa, EnvID::new(77)).unwrap();
    assert_eq!(id, EnvID::new((1 << 11) | 0));
    let e = *m.em.get_env(0);
    assert_eq!(e.env_id, id);
    assert_eq!(e.env_parent_id, EnvID::new(77));
    assert_eq!(e.env_asid, ASID::new(0));
    assert_eq!(e.env_status, EnvStatus::NotRunnable);
    assert_eq!(e.env_user_tlb_mod_entry, 0);
    assert_eq!(e.env_runs, 0);
    assert_eq!(e.env_tf.cp0_status, STATUS_IM7 | STATUS_IE | STATUS_EXL | STATUS_UM);
    assert_eq!(e.env_tf.regs[29], USTACKTOP - 8);
    assert_eq!(m.fa.num_free(), free_before - 1);
    let pgdir = e.env_pgdir.unwrap();
    assert_eq!(env_pgdir(&m.em, 0), Some(pgdir));
    assert_eq!(m.fa.refcount(pgdir), 1);
    let base = PhysPageNum::new(BASE_PGDIR);
    assert_eq!(m.fa.read_entry(pgdir, 509), m.fa.read_entry(base, 509));
    assert_eq!(m.fa.read_entry(pgdir, 510), m.fa.read_entry(base, 510));
    assert!(m.fa.read_entry(pgdir, 509).valid());
    assert_eq!(m.fa.read_entry(pgdir, 511).ppn(), pgdir);
    assert_eq!(m.fa.read_entry(pgdir, 511).perm(), PTE_V);
    assert_eq!(m.em.free_order()[0], 1);
    assert!(m.em.asid_used(ASID::new(0)));
    assert!(!m.em.asid_used(ASID::new(1)));
    let second = env_alloc(&mut m.em, &mut m.fa, id).unwrap();
    assert_eq!(second, EnvID::new((2 << 11) | 1));
    assert_eq!(m.em.get_env(1).env_asid, ASID::new(1));
}

#[test]
fn identifier_zero_names_the_running_environment() {
    let mut m = boot_machine();
    let (a, a_id) = spawn_runnable(&mut m, 1);
    let (b, b_id) = spawn_runnable(&mut m, 1);
    env_run(&mut m.em, a);
    assert_eq!(envid2ind(&m.em, EnvID::zero(), 0), Ok(a));
    assert_eq!(envid2ind(&m.em, EnvID::zero(), 1), Ok(a));
    assert_eq!(m.em.envid2ind(a_id, 1), Ok(a));
    assert_eq!(m.em.envid2ind(b_id, 0), Ok(b));
    assert_eq!(get_cur_env_id(&m.em), Some(a_id));
    assert_eq!(get_cur_env_ind(&m.em), Some(a));
    assert_eq!(cur_pgdir(&m.em), m.em.get_env(a).env_pgdir);
    assert_eq!(user_tlb_mod_entry(&m.em), 0);
}

#[test]
fn stale_identifier_names_nothing() {
    let mut m = boot_machine();
    let (a, a_id) = spawn_runnable(&mut m, 1);
    env_run(&mut m.em, a);
    let (b, b_id) = spawn_runnable(&mut m, 1);
    assert_eq!(envid2ind(&m.em, b_id, 0), Ok(b));
    let stale = EnvID::new(b_id.as_usize() + (1 << 11));
    assert_eq!(envid2ind(&m.em, stale, 0), Err(Error::BadEnv));
    assert_eq!(envid2ind(&m.em, EnvID::new((9 << 11) | 500), 0), Err(Error::BadEnv));
    env_free(&mut m.em, &mut m.fa, &mut m.tlb, b);
    assert_eq!(envid2ind(&m.em, b_id, 0), Err(Error::BadEnv));
    let (b2, b2_id) = spawn_runnable(&mut m, 1);
    assert_eq!(b2, b);
    assert!(b2_id != b_id);
    assert_eq!(envid2ind(&m.em, b_id, 0), Err(Error::BadEnv));
    assert_eq!(envid2ind(&m.em, b2_id, 0), Ok(b));
    let _ = a_id;
}

#[test]
fn permission_check_admits_self_and_children() {
    let mut m = boot_machine();
    let (a, a_id) = spawn_runnable(&mut m, 1);
    env_run(&mut m.em, a);
    let child = env_alloc(&mut m.em, &mut m.fa, a_id).unwrap();
    let (_, stranger) = spawn_runnable(&mut m, 1);
    assert_eq!(envid2ind(&m.em, child, 1), Ok(child.envx()));
    assert_eq!(envid2ind(&m.em, stranger, 1), Err(Error::BadEnv));
    assert_eq!(envid2ind(&m.em, stranger, 0), Ok(stranger.envx()));
    assert_eq!(envid2ind(&m.em, a_id, 1), Ok(a));
}

#[test]
fn identifiers_in_use_match_slots_in_use() {
    let mut m = boot_machine();
    let mut ids = Vec::new();
    for _ in 0..20 {
        ids.push(spawn_runnable(&mut m, 1));
        assert_eq!(m.em.asid_count(), live_envs(&m));
    }
    for (ind, _) in ids.iter().step_by(3) {
        env_free(&mut m.em, &mut m.fa, &mut m.tlb, *ind);
        assert_eq!(m.em.asid_count(), live_envs(&m));
    }
    assert_eq!(m.em.asid_count(), 13);
    let (ind, _) = spawn_runnable(&mut m, 1);
    assert_eq!(ind, 18);
    assert_eq!(m.em.get_env(ind).env_asid, ASID::new(0));
    assert_eq!(m.em.asid_count(), live_envs(&m));
}

#[test]
fn identifiers_run_out_before_slots_do() {
    let mut m = boot_machine();
    for i in 0..256 {
        let id = env_alloc(&mut m.em, &mut m.fa, EnvID::zero()).unwrap();
        assert_eq!(id.envx(), i);
        assert_eq!(m.em.get_env(i).env_asid, ASID::new(i));
    }
    let free_frames = m.fa.num_free();
    assert_eq!(env_alloc(&mut m.em, &mut m.fa, EnvID::zero()), Err(Error::NoFreeEnv));
    assert_eq!(m.em.get_env(256).env_status, EnvStatus::Free);
    assert_eq!(m.em.get_env(256).env_pgdir, None);
    assert_eq!(m.em.free_order()[0], 256);
    assert_eq!(m.fa.num_free(), free_frames);
    env_free(&mut m.em, &mut m.fa, &mut m.tlb, 7);
    let id = env_alloc(&mut m.em, &mut m.fa, EnvID::zero()).unwrap();
    assert_eq!(id, EnvID::new((257 << 11) | 7));
    assert_eq!(m.em.get_env(7).env_asid, ASID::new(7));
}

#[test]
fn allocation_without_frames_gives_no_mem() {
    let mut m = boot_machine();
    while m.fa.allocate().is_ok() {}
    assert_eq!(env_alloc(&mut m.em, &mut m.fa, EnvID::zero()), Err(Error::NoMem));
    assert_eq!(m.em.free_order().len(), NENV);
    assert_eq!(m.em.asid_count(), 0);
}

#[test]
fn free_tears_the_address_space_down() {
    let mut m = boot_machine();
    let (a, _) = spawn_runnable(&mut m, 1);
    let free_before = m.fa.num_free();
    let pgdir = m.em.get_env(a).env_pgdir.unwrap();
    let asid = m.em.get_env(a).env_asid;
    let mut frames = Vec::new();
    for va in [UTEXT, UTEXT + PAGE_SIZE, 0x00C0_0000, USTACKTOP - PAGE_SIZE] {
        let f = m.fa.allocate().unwrap();
        assert_eq!(PageTable::insert(&mut m.fa, &mut m.tlb, pgdir, asid, f, VirtAddr::new(va), PTE_D), Ok(()));
        frames.push(f);
    }
    assert_eq!(m.fa.num_free(), free_before - 4 - 3);
    m.tlb.take();
    env_free(&mut m.em, &mut m.fa, &mut m.tlb, a);
    assert_eq!(m.em.get_env(a).env_status, EnvStatus::Free);
    assert!(!m.em.asid_used(asid));
    assert!(!m.em.sched_order().contains(&a));
    assert_eq!(m.em.free_order()[0], a);
    for pdx in 0..509 {
        assert!(!m.fa.read_entry(pgdir, pdx).valid());
    }
    for va in [UTEXT, UTEXT + PAGE_SIZE, 0x00C0_0000, USTACKTOP - PAGE_SIZE] {
        assert_eq!(PageTable::translate(&m.fa, pgdir, VirtAddr::new(va)), None);
    }
    for f in frames {
        assert_eq!(m.fa.refcount(f), 0);
        assert!(m.fa.is_free(f));
    }
    assert!(m.fa.is_free(pgdir));
    assert_eq!(m.fa.num_free(), free_before + 1);
    let log = m.tlb.take();
    assert_eq!(log.len(), 4 + 3 + 1);
    assert_eq!(log[0], UTEXT | asid.as_usize());
    assert_eq!(*log.last().unwrap(), (0x7fc0_0000 + (511 << 12)) | asid.as_usize());
}

#[test]
fn priority_quantum_schedule() {
    let mut m = boot_machine();
    let (x, _) = spawn_runnable(&mut m, 1);
    let (y, _) = spawn_runnable(&mut m, 3);
    assert_eq!(m.em.sched_order(), vec![x, y]);
    let mut order = Vec::new();
    for _ in 0..6 {
        env_sched(&mut m.em, 0);
        order.push(get_cur_env_ind(&m.em).unwrap());
    }
    assert_eq!(order, vec![x, y, y, y, x, y]);
    assert_eq!(m.em.get_env(x).env_runs, 2);
    assert_eq!(m.em.get_env(y).env_runs, 4);
}

#[test]
fn yield_gives_the_turn_up() {
    let mut m = boot_machine();
    let (x, _) = spawn_runnable(&mut m, 5);
    let (y, _) = spawn_runnable(&mut m, 5);
    let t = env_sched(&mut m.em, 1);
    assert_eq!(get_cur_env_ind(&m.em), Some(x));
    assert_eq!(t.asid, m.em.get_env(x).env_asid.as_usize());
    assert_eq!(m.em.count(), 5);
    env_sched(&mut m.em, 1);
    assert_eq!(get_cur_env_ind(&m.em), Some(y));
    assert_eq!(m.em.sched_order(), vec![y, x]);
    schedule(&mut m.em, 1);
    assert_eq!(get_cur_env_ind(&m.em), Some(y));
    assert_eq!(m.em.count(), 4);
    m.em.set_status(y, EnvStatus::NotRunnable);
    env_sched(&mut m.em, 0);
    assert_eq!(get_cur_env_ind(&m.em), Some(x));
    assert_eq!(m.em.sched_order(), vec![x]);
}

#[test]
fn run_saves_the_trapframe_of_the_one_that_ran() {
    let mut m = boot_machine();
    let (x, _) = spawn_runnable(&mut m, 1);
    let (y, _) = spawn_runnable(&mut m, 1);
    pre_env_run(x);
    let t = env_run(&mut m.em, x);
    assert_eq!(t.tf.regs[29], USTACKTOP - 8);
    let mut tf = m.em.trap_tf();
    tf.regs[8] = 0xfeed;
    tf.cp0_epc = 0x0040_0040;
    m.em.set_trap_tf(tf);
    env_run(&mut m.em, y);
    assert_eq!(m.em.get_env(x).env_tf.regs[8], 0xfeed);
    assert_eq!(m.em.get_env(x).env_tf.cp0_epc, 0x0040_0040);
    let back = env_run(&mut m.em, x);
    assert_eq!(back.tf.regs[8], 0xfeed);
    assert_eq!(m.em.get_env(y).env_tf.regs[8], 0xfeed);
}

#[test]
fn destroying_the_running_environment_schedules_another() {
    let mut m = boot_machine();
    let (x, _) = spawn_runnable(&mut m, 1);
    let (y, _) = spawn_runnable(&mut m, 2);
    env_run(&mut m.em, x);
    assert!(env_destroy(&mut m.em, &mut m.fa, &mut m.tlb, y).is_none());
    assert_eq!(get_cur_env_ind(&m.em), Some(x));
    let (z, _) = spawn_runnable(&mut m, 4);
    let next = env_destroy(&mut m.em, &mut m.fa, &mut m.tlb, x).unwrap();
    assert_eq!(get_cur_env_ind(&m.em), Some(z));
    assert_eq!(next.asid, m.em.get_env(z).env_asid.as_usize());
    assert_eq!(m.em.get_env(x).env_status, EnvStatus::Free);
    assert_eq!(m.em.count(), 4);
    let _ = y;
}

#[test]
fn status_changes_keep_the_schedule_list_in_step() {
    let mut m = boot_machine();
    let (x, _) = spawn_runnable(&mut m, 1);
    let (y, _) = spawn_runnable(&mut m, 1);
    let (z, _) = spawn_runnable(&mut m, 1);
    m.em.set_status(y, EnvStatus::NotRunnable);
    assert_eq!(m.em.sched_order(), vec![x, z]);
    m.em.set_status(y, EnvStatus::NotRunnable);
    assert_eq!(m.em.sched_order(), vec![x, z]);
    m.em.set_status(x, EnvStatus::Runnable);
    assert_eq!(m.em.sched_order(), vec![z, x]);
    m.em.set_status(y, EnvStatus::Runnable);
    assert_eq!(m.em.sched_order(), vec![z, x, y]);
    let id = env_alloc(&mut m.em, &mut m.fa, EnvID::zero()).unwrap();
    insert_sched(&mut m.em, id);
    assert_eq!(m.em.sched_order(), vec![z, x, y, id.envx()]);
}

#[test]
fn create_loads_the_program() {
    let mut m = boot_machine();
    let mut data = Vec::new();
    for i in 0..0x1234usize {
        data.push((i % 251) as u8);
    }
    let image = tiny_program(0x0040_0010, UTEXT as u32, &data, 0x3000, 2);
    let size = image.len();
    let id = env_create(&mut m.em, &mut m.fa, &mut m.tlb, &image, size, 3);
    let ind = id.envx();
    let e = *m.em.get_env(ind);
    assert_eq!(e.env_status, EnvStatus::Runnable);
    assert_eq!(e.env_pri, 3);
    assert_eq!(e.env_parent_id, EnvID::zero());
    assert_eq!(e.env_tf.cp0_epc, 0x0040_0010);
    assert_eq!(m.em.sched_order(), vec![ind]);
    let pgdir = e.env_pgdir.unwrap();
    for (page, expect_len) in [(0usize, 0x1000usize), (1, 0x234), (2, 0)] {
        let (frame, slot) = PageTable::lookup(&m.fa, pgdir, VirtAddr::new(UTEXT + page * PAGE_SIZE)).unwrap();
        assert_eq!(m.fa.read_entry(slot.table, slot.index).perm() & PTE_D, PTE_D);
        assert_eq!(m.fa.refcount(frame), 1);
        for off in [0usize, 1, 0x233, 0x234, 0xfff] {
            let want = if off < expect_len { data[page * PAGE_SIZE + off] } else { 0 };
            assert_eq!(m.fa.load_byte(frame, off), want);
        }
    }
    assert_eq!(PageTable::translate(&m.fa, pgdir, VirtAddr::new(UTEXT + 3 * PAGE_SIZE)), None);
    let second = env_create(&mut m.em, &mut m.fa, &mut m.tlb, &image, size, 1);
    assert_eq!(m.em.sched_order(), vec![second.envx(), ind]);
}

#[test]
fn freeing_an_environment_that_is_not_runnable_leaves_the_schedule_list() {
    let mut m = boot_machine();
    let (x, _) = spawn_runnable(&mut m, 1);
    let id = env_alloc(&mut m.em, &mut m.fa, EnvID::zero()).unwrap();
    let (y, _) = spawn_runnable(&mut m, 1);
    env_free(&mut m.em, &mut m.fa, &mut m.tlb, id.envx());
    assert_eq!(m.em.sched_order(), vec![x, y]);
    assert_eq!(m.em.free_order()[0], id.envx());
    for slot in 0..NENV {
        let on_free = m.em.free_order().contains(&slot);
        let on_sched = m.em.sched_order().contains(&slot);
        assert!(!(on_free && on_sched));
        assert_eq!(on_free, m.em.get_env(slot).env_status == EnvStatus::Free);
        assert_eq!(on_sched, m.em.get_env(slot).env_status == EnvStatus::Runnable);
    }
}

#[test]
fn identifiers_on_a_manager_that_is_not_set_up() {
    let mut m = EnvManager::new();
    assert_eq!(m.asid_alloc(), Ok(ASID::new(0)));
    assert_eq!(m.asid_alloc(), Ok(ASID::new(1)));
    m.asid_free(ASID::new(0));
    assert_eq!(m.asid_alloc(), Ok(ASID::new(0)));
    assert_eq!(m.asid_alloc(), Ok(ASID::new(2)));
    assert_eq!(m.asid_count(), 3);
    assert_eq!(m.mkenvid(5), EnvID::new((1 << 11) | 5));
    assert_eq!(m.mkenvid(5), EnvID::new((2 << 11) | 5));
    for expected in 3..256 {
        assert_eq!(m.asid_alloc(), Ok(ASID::new(expected)));
    }
    assert_eq!(m.asid_alloc(), Err(Error::NoFreeEnv));
    assert_eq!(m.asid_count(), 256);
}
