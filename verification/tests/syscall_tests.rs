use mos::device::DevCopy;
use mos::env::{env_sched, EnvID, EnvStatus};
use mos::err::Error;
use mos::mmu::{
    PhysAddr, PhysPageNum, VirtAddr, KSEG0, PAGE_SIZE, PTE_C_CACHEABLE, PTE_D, PTE_V, USTACKTOP, UTEMP, UTOP,
};
use mos::page_table::PageTable;
use mos::shm::SHM_RMID;
use mos::syscall::{
    sys_exofork_admissible, sys_ipc_recv_admissible, sys_ipc_try_send_admissible, sys_mem_alloc_admissible,
    sys_mem_map_admissible, sys_mem_unmap_admissible, do_syscall, do_tlb_mod, is_illegal_va, is_illegal_va_range, sys_cgetc, sys_env_destroy, sys_exofork,
    sys_get_envid, sys_ipc_recv, sys_ipc_try_send, sys_mem_alloc, sys_mem_map, sys_mem_unmap, sys_print_cons,
    sys_putchar, sys_read_dev, sys_semkill, sys_semopen, sys_sempost, sys_semwait, sys_set_env_status,
    sys_set_tlb_mod_entry, sys_set_trapframe, sys_shmat, sys_shmctl, sys_shmdt, sys_shmget, sys_write_dev,
    sys_yield, Kernel, Syscall, SyscallID, SyscallInput, _do_tlb_refill,
};
use mos::traps::{Trapframe, TRAPFRAME_BYTES};

fn boot_kernel() -> Kernel {
    let mut k = Kernel::new();
    k.fa.init(VirtAddr::new(KSEG0 + 128 * PAGE_SIZE), 2048, VirtAddr::new(KSEG0 + 64 * PAGE_SIZE));
    k.em.init(&mut k.fa, &mut k.tlb, PhysPageNum::new(120), VirtAddr::new(KSEG0 + 65 * PAGE_SIZE));
    mos::shm::init(&mut k.shm);
    k.sem.init();
    k
}

fn start_env(k: &mut Kernel, parent: EnvID, priority: usize) -> (usize, EnvID) {
    let id = k.em.allocate(&mut k.fa, parent).unwrap();
    let ind = id.envx();
    let mut e = *k.em.get_env(ind);
    e.env_pri = priority;
    k.em.put_env(ind, e);
    k.em.set_status(ind, EnvStatus::Runnable);
    (ind, id)
}

fn boot_with_running_env() -> (Kernel, usize, EnvID) {
    let mut k = boot_kernel();
    let (a, a_id) = start_env(&mut k, EnvID::zero(), 1);
    env_sched(&mut k.em, 0);
    assert_eq!(k.em.cur_env_ind(), Some(a));
    (k, a, a_id)
}

fn no_input() -> SyscallInput {
    SyscallInput { arg4: 0, arg5: 0, data: Vec::new(), tf: Trapframe::new() }
}

fn call(k: &mut Kernel, no: usize, a1: usize, a2: usize, a3: usize, input: &SyscallInput) -> Option<i32> {
    let mut tf = k.em.trap_tf();
    tf.regs[4] = no;
    tf.regs[5] = a1;
    tf.regs[6] = a2;
    tf.regs[7] = a3;
    k.em.set_trap_tf(tf);
    match do_syscall(k, input) {
        Some(_) => None,
        None => Some(k.em.trap_tf().regs[2] as i32),
    }
}

fn frame_at(k: &Kernel, ind: usize, va: usize) -> Option<PhysPageNum> {
    let pgdir = k.em.get_env(ind).env_pgdir.unwrap();
    PageTable::lookup(&k.fa, pgdir, VirtAddr::new(va)).ok().map(|r| r.0)
}

fn store_word(k: &mut Kernel, ind: usize, va: usize, value: usize) {
    let pgdir = k.em.get_env(ind).env_pgdir.unwrap();
    let pa = PageTable::translate(&k.fa, pgdir, VirtAddr::new(va)).unwrap().as_usize();
    k.fa.write_entry(PhysPageNum::new(pa >> 12), (pa & 0xfff) / 4, mos::page_table::Pte::new(value));
}

fn load_word(k: &Kernel, ind: usize, va: usize) -> usize {
    let pgdir = k.em.get_env(ind).env_pgdir.unwrap();
    let pa = PageTable::translate(&k.fa, pgdir, VirtAddr::new(va)).unwrap().as_usize();
    k.fa.read_entry(PhysPageNum::new(pa >> 12), (pa & 0xfff) / 4).as_usize()
}

#[test]
fn allocator_zero_fill_through_the_kernel_alias() {
    let mut k = boot_kernel();
    let f = k.fa.allocate().unwrap();
    let kva = f.into_kva();
    let ppn = PhysPageNum::from(PhysAddr::from_kva(kva));
    assert_eq!(ppn, f);
    k.fa.write_entry(ppn, 0, mos::page_table::Pte::new(0xDEADBEEF));
    k.fa.dealloc(f);
    let stolen: Vec<PhysPageNum> = std::iter::from_fn(|| k.fa.allocate().ok()).collect();
    assert_eq!(*stolen.last().unwrap(), f);
    assert_eq!(k.fa.read_entry(f, 0).as_usize(), 0);
}

#[test]
fn fork_transparency() {
    let (mut k, parent, parent_id) = boot_with_running_env();
    let mut tf = k.em.trap_tf();
    for i in 0..32 {
        tf.regs[i] = 0x100 + i;
    }
    tf.hi = 7;
    tf.lo = 9;
    tf.cp0_epc = 0x0040_0100;
    k.em.set_trap_tf(tf);
    let ret = call(&mut k, 9, 0x105, 0x106, 0x107, &no_input()).unwrap();
    assert!(ret != 0);
    let child_id = EnvID::new(ret as usize);
    let child = child_id.envx();
    assert_eq!(k.em.trap_tf().regs[2], ret as usize);
    let c = *k.em.get_env(child);
    assert_eq!(c.env_id, child_id);
    assert_eq!(c.env_parent_id, parent_id);
    assert_eq!(c.env_status, EnvStatus::NotRunnable);
    assert_eq!(c.env_pri, 1);
    assert_eq!(c.env_tf.regs[2], 0);
    assert_eq!(c.env_tf.cp0_epc, 0x0040_0104);
    assert_eq!(c.env_tf.hi, 7);
    assert_eq!(c.env_tf.lo, 9);
    let at_entry = k.em.trap_tf();
    for i in 0..32 {
        if i != 2 {
            assert_eq!(c.env_tf.regs[i], at_entry.regs[i]);
        }
    }
    assert!(!k.em.sched_order().contains(&child));
    assert_eq!(call(&mut k, 10, ret as usize, 1, 0, &no_input()), Some(0));
    assert_eq!(k.em.sched_order(), vec![parent, child]);
    assert_eq!(call(&mut k, 3, 0, 0, 0, &no_input()), None);
    assert_eq!(k.em.cur_env_ind(), Some(child));
    assert_eq!(k.em.get_env(child).env_tf.regs[2], 0);
    assert_eq!(k.em.get_env(parent).env_tf.regs[4], 3);
    assert_eq!(k.em.get_env(parent).env_tf.cp0_epc, 0x0040_010c);
}

#[test]
fn tlb_refill_via_passive_alloc() {
    let (mut k, a, _) = boot_with_running_env();
    let va = USTACKTOP - 8;
    assert_eq!(frame_at(&k, a, va), None);
    let free_before = k.fa.num_free();
    let asid = k.em.get_env(a).env_asid;
    let mut entries = [0usize; 2];
    _do_tlb_refill(&mut k, &mut entries, VirtAddr::new(va), asid);
    let pgdir = k.em.get_env(a).env_pgdir.unwrap();
    let (frame, slot) = PageTable::lookup(&k.fa, pgdir, VirtAddr::new(va)).unwrap();
    let pte = k.fa.read_entry(slot.table, slot.index);
    assert_eq!(pte.perm(), PTE_D | PTE_C_CACHEABLE | PTE_V);
    assert_eq!(slot.index % 2, 1);
    assert_eq!(entries[1], pte.as_usize() >> 6);
    assert_eq!(entries[0], k.fa.read_entry(slot.table, slot.index - 1).as_usize() >> 6);
    assert_eq!(k.fa.num_free(), free_before - 2);
    assert_eq!(load_word(&k, a, va), 0);
    let mut again = [0usize; 2];
    _do_tlb_refill(&mut k, &mut again, VirtAddr::new(va), asid);
    assert_eq!(again, entries);
    assert_eq!(k.fa.num_free(), free_before - 2);
    assert_eq!(frame_at(&k, a, va), Some(frame));
}

#[test]
fn ipc_with_page_transfer() {
    let (mut k, a, a_id) = boot_with_running_env();
    let b_id = EnvID::new(sys_exofork(&mut k) as usize);
    let b = b_id.envx();
    assert_eq!(sys_mem_alloc(&mut k, b_id, VirtAddr::new(0x0040_0000), PTE_D), 0);
    assert_eq!(sys_set_env_status(&mut k, b_id, EnvStatus::Runnable), 0);
    store_word(&mut k, b, 0x0040_0010, 0xCAFE_F00D);
    assert_eq!(sys_ipc_try_send(&mut k, b_id, 1, VirtAddr::new(0), 0), Error::IpcNotRecv.errno());

    assert!(sys_ipc_recv(&mut k, VirtAddr::new(0x0080_0000)).is_ok());
    assert_eq!(k.em.cur_env_ind(), Some(b));
    assert_eq!(k.em.get_env(a).env_status, EnvStatus::NotRunnable);
    assert_eq!(k.em.get_env(a).env_ipc_receiving, 1);
    assert_eq!(k.em.get_env(a).env_tf.regs[2], 0);
    assert_eq!(k.em.sched_order(), vec![b]);

    assert_eq!(sys_ipc_try_send(&mut k, a_id, 42, VirtAddr::new(0x0040_0000), 0), 0);
    let ea = *k.em.get_env(a);
    assert_eq!(ea.env_status, EnvStatus::Runnable);
    assert_eq!(ea.env_ipc_value, 42);
    assert_eq!(ea.env_ipc_from, b_id.as_usize());
    assert_eq!(ea.env_ipc_perm, PTE_V);
    assert_eq!(ea.env_ipc_receiving, 0);
    assert_eq!(k.em.sched_order(), vec![b, a]);
    assert_eq!(frame_at(&k, a, 0x0080_0000), frame_at(&k, b, 0x0040_0000));
    assert_eq!(load_word(&k, a, 0x0080_0010), 0xCAFE_F00D);
    store_word(&mut k, b, 0x0040_0020, 0x1234);
    assert_eq!(load_word(&k, a, 0x0080_0020), 0x1234);
    assert_eq!(k.fa.refcount(frame_at(&k, a, 0x0080_0000).unwrap()), 2);
    assert_eq!(sys_ipc_try_send(&mut k, a_id, 43, VirtAddr::new(0), 0), Error::IpcNotRecv.errno());
    assert_eq!(k.em.get_env(a).env_ipc_value, 42);
    k.em.set_status(a, EnvStatus::NotRunnable);
    let mut receiver = *k.em.get_env(a);
    receiver.env_ipc_receiving = 1;
    receiver.env_ipc_dstva = VirtAddr::new(0x0090_0000);
    k.em.put_env(a, receiver);
    assert_eq!(
        sys_ipc_try_send(&mut k, a_id, 44, VirtAddr::new(0x0040_1000), 0),
        Error::NotMapped.errno()
    );
    assert_eq!(k.em.get_env(a).env_ipc_value, 44);
    assert_eq!(frame_at(&k, a, 0x0090_0000), None);
}

#[test]
fn ipc_rejects_bad_addresses_and_targets() {
    let (mut k, _, a_id) = boot_with_running_env();
    assert_eq!(sys_ipc_recv(&mut k, VirtAddr::new(UTOP)).err(), Some(Error::Inval.errno()));
    assert_eq!(sys_ipc_recv(&mut k, VirtAddr::new(0x1000)).err(), Some(-3));
    assert_eq!(sys_ipc_try_send(&mut k, a_id, 0, VirtAddr::new(UTOP), 0), -3);
    assert_eq!(sys_ipc_try_send(&mut k, EnvID::new(0x12345), 0, VirtAddr::new(0), 0), Error::BadEnv.errno());
}

#[test]
fn shared_memory_attach_and_detach() {
    let (mut k, a, _) = boot_with_running_env();
    let (b, _) = start_env(&mut k, EnvID::zero(), 1);
    let free_before = k.fa.num_free();
    let s = sys_shmget(&mut k, 7, 8192);
    assert_eq!(s, 127);
    let s = s as usize;
    assert_eq!(k.shm.segment(s).nblocks, 2);
    assert_eq!(k.shm.segment(s).key, 7);
    assert_eq!(k.fa.num_free(), free_before - 2);
    let rw = PTE_D;
    assert_eq!(sys_shmat(&mut k, s, VirtAddr::new(0x00A0_0000), rw), 0);
    assert_eq!(k.shm.segment(s).shm_ref, 1);

    sys_yield(&mut k);
    assert_eq!(k.em.cur_env_ind(), Some(b));
    assert_eq!(sys_shmget(&mut k, 7, 1), 127);
    assert_eq!(sys_shmat(&mut k, s, VirtAddr::new(0x00C0_0000), rw), 0);
    assert_eq!(k.shm.segment(s).shm_ref, 2);
    store_word(&mut k, a, 0x00A0_0004, 0x5151);
    assert_eq!(load_word(&k, b, 0x00C0_0004), 0x5151);
    store_word(&mut k, b, 0x00C0_1ff8, 0x7777);
    assert_eq!(load_word(&k, a, 0x00A0_1ff8), 0x7777);
    let f0 = frame_at(&k, a, 0x00A0_0000).unwrap();
    let f1 = frame_at(&k, a, 0x00A0_1000).unwrap();
    assert_eq!(frame_at(&k, b, 0x00C0_0000), Some(f0));
    assert_eq!(frame_at(&k, b, 0x00C0_1000), Some(f1));
    assert_eq!(k.fa.refcount(f0), 3);

    assert_eq!(sys_shmctl(&mut k, s, SHM_RMID), 0);
    assert_eq!(k.shm.segment(s).rmid, 1);
    assert_eq!(sys_shmdt(&mut k, s, VirtAddr::new(0x00C0_0000)), 0);
    assert_eq!(k.shm.segment(s).shm_ref, 1);
    assert_eq!(k.shm.segment(s).nblocks, 2);
    assert_eq!(frame_at(&k, b, 0x00C0_0000), None);
    assert!(!k.fa.is_free(f0));
    sys_yield(&mut k);
    assert_eq!(k.em.cur_env_ind(), Some(a));
    assert_eq!(sys_shmdt(&mut k, s, VirtAddr::new(0x00A0_0000)), 0);
    assert_eq!(k.shm.segment(s).nblocks, 0);
    assert!(k.fa.is_free(f0));
    assert!(k.fa.is_free(f1));
    assert_eq!(k.fa.refcount(f0), 0);
    assert_eq!(k.shm.free_block_count(), 4096);
    assert_eq!(sys_shmat(&mut k, s, VirtAddr::new(0x00A0_0000), rw), Error::Inval.errno());
    assert_eq!(sys_shmget(&mut k, 7, 4096), 126);
}

#[test]
fn shared_memory_errors() {
    let (mut k, _, _) = boot_with_running_env();
    assert_eq!(sys_shmget(&mut k, 1, 0), Error::Inval.errno());
    assert_eq!(sys_shmget(&mut k, 1, 4097 * PAGE_SIZE), Error::NoSpc.errno());
    assert_eq!(sys_shmget(&mut k, 1, 4000 * PAGE_SIZE), Error::NoMem.errno());
    assert_eq!(sys_shmat(&mut k, 128, VirtAddr::new(0x00A0_0000), 0), -3);
    assert_eq!(sys_shmat(&mut k, 5, VirtAddr::new(0x00A0_0000), 0), -3);
    assert_eq!(sys_shmdt(&mut k, 5, VirtAddr::new(0x00A0_0000)), -3);
    assert_eq!(sys_shmctl(&mut k, 5, SHM_RMID), -3);
    assert_eq!(sys_shmctl(&mut k, 999, 0), 0);
    let first = sys_shmget(&mut k, 0, 1);
    let second = sys_shmget(&mut k, 0, 1);
    assert_eq!((first, second), (127, 126));
    for expected in (0..126).rev() {
        assert_eq!(sys_shmget(&mut k, 0, 1), expected);
    }
    assert_eq!(sys_shmget(&mut k, 0, 1), Error::NoSpc.errno());
    assert_eq!(k.shm.free_id_count(), 0);
}

#[test]
fn memory_calls_check_addresses_and_identifiers() {
    let (mut k, a, a_id) = boot_with_running_env();
    assert!(is_illegal_va(VirtAddr::new(UTEMP - 1)));
    assert!(!is_illegal_va(VirtAddr::new(UTEMP)));
    assert!(!is_illegal_va(VirtAddr::new(UTOP - 1)));
    assert!(is_illegal_va(VirtAddr::new(UTOP)));
    assert!(!is_illegal_va_range(VirtAddr::new(0), 0));
    assert!(is_illegal_va_range(VirtAddr::new(UTEMP - 1), 2));
    assert!(!is_illegal_va_range(VirtAddr::new(UTOP - 4), 4));
    assert!(is_illegal_va_range(VirtAddr::new(UTOP - 4), 5));
    assert!(is_illegal_va_range(VirtAddr::new(UTEMP), usize::MAX));

    assert_eq!(sys_mem_alloc(&mut k, a_id, VirtAddr::new(UTOP), 0), -3);
    assert_eq!(sys_mem_alloc(&mut k, EnvID::new(0x7777), VirtAddr::new(UTEMP), 0), -2);
    let free_before = k.fa.num_free();
    assert_eq!(sys_mem_alloc(&mut k, EnvID::zero(), VirtAddr::new(0x0050_0abc), PTE_D), 0);
    assert_eq!(k.fa.num_free(), free_before - 2);
    let f = frame_at(&k, a, 0x0050_0000).unwrap();
    assert_eq!(k.fa.refcount(f), 1);

    assert_eq!(sys_mem_map(&mut k, a_id, VirtAddr::new(0x0050_0000), a_id, VirtAddr::new(UTOP), 0), -3);
    assert_eq!(
        sys_mem_map(&mut k, a_id, VirtAddr::new(0x0090_0000), a_id, VirtAddr::new(0x0060_0000), 0),
        Error::NotMapped.errno()
    );
    assert_eq!(
        sys_mem_map(&mut k, a_id, VirtAddr::new(0x0050_3000), a_id, VirtAddr::new(0x0060_0000), 0),
        Error::NotMapped.errno()
    );
    assert_eq!(frame_at(&k, a, 0x0060_0000), None);
    assert_eq!(sys_mem_map(&mut k, a_id, VirtAddr::new(0x0050_0000), a_id, VirtAddr::new(0x0050_1000), 0), 0);
    assert_eq!(frame_at(&k, a, 0x0050_1000), Some(f));
    assert_eq!(k.fa.refcount(f), 2);
    assert_eq!(sys_mem_unmap(&mut k, a_id, VirtAddr::new(0x0050_0000)), 0);
    assert_eq!(frame_at(&k, a, 0x0050_0000), None);
    assert_eq!(k.fa.refcount(f), 1);
    assert_eq!(sys_mem_unmap(&mut k, a_id, VirtAddr::new(0x0050_0000)), 0);
    assert_eq!(sys_mem_unmap(&mut k, a_id, VirtAddr::new(0)), -3);
    assert_eq!(sys_mem_unmap(&mut k, EnvID::new(0x7777), VirtAddr::new(UTEMP)), -2);
    assert_eq!(sys_mem_unmap(&mut k, a_id, VirtAddr::new(0x0050_1000)), 0);
    assert!(k.fa.is_free(f));
}

#[test]
fn memory_alloc_without_frames_gives_no_mem() {
    let (mut k, _, a_id) = boot_with_running_env();
    while k.fa.allocate().is_ok() {}
    assert_eq!(sys_mem_alloc(&mut k, a_id, VirtAddr::new(0x0050_0000), 0), Error::NoMem.errno());
    assert_eq!(sys_exofork(&mut k), Error::NoMem.errno());
}

#[test]
fn console_calls() {
    let (mut k, _, _) = boot_with_running_env();
    sys_putchar(&mut k, 'o' as i32);
    sys_putchar(&mut k, 0x100 + 'k' as i32);
    assert_eq!(sys_print_cons(&mut k, VirtAddr::new(0x0040_0000), 3, &b"!\n?".to_vec()), 0);
    assert_eq!(sys_print_cons(&mut k, VirtAddr::new(UTOP - 1), 2, &Vec::new()), -3);
    assert_eq!(sys_print_cons(&mut k, VirtAddr::new(0x1000), 1, &Vec::new()), -3);
    assert_eq!(k.console.take_output(), b"ok!\r\n?".to_vec());
    assert_eq!(sys_cgetc(&mut k), 0);
    k.console.receive(b'z');
    assert_eq!(sys_cgetc(&mut k), 'z' as i32);
    assert_eq!(sys_cgetc(&mut k), 0);
}

#[test]
fn device_calls_admit_console_and_disk_only() {
    let (mut k, _, _) = boot_with_running_env();
    let va = VirtAddr::new(0x0040_0000);
    assert_eq!(sys_write_dev(&mut k, va, PhysAddr::new(0x1800_03f8), 1), 0);
    assert_eq!(sys_read_dev(&mut k, va, PhysAddr::new(0x1800_01f4), 4), 0);
    assert_eq!(sys_write_dev(&mut k, va, PhysAddr::new(0x1800_0414), 4), 0);
    assert_eq!(sys_write_dev(&mut k, va, PhysAddr::new(0x1800_0416), 4), -3);
    assert_eq!(sys_write_dev(&mut k, va, PhysAddr::new(0x1800_03f8), 3), -3);
    assert_eq!(sys_write_dev(&mut k, va, PhysAddr::new(0x1800_03f8), 8), -3);
    assert_eq!(sys_read_dev(&mut k, va, PhysAddr::new(0x1800_01f8), 1), -3);
    assert_eq!(sys_read_dev(&mut k, va, PhysAddr::new(0x1800_01ef), 1), -3);
    assert_eq!(sys_read_dev(&mut k, va, PhysAddr::new(0x1800_01f1), 2), -3);
    assert_eq!(sys_read_dev(&mut k, VirtAddr::new(0x0040_0001), PhysAddr::new(0x1800_01f0), 2), -3);
    assert_eq!(sys_read_dev(&mut k, VirtAddr::new(UTOP), PhysAddr::new(0x1800_01f0), 1), -3);
    assert_eq!(sys_read_dev(&mut k, va, PhysAddr::new(0x1000_0000), 1), -3);
    assert_eq!(
        k.dev.take(),
        vec![
            DevCopy { src: va, dst: VirtAddr::new(0xB800_03f8), width: 1 },
            DevCopy { src: VirtAddr::new(0xB800_01f4), dst: va, width: 4 },
            DevCopy { src: va, dst: VirtAddr::new(0xB800_0414), width: 4 },
        ]
    );
}

#[test]
fn semaphore_calls() {
    let (mut k, _, _) = boot_with_running_env();
    assert_eq!(sys_semwait(&mut k, 3), 1);
    assert_eq!(sys_semopen(&mut k, 3, 1), 0);
    assert_eq!(sys_semwait(&mut k, 3), 0);
    assert_eq!(sys_semwait(&mut k, 3), 1);
    sys_sempost(&mut k, 3);
    sys_sempost(&mut k, 3);
    assert_eq!(k.sem.get(3), 2);
    assert_eq!(sys_semopen(&mut k, 3, 50), 0);
    assert_eq!(k.sem.get(3), 2);
    sys_semkill(&mut k, 3);
    assert!(k.sem.is_free(3));
    assert_eq!(sys_semopen(&mut k, 3, 50), 0);
    assert_eq!(k.sem.get(3), 50);
}

#[test]
fn status_and_handler_calls() {
    let (mut k, a, a_id) = boot_with_running_env();
    let child = EnvID::new(sys_exofork(&mut k) as usize);
    assert_eq!(sys_set_env_status(&mut k, child, EnvStatus::Free), -3);
    assert_eq!(sys_set_env_status(&mut k, EnvID::new(0x5555), EnvStatus::Runnable), -2);
    assert_eq!(sys_set_env_status(&mut k, child, EnvStatus::Runnable), 0);
    assert_eq!(k.em.sched_order(), vec![a, child.envx()]);
    assert_eq!(sys_set_env_status(&mut k, child, EnvStatus::NotRunnable), 0);
    assert_eq!(k.em.sched_order(), vec![a]);
    assert_eq!(sys_set_tlb_mod_entry(&mut k, child, 0x0040_2000), 0);
    assert_eq!(k.em.get_env(child.envx()).env_user_tlb_mod_entry, 0x0040_2000);
    assert_eq!(sys_set_tlb_mod_entry(&mut k, EnvID::new(0x5555), 1), -2);
    assert_eq!(sys_get_envid(&k), a_id);
    assert_eq!(sys_get_envid(&boot_kernel()), EnvID::zero());
}

#[test]
fn write_fault_is_redirected_to_the_handler() {
    let (mut k, a, _) = boot_with_running_env();
    assert_eq!(sys_set_tlb_mod_entry(&mut k, EnvID::zero(), 0x0040_3000), 0);
    let mut tf = k.em.trap_tf();
    tf.regs[29] = USTACKTOP - 16;
    tf.cp0_epc = 0x0040_0008;
    k.em.set_trap_tf(tf);
    let saved = do_tlb_mod(&mut k);
    assert_eq!(saved.at, VirtAddr::new(UTOP - TRAPFRAME_BYTES));
    assert_eq!(saved.frame.cp0_epc, 0x0040_0008);
    assert_eq!(saved.frame.regs[29], USTACKTOP - 16);
    let now = k.em.trap_tf();
    assert_eq!(now.cp0_epc, 0x0040_3000);
    assert_eq!(now.regs[4], UTOP - TRAPFRAME_BYTES);
    assert_eq!(now.regs[29], UTOP - TRAPFRAME_BYTES - 4);
    let _ = a;
}

#[test]
fn trapframe_of_self_and_of_a_child() {
    let (mut k, _, _) = boot_with_running_env();
    let child = EnvID::new(sys_exofork(&mut k) as usize);
    let mut tf = Trapframe::new();
    tf.regs[2] = 55;
    tf.cp0_epc = 0x0040_0444;
    let at = VirtAddr::new(0x0040_0000);
    assert_eq!(sys_set_trapframe(&mut k, child, at, &tf), 0);
    assert_eq!(k.em.get_env(child.envx()).env_tf.cp0_epc, 0x0040_0444);
    assert_eq!(sys_set_trapframe(&mut k, EnvID::zero(), at, &tf), 55);
    assert_eq!(k.em.trap_tf().cp0_epc, 0x0040_0444);
    assert_eq!(sys_set_trapframe(&mut k, child, VirtAddr::new(UTOP - 100), &tf), -3);
    assert_eq!(sys_set_trapframe(&mut k, EnvID::new(0x5555), at, &tf), -2);
}

#[test]
fn destroy_call() {
    let (mut k, a, a_id) = boot_with_running_env();
    let child = EnvID::new(sys_exofork(&mut k) as usize);
    let (other, other_id) = start_env(&mut k, EnvID::zero(), 2);
    assert_eq!(sys_env_destroy(&mut k, other_id).0, -2);
    let r = sys_env_destroy(&mut k, child);
    assert_eq!(r.0, 0);
    assert!(r.1.is_none());
    assert_eq!(k.em.get_env(child.envx()).env_status, EnvStatus::Free);
    let r = sys_env_destroy(&mut k, a_id);
    assert_eq!(r.0, 0);
    assert!(r.1.is_some());
    assert_eq!(k.em.cur_env_ind(), Some(other));
    assert_eq!(k.em.get_env(a).env_status, EnvStatus::Free);
}

#[test]
fn dispatcher_decodes_numbers_and_arguments() {
    let (mut k, a, a_id) = boot_with_running_env();
    let mut tf = k.em.trap_tf();
    tf.cp0_epc = 0x0040_0000;
    k.em.set_trap_tf(tf);
    assert_eq!(call(&mut k, 26, 0, 0, 0, &no_input()), Some(Error::NoSys.errno()));
    assert_eq!(k.em.trap_tf().cp0_epc, 0x0040_0000);
    assert_eq!(call(&mut k, 9999, 0, 0, 0, &no_input()), Some(-5));
    assert_eq!(call(&mut k, 2, 0, 0, 0, &no_input()), Some(a_id.as_usize() as i32));
    assert_eq!(k.em.trap_tf().cp0_epc, 0x0040_0004);
    assert_eq!(call(&mut k, 0, 'A' as usize, 0, 0, &no_input()), Some(0));
    let text = SyscallInput { arg4: 0, arg5: 0, data: b"bc".to_vec(), tf: Trapframe::new() };
    assert_eq!(call(&mut k, 1, 0x0040_0000, 2, 0, &text), Some(0));
    assert_eq!(k.console.take_output(), b"Abc".to_vec());
    assert_eq!(call(&mut k, 6, 0, 0x0050_0000, PTE_D, &no_input()), Some(0));
    let f = frame_at(&k, a, 0x0050_0000).unwrap();
    let map = SyscallInput { arg4: 0x0060_0000, arg5: PTE_D, data: Vec::new(), tf: Trapframe::new() };
    assert_eq!(call(&mut k, 7, 0, 0x0050_0000, 0, &map), Some(0));
    assert_eq!(frame_at(&k, a, 0x0060_0000), Some(f));
    assert_eq!(call(&mut k, 8, 0, 0x0050_0000, 0, &no_input()), Some(0));
    assert_eq!(frame_at(&k, a, 0x0050_0000), None);
    assert_eq!(call(&mut k, 6, 0, 0x10, 0, &no_input()), Some(-3));
    assert_eq!(call(&mut k, 16, 0x0040_0000, 0x1800_03f8, 1, &no_input()), Some(0));
    assert_eq!(call(&mut k, 17, 0x0040_0000, 0x1800_03f8, 3, &no_input()), Some(-3));
    assert_eq!(call(&mut k, 22, 9, 4, 0, &no_input()), Some(0));
    assert_eq!(call(&mut k, 23, 9, 0, 0, &no_input()), Some(0));
    assert_eq!(call(&mut k, 24, 9, 0, 0, &no_input()), Some(0));
    assert_eq!(k.sem.get(9), 4);
    assert_eq!(call(&mut k, 25, 9, 0, 0, &no_input()), Some(0));
    assert_eq!(call(&mut k, 18, 5, 4096, 0, &no_input()), Some(127));
    assert_eq!(call(&mut k, 19, 127, 0x00A0_0000, 0, &no_input()), Some(0));
    assert_eq!(call(&mut k, 21, 127, 1, 0, &no_input()), Some(0));
    assert_eq!(call(&mut k, 20, 127, 0x00A0_0000, 0, &no_input()), Some(0));
    assert_eq!(k.shm.segment(127).nblocks, 0);
    assert_eq!(call(&mut k, 15, 0, 0, 0, &no_input()), Some(0));
    assert_eq!(call(&mut k, 5, 0, 0x0040_1000, 0, &no_input()), Some(0));
    assert_eq!(call(&mut k, 14, UTOP, 0, 0, &no_input()), Some(-3));
    assert_eq!(call(&mut k, 13, 0x4444, 0, 0, &no_input()), Some(-2));
    assert_eq!(call(&mut k, 4, 0x4444, 0, 0, &no_input()), Some(-2));
    let frame = SyscallInput { arg4: 0, arg5: 0, data: Vec::new(), tf: k.em.trap_tf() };
    assert_eq!(call(&mut k, 11, 0x4444, 0x0040_0000, 0, &frame), Some(-2));
    assert_eq!(Syscall.do_syscall(&mut k, &no_input()).is_none(), true);
    assert_eq!(SyscallID::from_usize(13), SyscallID::IpcTrySend);
    assert_eq!(SyscallID::from(0), SyscallID::Putchar);
    assert_eq!(SyscallID::from(12), SyscallID::Panic);
    assert_eq!(SyscallID::from_usize(25), SyscallID::SemKill);
    assert_eq!(SyscallID::from_usize(26), SyscallID::SysNo);
    assert_eq!(SyscallID::from_usize(usize::MAX), SyscallID::SysNo);
}

fn small_program(entry: u32, vaddr: u32, data: &[u8]) -> Vec<u8> {
    let mut image = vec![0u8; 52 + 32];
    image[0] = 0x7f;
    image[1] = b'E';
    image[2] = b'L';
    image[3] = b'F';
    image[24..28].copy_from_slice(&entry.to_le_bytes());
    image[28..32].copy_from_slice(&52u32.to_le_bytes());
    image[42..44].copy_from_slice(&32u16.to_le_bytes());
    image[44..46].copy_from_slice(&1u16.to_le_bytes());
    image[52..56].copy_from_slice(&1u32.to_le_bytes());
    image[56..60].copy_from_slice(&84u32.to_le_bytes());
    image[60..64].copy_from_slice(&vaddr.to_le_bytes());
    image[68..72].copy_from_slice(&(data.len() as u32).to_le_bytes());
    image[72..76].copy_from_slice(&(data.len() as u32).to_le_bytes());
    image[76..80].copy_from_slice(&4u32.to_le_bytes());
    image.extend_from_slice(data);
    image
}

#[test]
fn boot_starts_two_programs_and_runs_the_second() {
    let mut k = Kernel::new();
    let layout = mos::init::BootLayout {
        ram_low_size: 2048 * PAGE_SIZE,
        kernel_end: VirtAddr::new(KSEG0 + 128 * PAGE_SIZE),
        frames_addr: VirtAddr::new(KSEG0 + 64 * PAGE_SIZE),
        envs_addr: VirtAddr::new(KSEG0 + 65 * PAGE_SIZE),
        base_pgdir: PhysPageNum::new(120),
    };
    let first = small_program(0x0040_0000, 0x0040_0000, &[1, 2, 3, 4]);
    let second = small_program(0x0040_0020, 0x0040_0000, &[9, 8, 7]);
    let target = mos::init::Init.init(&mut k, layout, &first, &second);
    assert_eq!(k.em.sched_order(), vec![1, 0]);
    assert_eq!(k.em.cur_env_ind(), Some(1));
    assert_eq!(target.tf.cp0_epc, 0x0040_0020);
    assert_eq!(target.asid, 1);
    assert_eq!(k.em.get_env(0).env_tf.cp0_epc, 0x0040_0000);
    assert_eq!(k.em.get_env(0).env_pri, 1);
    assert_eq!(k.em.count(), 1);
    assert_eq!(k.shm.free_block_count(), 4096);
    assert_eq!(k.sem.get(127), 0);
    let f = frame_at(&k, 0, 0x0040_0000).unwrap();
    assert_eq!(k.fa.read_entry(f, 0).as_usize(), 0x0403_0201);
    let g = frame_at(&k, 1, 0x0040_0000).unwrap();
    assert_eq!(k.fa.read_entry(g, 0).as_usize(), 0x0007_0809);
    let pgdir = k.em.get_env(1).env_pgdir.unwrap();
    let (_, slot) = PageTable::lookup(&k.fa, pgdir, VirtAddr::new(0x0040_0000)).unwrap();
    assert_eq!(k.fa.read_entry(slot.table, slot.index).perm(), PTE_C_CACHEABLE | PTE_V);
}

#[test]
fn tables_are_set_up_without_environments() {
    let mut k = Kernel::new();
    let layout = mos::init::BootLayout {
        ram_low_size: 4096 * PAGE_SIZE,
        kernel_end: VirtAddr::new(KSEG0 + 200 * PAGE_SIZE),
        frames_addr: VirtAddr::new(KSEG0 + 10 * PAGE_SIZE),
        envs_addr: VirtAddr::new(KSEG0 + 20 * PAGE_SIZE),
        base_pgdir: PhysPageNum::new(199),
    };
    mos::init::init_tables(&mut k, layout);
    let same = mos::init::new_kernel(layout);
    assert_eq!(same.fa.num_free(), k.fa.num_free());
    assert_eq!(k.fa.num_frames(), 4096);
    assert_eq!(k.fa.num_free(), 4096 - 200 - 2);
    assert_eq!(k.fa.refcount(PhysPageNum::new(10)), 2);
    assert_eq!(k.fa.refcount(PhysPageNum::new(11)), 2);
    assert_eq!(k.fa.refcount(PhysPageNum::new(12)), 1);
    assert_eq!(k.fa.refcount(PhysPageNum::new(20)), 2);
    assert_eq!(k.fa.refcount(PhysPageNum::new(70)), 2);
    assert_eq!(k.fa.refcount(PhysPageNum::new(71)), 1);
    assert_eq!(k.fa.refcount(PhysPageNum::new(200)), 1);
    assert_eq!(k.fa.refcount(PhysPageNum::new(201)), 1);
    assert_eq!(k.em.free_order().len(), 1024);
    assert_eq!(k.em.cur_env_ind(), None);
    assert_eq!(k.tlb.pending_len(), 2 + 51);
    assert_eq!(k.shm.free_id_count(), 128);
}

#[test]
fn message_to_a_runnable_receiver_moves_it_to_the_tail() {
    let (mut k, a, a_id) = boot_with_running_env();
    let (b, _) = start_env(&mut k, EnvID::zero(), 1);
    let (c, _) = start_env(&mut k, EnvID::zero(), 1);
    assert!(sys_ipc_recv(&mut k, VirtAddr::new(0)).is_ok());
    assert_eq!(k.em.cur_env_ind(), Some(b));
    assert_eq!(k.em.sched_order(), vec![b, c]);
    k.em.set_status(a, EnvStatus::Runnable);
    assert_eq!(k.em.sched_order(), vec![b, c, a]);
    k.em.set_status(c, EnvStatus::Runnable);
    assert_eq!(k.em.sched_order(), vec![b, a, c]);
    assert_eq!(sys_ipc_try_send(&mut k, a_id, 5, VirtAddr::new(0), 0), 0);
    assert_eq!(k.em.sched_order(), vec![b, c, a]);
    assert_eq!(k.em.get_env(a).env_ipc_value, 5);
}

#[test]
fn admissibility_of_system_calls() {
    let mut k = boot_kernel();
    assert!(!sys_mem_unmap_admissible(&k, EnvID::zero(), VirtAddr::new(0x0040_0000)));
    assert!(!sys_ipc_recv_admissible(&k, VirtAddr::new(0)));
    assert!(sys_exofork_admissible(&k));
    let (a, a_id) = start_env(&mut k, EnvID::zero(), 1);
    env_sched(&mut k.em, 0);
    assert!(k.em.sched_admissible(0));
    assert!(k.em.sched_admissible(1));
    assert!(sys_exofork_admissible(&k));
    assert!(sys_mem_alloc_admissible(&k, a_id, VirtAddr::new(0x0040_0000)));
    assert!(sys_mem_alloc_admissible(&k, a_id, VirtAddr::new(0)));
    assert!(sys_mem_unmap_admissible(&k, a_id, VirtAddr::new(0x0040_0000)));
    assert!(!sys_ipc_recv_admissible(&k, VirtAddr::new(0)));
    assert!(sys_ipc_recv_admissible(&k, VirtAddr::new(1)));
    assert_eq!(sys_mem_alloc(&mut k, a_id, VirtAddr::new(0x0040_0000), PTE_D), 0);
    assert!(sys_mem_map_admissible(&k, a_id, VirtAddr::new(0x0040_0000), a_id, VirtAddr::new(0x0050_0000)));
    let f = frame_at(&k, a, 0x0040_0000).unwrap();
    k.fa.decref(f);
    assert!(!sys_mem_unmap_admissible(&k, a_id, VirtAddr::new(0x0040_0000)));
    assert!(!sys_mem_alloc_admissible(&k, a_id, VirtAddr::new(0x0040_0000)));
    assert!(!sys_mem_map_admissible(&k, a_id, VirtAddr::new(0x0040_0000), a_id, VirtAddr::new(0x0050_0000)));
    assert!(sys_mem_map_admissible(&k, a_id, VirtAddr::new(0x0040_1000), a_id, VirtAddr::new(0x0050_0000)));
    let (b, b_id) = start_env(&mut k, EnvID::zero(), 1);
    assert!(sys_ipc_recv_admissible(&k, VirtAddr::new(0)));
    assert!(sys_ipc_try_send_admissible(&k, b_id, VirtAddr::new(0x0040_0000)));
    let mut receiver = *k.em.get_env(b);
    receiver.env_ipc_receiving = 1;
    receiver.env_ipc_dstva = VirtAddr::new(0x0060_0000);
    k.em.put_env(b, receiver);
    assert!(!sys_ipc_try_send_admissible(&k, b_id, VirtAddr::new(0x0040_0000)));
    assert!(sys_ipc_try_send_admissible(&k, b_id, VirtAddr::new(0)));
    let pgdir = k.em.get_env(a).env_pgdir.unwrap();
    k.fa.write_entry(pgdir, 3, mos::page_table::Pte::new_from_ppn(PhysPageNum::new(0xfffff), PTE_V));
    assert!(!PageTable::walk_admissible(&k.fa, pgdir, VirtAddr::new(0x00c0_0000)));
    assert!(!sys_mem_alloc_admissible(&k, a_id, VirtAddr::new(0x00c0_0000)));
    assert_eq!(k.fa.next_free(), k.fa.allocate().ok());
}

#[test]
fn admissibility_of_boot_layouts() {
    let good = mos::init::BootLayout {
        ram_low_size: 4096 * PAGE_SIZE,
        kernel_end: VirtAddr::new(KSEG0 + 200 * PAGE_SIZE - 5),
        frames_addr: VirtAddr::new(KSEG0 + 10 * PAGE_SIZE),
        envs_addr: VirtAddr::new(KSEG0 + 149 * PAGE_SIZE),
        base_pgdir: PhysPageNum::new(199),
    };
    assert!(mos::init::boot_layout_admissible(&good));
    let k = mos::init::new_kernel(good);
    assert_eq!(k.fa.num_free(), 4096 - 200 - 2);
    assert_eq!(k.fa.refcount(PhysPageNum::new(0)), 1);
    let mut bad = good;
    bad.envs_addr = VirtAddr::new(KSEG0 + 150 * PAGE_SIZE);
    assert!(!mos::init::boot_layout_admissible(&bad));
    bad = good;
    bad.base_pgdir = PhysPageNum::new(200);
    assert!(!mos::init::boot_layout_admissible(&bad));
    bad = good;
    bad.ram_low_size = 4095 * PAGE_SIZE;
    assert!(!mos::init::boot_layout_admissible(&bad));
    bad = good;
    bad.frames_addr = VirtAddr::new(KSEG0 + 10 * PAGE_SIZE + 4);
    assert!(!mos::init::boot_layout_admissible(&bad));
    bad = good;
    bad.kernel_end = VirtAddr::new(KSEG0 + 4095 * PAGE_SIZE);
    assert!(!mos::init::boot_layout_admissible(&bad));
}
