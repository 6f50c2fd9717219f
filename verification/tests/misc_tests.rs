use mos::bitops::{genmask, genmask_u64, log2, log_1, log_2, log_4, log_8};
use mos::device::{DevCopy, DeviceManager};
use mos::elf::{elf_from, elf_load_seg, phdr_from, Elf32Phdr, PF_R, PF_W, PT_LOAD};
use mos::env::{envx, EnvID, EnvStatus, ASID};
use mos::err::Error;
use mos::mmu::{
    PhysAddr, PhysPageNum, VirtAddr, VirtPageNum, KSEG0, KSTACKTOP, PTE_D, PTE_V, UCOW, UENVS, ULIM, UPAGES,
    USTACKTOP, UTEMP, UTEXT, UTOP, UVPT, UXSTACKTOP,
};
use mos::print::{printcharc, scancharc, Stdout, _print};
use mos::sem::SemManager;
use mos::traps::{Trapframe, TRAPFRAME_BYTES};

fn program_header(vaddr: u32, filesz: u32, memsz: u32, flags: u32) -> Elf32Phdr {
    Elf32Phdr {
        p_type: PT_LOAD,
        p_offset: 0,
        p_vaddr: vaddr,
        p_paddr: 0,
        p_filesz: filesz,
        p_memsz: memsz,
        p_flags: flags,
        p_align: 4096,
    }
}

#[test]
fn error_codes() {
    let all = [
        (Error::Unspecified, 1),
        (Error::BadEnv, 2),
        (Error::Inval, 3),
        (Error::NoMem, 4),
        (Error::NoSys, 5),
        (Error::NoFreeEnv, 6),
        (Error::IpcNotRecv, 7),
        (Error::NoDisk, 8),
        (Error::MaxOpen, 9),
        (Error::NotFound, 10),
        (Error::BadPath, 11),
        (Error::FileExists, 12),
        (Error::NotExec, 13),
        (Error::NotMapped, 14),
        (Error::NoSpc, 15),
    ];
    for (e, code) in all {
        assert_eq!(e.code(), code);
        assert_eq!(e.errno(), -code);
        let v: i32 = e.into();
        assert_eq!(v, -code);
    }
}

#[test]
fn masks() {
    assert_eq!(genmask(11, 0), 0xfff);
    assert_eq!(genmask(12, 0), 0x1fff);
    assert_eq!(genmask(31, 0), 0xffff_ffff);
    assert_eq!(genmask(7, 4), 0xf0);
    assert_eq!(genmask(31, 31), 0x8000_0000);
    assert_eq!(genmask(3, 5), 0);
    assert_eq!(genmask_u64(63, 0), u64::MAX);
    assert_eq!(genmask_u64(39, 32), 0xff_0000_0000);
}

#[test]
fn logarithms() {
    assert_eq!(log2(0), 0);
    assert_eq!(log2(1), 0);
    assert_eq!(log2(2), 1);
    assert_eq!(log2(3), 1);
    assert_eq!(log2(4096), 12);
    assert_eq!(log2(4097), 12);
    assert_eq!(log2(0xffff_ffff), 31);
    assert_eq!(log2(0x8000_0000), 31);
    assert_eq!(log_1(1), 0);
    assert_eq!(log_1(9), 1);
    assert_eq!(log_2(9), 3);
    assert_eq!(log_2(20), 3);
    assert_eq!(log_4(200), 7);
    assert_eq!(log_4(100), 6);
    assert_eq!(log_8(65535), 15);
    assert_eq!(log_8(300), 8);
}

#[test]
fn address_layout() {
    assert_eq!(ULIM, 0x8000_0000);
    assert_eq!(KSTACKTOP, 0x8040_0000);
    assert_eq!(UVPT, 0x7fc0_0000);
    assert_eq!(UPAGES, 0x7f80_0000);
    assert_eq!(UENVS, 0x7f40_0000);
    assert_eq!(UTOP, UENVS);
    assert_eq!(UXSTACKTOP, UTOP);
    assert_eq!(USTACKTOP, 0x7f3f_e000);
    assert_eq!(UTEXT, 0x0040_0000);
    assert_eq!(UCOW, 0x003f_f000);
    assert_eq!(UTEMP, 0x003f_e000);
}

#[test]
fn virtual_address_arithmetic() {
    let va = VirtAddr::new(0x7f3f_dabc);
    assert_eq!(va.as_usize(), 0x7f3f_dabc);
    assert_eq!(va.pdx(), 0x1fc);
    assert_eq!(va.ptx(), 0x3fd);
    assert_eq!(va.page_offset(), 0xabc);
    assert_eq!(va.page_align_down(), VirtAddr::new(0x7f3f_d000));
    assert_eq!(va.align_up(4096), VirtAddr::new(0x7f3f_e000));
    assert_eq!(VirtAddr::new(0x2000).align_up(4096), VirtAddr::new(0x2000));
    assert_eq!(VirtAddr::new(13).align_up(8), VirtAddr::new(16));
    assert!(VirtAddr::zero().is_null());
    assert!(!va.is_null());
    assert!(VirtAddr::new(0x3000).is_aligned(4096));
    assert!(!VirtAddr::new(0x3004).is_aligned(4096));
    assert_eq!(va + 0x10, VirtAddr::new(0x7f3f_dacc));
    assert!(VirtAddr::new(1) < VirtAddr::new(2));
}

#[test]
fn physical_address_arithmetic() {
    assert_eq!(PhysAddr::from_kva(VirtAddr::new(KSEG0 + 0x1234)), PhysAddr::new(0x1234));
    assert_eq!(PhysAddr::new(0x1234).into_kva(), VirtAddr::new(0x8000_1234));
    assert_eq!(PhysPageNum::from(PhysAddr::new(0x5fff)), PhysPageNum::new(5));
    assert_eq!(PhysAddr::from(PhysPageNum::new(5)), PhysAddr::new(0x5000));
    assert_eq!(PhysPageNum::new(5).into_kva(), VirtAddr::new(0x8000_5000));
    assert_eq!(PhysAddr::new(0x5000) + 4, PhysAddr::new(0x5004));
    assert_eq!(PhysPageNum::new(5) + 2, PhysPageNum::new(7));
    assert!(PhysAddr::new(0x5000).is_aligned(0x1000));
    assert!(!PhysAddr::new(0x5001).is_aligned(2));
    assert_eq!(PhysPageNum::new(9).as_usize(), 9);
    assert_eq!(VirtPageNum::new(9).as_usize(), 9);
    assert_eq!(PhysAddr::new(77).as_usize(), 77);
}

#[test]
fn identifiers() {
    assert_eq!(ASID::new(7).as_usize(), 7);
    assert_eq!(ASID::zero().as_usize(), 0);
    assert_eq!(EnvID::new(0x1803).envx(), 3);
    assert_eq!(EnvID::new(0x1803).as_usize(), 0x1803);
    assert_eq!(EnvID::zero(), EnvID::default());
    assert_eq!(envx(0x0fff_fbff), 0x3ff);
    assert_eq!(EnvStatus::from(0), EnvStatus::Free);
    assert_eq!(EnvStatus::from(1), EnvStatus::Runnable);
    assert_eq!(EnvStatus::from(2), EnvStatus::NotRunnable);
    assert_eq!(EnvStatus::from(77), EnvStatus::NotRunnable);
}

#[test]
fn write_fault_goes_to_the_exception_stack() {
    let mut tf = Trapframe::new();
    tf.regs[29] = USTACKTOP - 64;
    tf.regs[8] = 0x1234;
    tf.cp0_epc = 0x0040_0100;
    let before = tf;
    let saved = tf.do_tlb_mod(0x0040_2000);
    assert_eq!(saved.at, VirtAddr::new(UXSTACKTOP - TRAPFRAME_BYTES));
    assert_eq!(saved.frame.regs, before.regs);
    assert_eq!(saved.frame.cp0_epc, 0x0040_0100);
    assert_eq!(tf.regs[4], UXSTACKTOP - TRAPFRAME_BYTES);
    assert_eq!(tf.regs[29], UXSTACKTOP - TRAPFRAME_BYTES - 4);
    assert_eq!(tf.cp0_epc, 0x0040_2000);
    assert_eq!(tf.regs[8], 0x1234);
}

#[test]
fn nested_write_fault_pushes_below_the_frame_at_hand() {
    let mut tf = Trapframe::new();
    tf.regs[29] = UXSTACKTOP - 200;
    let saved = tf.do_tlb_mod(0x0040_2000);
    assert_eq!(saved.at, VirtAddr::new(UXSTACKTOP - 200 - TRAPFRAME_BYTES));
    assert_eq!(tf.regs[4], UXSTACKTOP - 200 - TRAPFRAME_BYTES);
    let mut at_top = Trapframe::new();
    at_top.regs[29] = UXSTACKTOP;
    let saved = at_top.do_tlb_mod(0x0040_2000);
    assert_eq!(saved.at, VirtAddr::new(UXSTACKTOP - TRAPFRAME_BYTES));
    let mut at_bottom = Trapframe::new();
    at_bottom.regs[29] = USTACKTOP;
    let saved = at_bottom.do_tlb_mod(0x0040_2000);
    assert_eq!(saved.at, VirtAddr::new(USTACKTOP - TRAPFRAME_BYTES));
}

#[test]
fn console_expands_line_feeds() {
    let mut con = Stdout::new();
    printcharc(&mut con, b'a');
    printcharc(&mut con, b'\n');
    con.put_byte(b'b');
    _print(&mut con, &b"x\ny".to_vec());
    con.write_str(&b"\n".to_vec());
    assert_eq!(con.take_output(), b"a\r\nbx\r\ny\r\n".to_vec());
    assert_eq!(con.take_output(), Vec::<u8>::new());
}

#[test]
fn console_input_is_read_in_order() {
    let mut con = Stdout::new();
    assert_eq!(scancharc(&mut con), 0);
    assert_eq!(con.try_get_byte(), None);
    con.receive(b'h');
    con.receive(b'i');
    assert_eq!(scancharc(&mut con), b'h');
    assert_eq!(con.try_get_byte(), Some(b'i'));
    assert_eq!(scancharc(&mut con), 0);
}

#[test]
fn semaphores() {
    let mut sm = SemManager::new();
    sm.init();
    assert!(sm.is_free(5));
    assert_eq!(sm.get(5), 0);
    assert_eq!(sm.sem_wait(5), 1);
    sm.sem_open(5, 2);
    assert!(!sm.is_free(5));
    sm.sem_open(5, 9);
    assert_eq!(sm.get(5), 2);
    assert_eq!(sm.sem_wait(5), 0);
    assert_eq!(sm.sem_wait(5), 0);
    assert_eq!(sm.sem_wait(5), 1);
    assert_eq!(sm.get(5), 0);
    sm.sem_post(5);
    assert_eq!(sm.get(5), 1);
    sm.sem_free(5);
    assert!(sm.is_free(5));
    sm.sem_open(5, 9);
    assert_eq!(sm.get(5), 9);
    assert_eq!(sm.get(6), 0);
}

#[test]
fn device_gateway_records_accesses() {
    let mut dev = DeviceManager::new();
    dev.write(VirtAddr::new(0x0040_0000), PhysAddr::new(0x1800_03f8), 1);
    dev.read(VirtAddr::new(0x0040_0004), PhysAddr::new(0x1800_01f0), 4);
    assert_eq!(
        dev.take(),
        vec![
            DevCopy { src: VirtAddr::new(0x0040_0000), dst: VirtAddr::new(0xB800_03f8), width: 1 },
            DevCopy { src: VirtAddr::new(0xB800_01f0), dst: VirtAddr::new(0x0040_0004), width: 4 },
        ]
    );
    assert!(dev.take().is_empty());
}

#[test]
fn elf_header_needs_magic_and_size() {
    let mut image = vec![0u8; 52];
    assert!(elf_from(&image, 52).is_none());
    image[0] = 0x7f;
    image[1] = b'E';
    image[2] = b'L';
    image[3] = b'F';
    image[24] = 0x78;
    image[25] = 0x56;
    image[26] = 0x34;
    image[27] = 0x12;
    image[28] = 52;
    image[42] = 32;
    image[44] = 3;
    assert!(elf_from(&image, 51).is_none());
    assert!(elf_from(&image[..51].to_vec(), 52).is_none());
    let h = elf_from(&image, 52).unwrap();
    assert_eq!(h.e_entry, 0x1234_5678);
    assert_eq!(h.e_phoff, 52);
    assert_eq!(h.e_phentsize, 32);
    assert_eq!(h.e_phnum, 3);
    let mut it = h.phdr_iter();
    assert_eq!(it.next(), Some(52));
    assert_eq!(it.next(), Some(84));
    assert_eq!(it.next(), Some(116));
    assert_eq!(it.next(), None);
    assert_eq!(it.next(), None);
}

#[test]
fn program_header_is_read_least_significant_byte_first() {
    let mut image = vec![0u8; 40];
    image[8] = 1;
    image[12] = 0x54;
    image[16] = 0x00;
    image[17] = 0x10;
    image[18] = 0x40;
    image[24] = 0x34;
    image[25] = 0x12;
    image[28] = 0x00;
    image[29] = 0x20;
    image[32] = 6;
    let ph = phdr_from(&image, 8).unwrap();
    assert_eq!(ph.p_type, PT_LOAD);
    assert_eq!(ph.p_offset, 0x54);
    assert_eq!(ph.p_vaddr, 0x0040_1000);
    assert_eq!(ph.p_filesz, 0x1234);
    assert_eq!(ph.p_memsz, 0x2000);
    assert_eq!(ph.p_flags, PF_W | PF_R);
    assert!(phdr_from(&image, 9).is_none());
    assert!(phdr_from(&image, 41).is_none());
}

#[test]
fn segment_is_split_into_pages() {
    let pages = elf_load_seg(&program_header(0x0040_0000, 0x1800, 0x3000, PF_R | PF_W));
    assert_eq!(pages.len(), 3);
    assert_eq!(pages[0].va, VirtAddr::new(0x0040_0000));
    assert_eq!(pages[0].src, Some(0));
    assert_eq!(pages[0].len, 0x1000);
    assert_eq!(pages[1].va, VirtAddr::new(0x0040_1000));
    assert_eq!(pages[1].src, Some(0x1000));
    assert_eq!(pages[1].len, 0x800);
    assert_eq!(pages[2].va, VirtAddr::new(0x0040_2000));
    assert_eq!(pages[2].src, None);
    assert_eq!(pages[2].len, 0x1000);
    for p in pages.iter() {
        assert_eq!(p.offset, 0);
        assert_eq!(p.perm, PTE_V | PTE_D);
    }
}

#[test]
fn segment_with_unaligned_start() {
    let pages = elf_load_seg(&program_header(0x0040_0f00, 0x300, 0x300, PF_R));
    assert_eq!(pages.len(), 2);
    assert_eq!(pages[0].va, VirtAddr::new(0x0040_0f00));
    assert_eq!(pages[0].offset, 0xf00);
    assert_eq!(pages[0].src, Some(0));
    assert_eq!(pages[0].len, 0x100);
    assert_eq!(pages[0].perm, PTE_V);
    assert_eq!(pages[1].va, VirtAddr::new(0x0040_1000));
    assert_eq!(pages[1].offset, 0);
    assert_eq!(pages[1].src, Some(0x100));
    assert_eq!(pages[1].len, 0x200);
    let empty = elf_load_seg(&program_header(0x0040_0000, 0, 0, PF_R));
    assert!(empty.is_empty());
    let bss_only = elf_load_seg(&program_header(0x0040_0000, 0, 0x1001, PF_W));
    assert_eq!(bss_only.len(), 2);
    assert_eq!(bss_only[1].len, 1);
    assert_eq!(bss_only[1].src, None);
}

#[test]
fn steps_between_frames() {
    let a = PhysPageNum::new(5);
    let b = PhysPageNum::new(9);
    assert_eq!(PhysPageNum::steps_between(&a, &b), Some(4));
    assert_eq!(PhysPageNum::steps_between(&b, &a), None);
    assert_eq!(PhysPageNum::forward_checked(a, 4), Some(b));
    assert_eq!(PhysPageNum::forward_checked(a, usize::MAX), None);
    assert_eq!(PhysPageNum::backward_checked(b, 4), Some(a));
    assert_eq!(PhysPageNum::backward_checked(a, 6), None);
}

#[test]
fn memset_fills_a_prefix() {
    let mut buf = vec![1u8, 2, 3, 4, 5, 6, 7];
    mos::string::memset(&mut buf, 0x1ff, 5);
    assert_eq!(buf, vec![0xff, 0xff, 0xff, 0xff, 0xff, 6, 7]);
    mos::string::memset(&mut buf, 0, 0);
    assert_eq!(buf[0], 0xff);
    mos::string::memset(&mut buf, -1, 7);
    assert_eq!(buf, vec![0xff; 7]);
}
