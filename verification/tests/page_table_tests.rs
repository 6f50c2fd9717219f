use mos::env::ASID;
use mos::err::Error;
use mos::frame::FrameAllocator;
use mos::mmu::{
    PhysAddr, PhysPageNum, VirtAddr, KSEG0, PAGE_SIZE, PDMAP, PTE_C_CACHEABLE, PTE_D, PTE_V, USTACKTOP, UVPT,
};
use mos::page_table::{PageTable, Pte, PteSlot};
use mos::tlb::{tlb_invalidate, Tlb};

fn small_memory(nframes: usize, used: usize) -> FrameAllocator {
    let mut fa = FrameAllocator::new();
    fa.init(VirtAddr::new(KSEG0 + used * 4096), nframes, VirtAddr::new(KSEG0));
    fa
}

fn steal_free_frames(fa: &mut FrameAllocator) -> Vec<PhysPageNum> {
    let mut stolen = Vec::new();
    while let Ok(f) = fa.allocate() {
        stolen.push(f);
    }
    stolen
}

fn va2pa(fa: &FrameAllocator, pgdir: PhysPageNum, va: usize) -> Option<usize> {
    PageTable::translate(fa, pgdir, VirtAddr::new(va)).map(|pa| pa.as_usize())
}

fn page2pa(p: PhysPageNum) -> usize {
    p.as_usize() << 12
}

fn count_mappings(fa: &FrameAllocator, pgdir: PhysPageNum, target: PhysPageNum, pages: usize) -> usize {
    let mut n = 0;
    for j in 0..pages {
        if let Ok((ppn, _)) = PageTable::lookup(fa, pgdir, VirtAddr::new(j * PAGE_SIZE)) {
            if ppn == target {
                n += 1;
            }
        }
    }
    n
}

#[test]
fn page_check() {
    let mut fa = small_memory(32, 4);
    let mut tlb = Tlb::new();
    let asid = ASID::new(0);
    let boot_pgdir = fa.allocate().unwrap();
    let pp0 = fa.allocate().unwrap();
    let pp1 = fa.allocate().unwrap();
    let pp2 = fa.allocate().unwrap();
    assert!(pp0 != pp1 && pp1 != pp2 && pp2 != pp0);
    let _rest = steal_free_frames(&mut fa);
    assert!(fa.allocate().is_err());

    assert!(PageTable::insert(&mut fa, &mut tlb, boot_pgdir, asid, pp1, VirtAddr::new(0), 0).is_err());
    fa.dealloc(pp0);
    assert!(PageTable::insert(&mut fa, &mut tlb, boot_pgdir, asid, pp1, VirtAddr::new(0), 0).is_ok());
    assert_eq!(fa.read_entry(boot_pgdir, 0).perm(), PTE_C_CACHEABLE | PTE_V);
    assert_eq!(va2pa(&fa, boot_pgdir, 0), Some(page2pa(pp1)));
    assert_eq!(fa.refcount(pp1), 1);
    assert!(PageTable::insert(&mut fa, &mut tlb, boot_pgdir, asid, pp2, VirtAddr::new(PAGE_SIZE), 0).is_ok());
    assert_eq!(va2pa(&fa, boot_pgdir, PAGE_SIZE), Some(page2pa(pp2)));
    assert_eq!(fa.refcount(pp2), 1);
    assert!(fa.allocate().is_err());

    assert!(PageTable::insert(&mut fa, &mut tlb, boot_pgdir, asid, pp2, VirtAddr::new(PAGE_SIZE), 0).is_ok());
    assert_eq!(va2pa(&fa, boot_pgdir, PAGE_SIZE), Some(page2pa(pp2)));
    assert_eq!(fa.refcount(pp2), 1);

    assert!(fa.allocate().is_err());
    assert!(PageTable::insert(&mut fa, &mut tlb, boot_pgdir, asid, pp0, VirtAddr::new(PDMAP), 0).is_err());
    assert!(PageTable::insert(&mut fa, &mut tlb, boot_pgdir, asid, pp1, VirtAddr::new(PAGE_SIZE), 0).is_ok());
    assert_eq!(va2pa(&fa, boot_pgdir, 0), Some(page2pa(pp1)));
    assert_eq!(va2pa(&fa, boot_pgdir, PAGE_SIZE), Some(page2pa(pp1)));
    assert_eq!(fa.refcount(pp1), 2);
    assert_eq!(fa.refcount(pp2), 0);

    assert_eq!(fa.allocate(), Ok(pp2));
    PageTable::remove(&mut fa, &mut tlb, boot_pgdir, asid, VirtAddr::new(0));
    assert_eq!(va2pa(&fa, boot_pgdir, 0), None);
    assert_eq!(va2pa(&fa, boot_pgdir, PAGE_SIZE), Some(page2pa(pp1)));
    assert_eq!(fa.refcount(pp1), 1);
    assert_eq!(fa.refcount(pp2), 0);

    PageTable::remove(&mut fa, &mut tlb, boot_pgdir, asid, VirtAddr::new(PAGE_SIZE));
    assert_eq!(va2pa(&fa, boot_pgdir, 0), None);
    assert_eq!(va2pa(&fa, boot_pgdir, PAGE_SIZE), None);
    assert_eq!(fa.refcount(pp1), 0);
    assert_eq!(fa.refcount(pp2), 0);

    assert_eq!(fa.allocate(), Ok(pp1));
    assert!(fa.allocate().is_err());
    assert_eq!(fa.read_entry(boot_pgdir, 0).ppn(), pp0);
    assert_eq!(fa.refcount(pp0), 1);
}

#[test]
fn page_strong_check() {
    let mut fa = small_memory(32, 4);
    let mut tlb = Tlb::new();
    let asid = ASID::new(0);
    let boot_pgdir = fa.allocate().unwrap();
    let pp0 = fa.allocate().unwrap();
    let pp1 = fa.allocate().unwrap();
    let pp2 = fa.allocate().unwrap();
    let pp3 = fa.allocate().unwrap();
    let _pp4 = fa.allocate().unwrap();
    let _rest = steal_free_frames(&mut fa);

    assert!(PageTable::insert(&mut fa, &mut tlb, boot_pgdir, asid, pp1, VirtAddr::new(0), 0).is_err());
    assert!(fa.allocate().is_err());
    fa.dealloc(pp0);
    assert!(PageTable::insert(&mut fa, &mut tlb, boot_pgdir, asid, pp1, VirtAddr::new(0), 0).is_ok());
    assert!(PageTable::insert(&mut fa, &mut tlb, boot_pgdir, asid, pp2, VirtAddr::new(PAGE_SIZE), 0).is_ok());
    assert!(PageTable::insert(&mut fa, &mut tlb, boot_pgdir, asid, pp3, VirtAddr::new(2 * PAGE_SIZE), 0).is_ok());
    assert_eq!(fa.read_entry(boot_pgdir, 0).addr().as_usize(), page2pa(pp0));
    assert_eq!(va2pa(&fa, boot_pgdir, 0), Some(page2pa(pp1)));
    assert_eq!(fa.refcount(pp1), 1);
    assert_eq!(va2pa(&fa, boot_pgdir, PAGE_SIZE), Some(page2pa(pp2)));
    assert_eq!(fa.refcount(pp2), 1);
    assert_eq!(va2pa(&fa, boot_pgdir, 2 * PAGE_SIZE), Some(page2pa(pp3)));
    assert_eq!(fa.refcount(pp3), 1);

    assert!(PageTable::insert(&mut fa, &mut tlb, boot_pgdir, asid, pp2, VirtAddr::new(PAGE_SIZE), 0).is_ok());
    assert_eq!(va2pa(&fa, boot_pgdir, PAGE_SIZE), Some(page2pa(pp2)));
    assert_eq!(fa.refcount(pp2), 1);

    assert!(PageTable::insert(&mut fa, &mut tlb, boot_pgdir, asid, pp0, VirtAddr::new(PDMAP), 0).is_err());
    PageTable::remove(&mut fa, &mut tlb, boot_pgdir, asid, VirtAddr::new(0));
    assert_eq!(va2pa(&fa, boot_pgdir, 0), None);
    assert!(PageTable::insert(&mut fa, &mut tlb, boot_pgdir, asid, pp0, VirtAddr::new(PDMAP), 0).is_ok());

    assert!(PageTable::insert(&mut fa, &mut tlb, boot_pgdir, asid, pp2, VirtAddr::new(2 * PAGE_SIZE), 0).is_ok());
    assert_eq!(va2pa(&fa, boot_pgdir, PAGE_SIZE), Some(page2pa(pp2)));
    assert_eq!(va2pa(&fa, boot_pgdir, 2 * PAGE_SIZE), Some(page2pa(pp2)));
    assert_eq!(fa.refcount(pp2), 2);
    assert_eq!(fa.refcount(pp3), 0);
    assert!(
        PageTable::insert(&mut fa, &mut tlb, boot_pgdir, asid, pp2, VirtAddr::new(PDMAP + PAGE_SIZE), 0).is_ok()
    );
    assert_eq!(fa.refcount(pp2), 3);

    assert_eq!(fa.allocate(), Ok(pp3));
    PageTable::remove(&mut fa, &mut tlb, boot_pgdir, asid, VirtAddr::new(PAGE_SIZE));
    assert_eq!(va2pa(&fa, boot_pgdir, 2 * PAGE_SIZE), Some(page2pa(pp2)));
    assert_eq!(fa.refcount(pp2), 2);
    assert_eq!(fa.refcount(pp3), 0);

    PageTable::remove(&mut fa, &mut tlb, boot_pgdir, asid, VirtAddr::new(2 * PAGE_SIZE));
    assert_eq!(va2pa(&fa, boot_pgdir, 0), None);
    assert_eq!(va2pa(&fa, boot_pgdir, PAGE_SIZE), None);
    assert_eq!(va2pa(&fa, boot_pgdir, 2 * PAGE_SIZE), None);
    assert_eq!(fa.refcount(pp2), 1);

    PageTable::remove(&mut fa, &mut tlb, boot_pgdir, asid, VirtAddr::new(PDMAP + PAGE_SIZE));
    assert_eq!(va2pa(&fa, boot_pgdir, PDMAP + PAGE_SIZE), None);
    assert_eq!(fa.refcount(pp2), 0);
    assert_eq!(fa.allocate(), Ok(pp2));
    assert!(fa.allocate().is_err());

    assert_eq!(fa.read_entry(boot_pgdir, 0).addr().as_usize(), page2pa(pp0));
    assert_eq!(fa.read_entry(boot_pgdir, 1).addr().as_usize(), page2pa(pp1));
    assert_eq!(fa.refcount(pp0), 2);
    assert_eq!(fa.refcount(pp1), 1);
}

#[test]
fn tlb_refill_check() {
    let mut fa = small_memory(32, 4);
    let mut tlb = Tlb::new();
    let asid = ASID::new(0);
    let boot_pgdir = fa.allocate().unwrap();
    let pp0 = fa.allocate().unwrap();
    let pp1 = fa.allocate().unwrap();
    let pp2 = fa.allocate().unwrap();
    let pp3 = fa.allocate().unwrap();
    let pp4 = fa.allocate().unwrap();
    let _rest = steal_free_frames(&mut fa);
    fa.dealloc(pp0);
    assert!(PageTable::insert(&mut fa, &mut tlb, boot_pgdir, asid, pp1, VirtAddr::new(0), 0).is_ok());
    assert!(PageTable::insert(&mut fa, &mut tlb, boot_pgdir, asid, pp2, VirtAddr::new(PAGE_SIZE), 0).is_ok());

    let mut entries = [0usize; 2];
    PageTable::do_tlb_refill(&mut fa, &mut tlb, boot_pgdir, &mut entries, VirtAddr::new(PAGE_SIZE), asid);
    let (walk_page, slot) = PageTable::lookup(&fa, boot_pgdir, VirtAddr::new(PAGE_SIZE)).unwrap();
    let walk_pte = fa.read_entry(slot.table, slot.index);
    assert_eq!(walk_page, pp2);
    let hits = (entries[0] == walk_pte.as_usize() >> 6) as i32 + (entries[1] == walk_pte.as_usize() >> 6) as i32;
    assert_eq!(hits, 1);
    assert_eq!(entries[1], walk_pte.as_usize() >> 6);
    assert_eq!(entries[0], fa.read_entry(slot.table, 0).as_usize() >> 6);
    assert_eq!(PageTable::translate(&fa, boot_pgdir, VirtAddr::new(PAGE_SIZE)), Some(PhysAddr::from(pp2)));

    fa.dealloc(pp4);
    fa.dealloc(pp3);
    assert_eq!(
        PageTable::lookup(&fa, boot_pgdir, VirtAddr::new(0x0040_0000)),
        Err(Error::NotMapped)
    );
    PageTable::do_tlb_refill(&mut fa, &mut tlb, boot_pgdir, &mut entries, VirtAddr::new(0x0040_0000), asid);
    let (pp, slot) = PageTable::lookup(&fa, boot_pgdir, VirtAddr::new(0x0040_0000)).unwrap();
    assert_eq!(pp, pp4);
    assert_eq!(slot, PteSlot { table: pp3, index: 0 });
    assert_eq!(
        PageTable::translate(&fa, boot_pgdir, VirtAddr::new(0x0040_0000)),
        Some(PhysAddr::from(pp4))
    );
    let pte = fa.read_entry(slot.table, slot.index);
    assert_eq!(pte.perm(), PTE_D | PTE_C_CACHEABLE | PTE_V);
    assert_eq!(entries[0], pte.as_usize() >> 6);
    assert_eq!(entries[1], 0);
    assert_eq!(fa.refcount(pp4), 2);
}

#[test]
fn insert_then_translate_keeps_the_page_offset() {
    let mut fa = small_memory(16, 2);
    let mut tlb = Tlb::new();
    let pgdir = fa.allocate().unwrap();
    fa.incref(pgdir);
    let frame = fa.allocate().unwrap();
    let va = VirtAddr::new(0x0080_1234);
    assert_eq!(PageTable::translate(&fa, pgdir, va), None);
    assert_eq!(PageTable::insert(&mut fa, &mut tlb, pgdir, ASID::new(3), frame, va, PTE_D), Ok(()));
    assert_eq!(
        PageTable::translate(&fa, pgdir, va),
        Some(PhysAddr::new((frame.as_usize() << 12) + 0x234))
    );
    PageTable::remove(&mut fa, &mut tlb, pgdir, ASID::new(3), va);
    assert_eq!(PageTable::translate(&fa, pgdir, va), None);
    PageTable::remove(&mut fa, &mut tlb, pgdir, ASID::new(3), va);
    assert_eq!(PageTable::translate(&fa, pgdir, va), None);
}

#[test]
fn insert_twice_counts_one_reference() {
    let mut fa = small_memory(16, 2);
    let mut tlb = Tlb::new();
    let pgdir = fa.allocate().unwrap();
    fa.incref(pgdir);
    let frame = fa.allocate().unwrap();
    let va = VirtAddr::new(0x0040_0000);
    assert_eq!(PageTable::insert(&mut fa, &mut tlb, pgdir, ASID::new(1), frame, va, 0), Ok(()));
    let free_after_first = fa.num_free();
    assert_eq!(fa.refcount(frame), 1);
    assert_eq!(PageTable::insert(&mut fa, &mut tlb, pgdir, ASID::new(1), frame, va, 0), Ok(()));
    assert_eq!(fa.refcount(frame), 1);
    assert_eq!(fa.num_free(), free_after_first);
    assert_eq!(PageTable::insert(&mut fa, &mut tlb, pgdir, ASID::new(1), frame, va, PTE_D), Ok(()));
    assert_eq!(fa.refcount(frame), 1);
    let (_, slot) = PageTable::lookup(&fa, pgdir, va).unwrap();
    assert_eq!(fa.read_entry(slot.table, slot.index).perm(), PTE_D | PTE_C_CACHEABLE | PTE_V);
}

#[test]
fn refcount_equals_number_of_mappings() {
    let mut fa = small_memory(32, 2);
    let mut tlb = Tlb::new();
    let asid = ASID::new(0);
    let pgdir = fa.allocate().unwrap();
    fa.incref(pgdir);
    let target = fa.allocate().unwrap();
    let pages = 3 * 1024;
    let script: [(bool, usize); 10] = [
        (true, 0),
        (true, 5),
        (true, 1024),
        (true, 5),
        (false, 0),
        (false, 7),
        (true, 2047),
        (false, 1024),
        (false, 5),
        (true, 0),
    ];
    for (insert, page) in script {
        let va = VirtAddr::new(page * PAGE_SIZE);
        if insert {
            assert_eq!(PageTable::insert(&mut fa, &mut tlb, pgdir, asid, target, va, PTE_D), Ok(()));
        } else {
            PageTable::remove(&mut fa, &mut tlb, pgdir, asid, va);
        }
        assert_eq!(fa.refcount(target) as usize, count_mappings(&fa, pgdir, target, pages));
    }
    assert_eq!(fa.refcount(target), 2);
}

#[test]
fn insert_into_a_freed_directory_can_lose_the_mapping() {
    let mut fa = small_memory(16, 2);
    let mut tlb = Tlb::new();
    let pgdir = fa.allocate().unwrap();
    let frame = fa.allocate().unwrap();
    let _rest = steal_free_frames(&mut fa);
    fa.dealloc(pgdir);
    let va = VirtAddr::new(0);
    assert_eq!(va.pdx(), va.ptx());
    assert_eq!(PageTable::insert(&mut fa, &mut tlb, pgdir, ASID::new(0), frame, va, 0), Ok(()));
    assert_eq!(fa.read_entry(pgdir, 0).ppn(), frame);
    assert_eq!(PageTable::translate(&fa, pgdir, va), None);
}

#[test]
fn insert_over_the_self_map_still_translates() {
    let mut fa = small_memory(16, 2);
    let mut tlb = Tlb::new();
    let pgdir = fa.allocate().unwrap();
    fa.incref(pgdir);
    fa.incref(pgdir);
    fa.write_entry(pgdir, 511, Pte::new_from_ppn(pgdir, PTE_V));
    let frame = fa.allocate().unwrap();
    let va = VirtAddr::new(UVPT + (511 << 12));
    assert_eq!(va.pdx(), va.ptx());
    assert_eq!(PageTable::insert(&mut fa, &mut tlb, pgdir, ASID::new(0), frame, va, 0), Ok(()));
    assert_eq!(PageTable::translate(&fa, pgdir, va), Some(PhysAddr::from(frame)));
    assert_eq!(fa.refcount(pgdir), 1);
}

#[test]
fn lookup_ppn_fails_where_the_page_is_not_mapped() {
    let mut fa = small_memory(16, 2);
    let mut tlb = Tlb::new();
    let pgdir = fa.allocate().unwrap();
    let frame = fa.allocate().unwrap();
    assert_eq!(PageTable::lookup_ppn(&fa, pgdir, VirtAddr::new(0x1000)), Err(Error::NotMapped));
    assert_eq!(PageTable::insert(&mut fa, &mut tlb, pgdir, ASID::new(0), frame, VirtAddr::new(0x1000), 0), Ok(()));
    assert_eq!(PageTable::lookup_ppn(&fa, pgdir, VirtAddr::new(0x1000)), Ok(frame));
    assert_eq!(PageTable::lookup_ppn(&fa, pgdir, VirtAddr::new(0x1abc)), Ok(frame));
    let free_before = fa.num_free();
    assert_eq!(PageTable::lookup_ppn(&fa, pgdir, VirtAddr::new(0x2000)), Err(Error::NotMapped));
    assert_eq!(PageTable::lookup(&fa, pgdir, VirtAddr::new(0x2000)), Err(Error::NotMapped));
    let (_, slot) = PageTable::lookup(&fa, pgdir, VirtAddr::new(0x1000)).unwrap();
    fa.write_entry(slot.table, 2, Pte::new_from_ppn(PhysPageNum::new(9), PTE_D));
    assert_eq!(PageTable::lookup_ppn(&fa, pgdir, VirtAddr::new(0x2000)), Err(Error::NotMapped));
    assert_eq!(fa.num_free(), free_before);
}

#[test]
fn walk_or_create_makes_a_table_only_when_asked() {
    let mut fa = small_memory(16, 2);
    let pgdir = fa.allocate().unwrap();
    let va = VirtAddr::new(0x00C0_3000);
    assert_eq!(PageTable::walk_or_create(&mut fa, pgdir, va, 0), Err(Error::NotMapped));
    let free_before = fa.num_free();
    let slot = PageTable::walk_or_create(&mut fa, pgdir, va, 1).unwrap();
    assert_eq!(slot.index, 3);
    assert_eq!(fa.num_free(), free_before - 1);
    assert_eq!(fa.refcount(slot.table), 1);
    assert_eq!(fa.read_entry(pgdir, 3), Pte::new_from_ppn(slot.table, PTE_C_CACHEABLE | PTE_V));
    assert_eq!(PageTable::walk_or_create(&mut fa, pgdir, va, 0), Ok(slot));
    assert_eq!(PageTable::walk_or_create(&mut fa, pgdir, va, 1), Ok(slot));
    assert_eq!(fa.num_free(), free_before - 1);
}

#[test]
fn insert_records_the_invalidations_in_order() {
    let mut fa = small_memory(16, 2);
    let mut tlb = Tlb::new();
    let pgdir = fa.allocate().unwrap();
    let a = fa.allocate().unwrap();
    let b = fa.allocate().unwrap();
    fa.incref(b);
    let va = VirtAddr::new(0x0040_2abc);
    let asid = ASID::new(0x105);
    assert_eq!(PageTable::insert(&mut fa, &mut tlb, pgdir, asid, a, va, 0), Ok(()));
    assert_eq!(tlb.take(), vec![0x0040_2005]);
    assert_eq!(PageTable::insert(&mut fa, &mut tlb, pgdir, asid, a, va, 0), Ok(()));
    assert_eq!(tlb.pending_len(), 1);
    assert_eq!(tlb.take(), vec![0x0040_2005]);
    assert_eq!(PageTable::insert(&mut fa, &mut tlb, pgdir, asid, b, va, 0), Ok(()));
    assert_eq!(tlb.take(), vec![0x0040_2005, 0x0040_2005]);
    PageTable::remove(&mut fa, &mut tlb, pgdir, asid, VirtAddr::new(0x0080_0000));
    assert_eq!(tlb.pending_len(), 0);
    tlb_invalidate(&mut tlb, ASID::new(7), VirtAddr::new(0x7f3f_dfff));
    assert_eq!(tlb.take(), vec![0x7f3f_d007]);
}

#[test]
fn map_segment_maps_every_page() {
    let mut fa = small_memory(32, 8);
    let mut tlb = Tlb::new();
    let pgdir = fa.allocate().unwrap();
    PageTable::map_segment(
        &mut fa,
        &mut tlb,
        pgdir,
        ASID::new(0),
        PhysAddr::new(2 * PAGE_SIZE),
        VirtAddr::new(0x0100_0000),
        3 * PAGE_SIZE,
        PTE_D,
    );
    for i in 0..3 {
        assert_eq!(
            PageTable::translate(&fa, pgdir, VirtAddr::new(0x0100_0000 + i * PAGE_SIZE + 4)),
            Some(PhysAddr::new((2 + i) * PAGE_SIZE + 4))
        );
        assert_eq!(fa.refcount(PhysPageNum::new(2 + i)), 2);
    }
    assert_eq!(PageTable::translate(&fa, pgdir, VirtAddr::new(0x0100_3000)), None);
    assert_eq!(tlb.pending_len(), 3);
}

#[test]
fn passive_alloc_maps_a_writable_zero_page() {
    let mut fa = small_memory(16, 2);
    let mut tlb = Tlb::new();
    let pgdir = fa.allocate().unwrap();
    fa.incref(pgdir);
    let va = VirtAddr::new(USTACKTOP - 8);
    PageTable::passive_alloc(&mut fa, &mut tlb, pgdir, va, ASID::new(2));
    let (ppn, slot) = PageTable::lookup(&fa, pgdir, va).unwrap();
    assert_eq!(fa.read_entry(slot.table, slot.index).perm(), PTE_D | PTE_C_CACHEABLE | PTE_V);
    assert_eq!(fa.refcount(ppn), 2);
    assert_eq!(fa.read_entry(ppn, 0).as_usize(), 0);
    assert_eq!(tlb.take(), vec![(USTACKTOP - PAGE_SIZE) | 2]);
}

#[test]
fn passive_alloc_in_the_page_table_window_is_read_only() {
    let mut fa = small_memory(16, 2);
    let mut tlb = Tlb::new();
    let pgdir = fa.allocate().unwrap();
    fa.incref(pgdir);
    let va = VirtAddr::new(UVPT + 0x1234);
    PageTable::passive_alloc(&mut fa, &mut tlb, pgdir, va, ASID::new(0));
    let (_, slot) = PageTable::lookup(&fa, pgdir, va).unwrap();
    assert_eq!(fa.read_entry(slot.table, slot.index).perm(), PTE_C_CACHEABLE | PTE_V);
}

#[test]
fn page_table_entries_are_set_and_read_by_index() {
    let mut pt = PageTable::new();
    assert_eq!(pt.get_entry(0), Pte::new(0));
    assert_eq!(pt.get_entry(1023), Pte::new(0));
    pt.set_entry(17, Pte::new_from_ppn(PhysPageNum::new(0x321), PTE_V));
    assert_eq!(pt.get_entry(17).as_usize(), 0x321080);
    assert_eq!(pt.get_entry(16), Pte::new(0));
}

#[test]
fn pte_fields() {
    let pte = Pte::new_from_ppn(PhysPageNum::new(0xABCDE), PTE_D | PTE_V);
    assert_eq!(pte.as_usize(), 0xABCD_E180);
    assert_eq!(pte.ppn(), PhysPageNum::new(0xABCDE));
    assert_eq!(pte.perm(), 0x180);
    assert!(pte.valid());
    assert_eq!(pte.addr(), PhysAddr::new(0xABCD_E000));
    assert!(!Pte::new(PTE_D).valid());
    assert_eq!(PhysAddr::from(pte), PhysAddr::new(0xABCD_E000));
    assert_eq!(PhysAddr::new_from_pte(pte, 0x123), PhysAddr::new(0xABCD_E123));
}

#[test]
fn admissibility_checks() {
    let mut fa = small_memory(16, 2);
    let mut tlb = Tlb::new();
    let pgdir = fa.allocate().unwrap();
    let frame = fa.allocate().unwrap();
    let va = VirtAddr::new(0x0040_0000);
    assert!(PageTable::remove_admissible(&fa, pgdir, va));
    assert!(!PageTable::remove_admissible(&fa, PhysPageNum::new(16), va));
    assert!(PageTable::insert_admissible(&fa, pgdir, frame, va));
    assert!(!PageTable::insert_admissible(&fa, pgdir, PhysPageNum::new(16), va));
    assert!(!PageTable::insert_admissible(&fa, pgdir, PhysPageNum::new(10), va));
    assert_eq!(PageTable::insert(&mut fa, &mut tlb, pgdir, ASID::new(0), frame, va, 0), Ok(()));
    assert!(PageTable::insert_admissible(&fa, pgdir, frame, va));
    fa.decref(frame);
    assert!(!PageTable::remove_admissible(&fa, pgdir, va));
    fa.write_entry(pgdir, 2, Pte::new_from_ppn(PhysPageNum::new(999), PTE_V));
    assert!(!PageTable::remove_admissible(&fa, pgdir, VirtAddr::new(0x0080_0000)));
}

#[test]
fn insert_and_remove_leave_other_pages_and_other_spaces_alone() {
    let mut fa = small_memory(64, 4);
    let mut tlb = Tlb::new();
    let a = fa.allocate().unwrap();
    fa.incref(a);
    let b = fa.allocate().unwrap();
    fa.incref(b);
    let p = fa.allocate().unwrap();
    let q = fa.allocate().unwrap();
    let r = fa.allocate().unwrap();
    assert!(PageTable::insert(&mut fa, &mut tlb, a, ASID::new(1), p, VirtAddr::new(0x0040_0000), PTE_D).is_ok());
    assert!(PageTable::insert(&mut fa, &mut tlb, b, ASID::new(2), q, VirtAddr::new(0x0040_0000), PTE_D).is_ok());
    assert_eq!(va2pa(&fa, a, 0x0040_0010), Some(page2pa(p) + 0x10));
    assert_eq!(va2pa(&fa, b, 0x0040_0010), Some(page2pa(q) + 0x10));

    assert!(PageTable::insert(&mut fa, &mut tlb, a, ASID::new(1), r, VirtAddr::new(0x0040_1000), 0).is_ok());
    assert_eq!(va2pa(&fa, a, 0x0040_0010), Some(page2pa(p) + 0x10));
    assert_eq!(va2pa(&fa, b, 0x0040_0010), Some(page2pa(q) + 0x10));
    assert_eq!(va2pa(&fa, b, 0x0040_1000), None);

    assert!(PageTable::insert(&mut fa, &mut tlb, a, ASID::new(1), r, VirtAddr::new(0x0080_0000), 0).is_ok());
    assert_eq!(va2pa(&fa, a, 0x0040_1004), Some(page2pa(r) + 4));
    assert_eq!(va2pa(&fa, b, 0x0080_0000), None);
    assert_eq!(fa.refcount(r), 2);

    PageTable::remove(&mut fa, &mut tlb, a, ASID::new(1), VirtAddr::new(0x0040_0000));
    assert_eq!(va2pa(&fa, a, 0x0040_0000), None);
    assert_eq!(va2pa(&fa, a, 0x0040_1004), Some(page2pa(r) + 4));
    assert_eq!(va2pa(&fa, a, 0x0080_0000), Some(page2pa(r)));
    assert_eq!(va2pa(&fa, b, 0x0040_0010), Some(page2pa(q) + 0x10));
    assert_eq!(fa.refcount(p), 0);
    assert_eq!(fa.refcount(q), 1);
}
