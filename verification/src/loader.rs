//! Loading a program image into an address space, page by page.

use vstd::prelude::*;
use crate::elf::{
    EHDR_BYTES, Elf32Ehdr, Elf32Phdr, elf_from, elf_load_seg, has_magic, is_ehdr_of, phdr_at, PHDR_BYTES,
    phdr_from, phdr_offset, PT_LOAD, seg_fits, seg_pages, SegPage,
};
use crate::env::Env;
use crate::err::Error;
use crate::frame::{FrameAllocator, FrameState};
use crate::mmu::{PAGE_SIZE, PhysPageNum};
use crate::page_table::{insert_pre, insert_runs_out, insert_step, MapState, PageTable};
use crate::tlb::Tlb;

verus! {

/// The bytes that a page takes from the program image, whose segment starts
/// at `base`.
pub open spec fn page_bytes(page: SegPage, binary: Seq<u8>, base: int) -> Seq<u8> {
    match page.src {
        Some(st) => binary.subrange(base + st, base + st + page.len),
        None => Seq::empty(),
    }
}

/// Memory with the frame at the head of the free list taken, zeroed and
/// filled with the bytes of `page`.
pub open spec fn page_frame_filled(s: FrameState, page: SegPage, binary: Seq<u8>, base: int) -> FrameState {
    s.after_alloc().after_store_bytes(s.free[0] as int, page.offset as int, page_bytes(page, binary, base))
}

/// What loading one page needs where a frame is free: the bytes lie within
/// the page and within the image, and the insertion finds what it needs.
pub open spec fn load_page_pre(m: MapState, e: Env, page: SegPage, binary: Seq<u8>, base: int) -> bool {
    m.frames.free.len() > 0 ==> {
        &&& page.offset + page.len <= PAGE_SIZE
        &&& match page.src {
            Some(st) => base + st + page.len <= binary.len(),
            None => true,
        }
        &&& match e.env_pgdir {
            Some(d) => insert_pre(
                page_frame_filled(m.frames, page, binary, base),
                d,
                PhysPageNum(m.frames.free[0]),
                page.va,
            ),
            None => true,
        }
    }
}

/// Whether loading one page ends with `NoMem`: no frame for the page, or
/// none for the table that maps it.
pub open spec fn load_page_fails(m: MapState, e: Env, page: SegPage, binary: Seq<u8>, base: int) -> bool {
    ||| m.frames.free.len() == 0
    ||| match e.env_pgdir {
        Some(d) => insert_runs_out(
            page_frame_filled(m.frames, page, binary, base),
            d,
            PhysPageNum(m.frames.free[0]),
            page.va,
        ),
        None => false,
    }
}

/// Memory and gateway after one page has been loaded: a fresh frame holds
/// its bytes and is mapped at its address with its flags.
pub open spec fn load_page_step(m: MapState, e: Env, page: SegPage, binary: Seq<u8>, base: int) -> MapState {
    if m.frames.free.len() == 0 {
        m
    } else {
        let filled = MapState { frames: page_frame_filled(m.frames, page, binary, base), tlb: m.tlb };
        match e.env_pgdir {
            Some(d) => insert_step(filled, d, e.env_asid, PhysPageNum(m.frames.free[0]), page.va, page.perm),
            None => filled,
        }
    }
}

/// Memory and gateway after the first `upto` pages have been loaded.
pub open spec fn load_pages(
    m: MapState,
    e: Env,
    pages: Seq<SegPage>,
    binary: Seq<u8>,
    base: int,
    upto: nat,
) -> MapState
    decreases upto,
{
    if upto == 0 {
        m
    } else {
        load_page_step(
            load_pages(m, e, pages, binary, base, (upto - 1) as nat),
            e,
            pages[upto - 1],
            binary,
            base,
        )
    }
}

/// Each of the first `upto` pages loads without running out of frames.
pub open spec fn load_pages_ok(
    m: MapState,
    e: Env,
    pages: Seq<SegPage>,
    binary: Seq<u8>,
    base: int,
    upto: nat,
) -> bool
    decreases upto,
{
    if upto == 0 {
        true
    } else {
        let m1 = load_pages(m, e, pages, binary, base, (upto - 1) as nat);
        &&& load_pages_ok(m, e, pages, binary, base, (upto - 1) as nat)
        &&& load_page_pre(m1, e, pages[upto - 1], binary, base)
        &&& !load_page_fails(m1, e, pages[upto - 1], binary, base)
    }
}

/// Program header `k` of the image.
pub open spec fn image_phdr(binary: Seq<u8>, h: Elf32Ehdr, k: int) -> Elf32Phdr {
    phdr_at(binary, phdr_offset(h, k))
}

/// Memory and gateway after the segment of program header `k` has been
/// loaded, if it is a loadable one.
pub open spec fn load_segment_step(m: MapState, e: Env, binary: Seq<u8>, h: Elf32Ehdr, k: int) -> MapState {
    let ph = image_phdr(binary, h, k);
    if ph.p_type == PT_LOAD {
        load_pages(m, e, seg_pages(ph), binary, ph.p_offset as int, seg_pages(ph).len())
    } else {
        m
    }
}

/// Program header `k` lies within the image, and its segment, if loadable,
/// lies within the image and the address space and loads page by page.
pub open spec fn load_segment_ok(m: MapState, e: Env, binary: Seq<u8>, h: Elf32Ehdr, k: int) -> bool {
    let ph = image_phdr(binary, h, k);
    &&& phdr_offset(h, k) + PHDR_BYTES <= binary.len()
    &&& ph.p_type == PT_LOAD ==> {
        &&& ph.p_offset + ph.p_filesz <= binary.len()
        &&& seg_fits(ph)
        &&& load_pages_ok(m, e, seg_pages(ph), binary, ph.p_offset as int, seg_pages(ph).len())
    }
}

/// Memory and gateway after the segments of the first `upto` program headers
/// have been loaded.
pub open spec fn load_segments(m: MapState, e: Env, binary: Seq<u8>, h: Elf32Ehdr, upto: nat) -> MapState
    decreases upto,
{
    if upto == 0 {
        m
    } else {
        load_segment_step(load_segments(m, e, binary, h, (upto - 1) as nat), e, binary, h, upto - 1)
    }
}

/// The segments of the first `upto` program headers load.
pub open spec fn load_segments_ok(m: MapState, e: Env, binary: Seq<u8>, h: Elf32Ehdr, upto: nat) -> bool
    decreases upto,
{
    if upto == 0 {
        true
    } else {
        &&& load_segments_ok(m, e, binary, h, (upto - 1) as nat)
        &&& load_segment_ok(load_segments(m, e, binary, h, (upto - 1) as nat), e, binary, h, upto - 1)
    }
}

/// The file header of an image that has one.
pub open spec fn image_header(binary: Seq<u8>) -> Elf32Ehdr {
    choose|h: Elf32Ehdr| is_ehdr_of(h, binary)
}

/// An image has at most one file header.
pub proof fn lemma_header_unique(h: Elf32Ehdr, binary: Seq<u8>)
    requires
        is_ehdr_of(h, binary),
    ensures
        h == image_header(binary),
{
    let g = image_header(binary);
    assert(is_ehdr_of(g, binary));
    assert forall|i: int| 0 <= i < 16 implies h.e_ident[i] == g.e_ident[i] by {
        assert(h.e_ident[i] == binary[i]);
        assert(g.e_ident[i] == binary[i]);
    }
    assert(h.e_ident =~= g.e_ident);
}

/// The image is a program that loads into the address space of `e`: it
/// starts with a file header, and every segment loads.
pub open spec fn load_icode_ok(m: MapState, e: Env, binary: Seq<u8>, size: usize) -> bool {
    &&& size >= EHDR_BYTES
    &&& binary.len() >= EHDR_BYTES
    &&& has_magic(binary)
    &&& load_program_ok(m, e, binary, image_header(binary))
}

/// Every segment that the file header `h` lists loads.
pub open spec fn load_program_ok(m: MapState, e: Env, binary: Seq<u8>, h: Elf32Ehdr) -> bool {
    &&& phdr_offset(h, h.e_phnum as int) <= usize::MAX
    &&& load_segments_ok(m, e, binary, h, h.e_phnum as nat)
}

/// A load that succeeds up to `n` pages succeeds up to any `k <= n`.
pub proof fn lemma_load_pages_ok_prefix(
    m: MapState,
    e: Env,
    pages: Seq<SegPage>,
    binary: Seq<u8>,
    base: int,
    n: nat,
    k: nat,
)
    requires
        load_pages_ok(m, e, pages, binary, base, n),
        k <= n,
    ensures
        load_pages_ok(m, e, pages, binary, base, k),
    decreases n,
{
    if k < n {
        lemma_load_pages_ok_prefix(m, e, pages, binary, base, (n - 1) as nat, k);
    }
}

/// A load that succeeds up to `n` segments succeeds up to any `k <= n`.
pub proof fn lemma_load_segments_ok_prefix(
    m: MapState,
    e: Env,
    binary: Seq<u8>,
    h: Elf32Ehdr,
    n: nat,
    k: nat,
)
    requires
        load_segments_ok(m, e, binary, h, n),
        k <= n,
    ensures
        load_segments_ok(m, e, binary, h, k),
    decreases n,
{
    if k < n {
        lemma_load_segments_ok_prefix(m, e, binary, h, (n - 1) as nat, k);
    }
}

/// Loads one page of a segment into the address space of `env`: takes a
/// frame, copies the bytes of the page from the image, whose segment starts
/// at `base`, and maps the frame.
pub fn load_icode_mapper(
    fa: &mut FrameAllocator,
    tlb: &mut Tlb,
    env: &Env,
    page: &SegPage,
    binary: &Vec<u8>,
    base: usize,
) -> (r: Result<(), Error>)
    requires
        old(fa).wf(),
        load_page_pre(MapState { frames: old(fa)@, tlb: old(tlb)@ }, *env, *page, binary@, base as int),
    ensures
        final(fa).wf(),
        (MapState { frames: final(fa)@, tlb: final(tlb)@ }) == load_page_step(
            MapState { frames: old(fa)@, tlb: old(tlb)@ },
            *env,
            *page,
            binary@,
            base as int,
        ),
        r == (if load_page_fails(
            MapState { frames: old(fa)@, tlb: old(tlb)@ },
            *env,
            *page,
            binary@,
            base as int,
        ) {
            Err::<(), Error>(Error::NoMem)
        } else {
            Ok::<(), Error>(())
        }),
{
    let ppn = match fa.allocate() {
        Ok(p) => p,
        Err(e) => {
            return Err(e);
        },
    };
    proof {
        let s = old(fa)@;
        assert(s.free[0] < s.refs.len());
    }
    match page.src {
        Some(st) => {
            let len = binary.len();
            proof {
                assert(base + st + page.len <= len);
            }
            fa.store_bytes(ppn, page.offset, binary, base + st, page.len);
        },
        None => {
            proof {
                assert(fa@.after_store_bytes(ppn.0 as int, page.offset as int, Seq::<u8>::empty()) == fa@);
            }
        },
    }
    let asid = env.env_asid;
    match env.env_pgdir {
        Some(pgdir) => {
            match PageTable::insert(fa, tlb, pgdir, asid, ppn, page.va, page.perm) {
                Ok(()) => {},
                Err(e) => {
                    return Err(e);
                },
            }
        },
        None => {},
    }
    Ok(())
}

/// Loads the program image `binary`, of which `size` bytes are meant, into
/// the address space of `env`: every loadable segment, page by page. Returns
/// the entry point.
pub fn load_icode(fa: &mut FrameAllocator, tlb: &mut Tlb, env: &Env, binary: &Vec<u8>, size: usize) -> (r:
    usize)
    requires
        old(fa).wf(),
        load_icode_ok(MapState { frames: old(fa)@, tlb: old(tlb)@ }, *env, binary@, size),
    ensures
        final(fa).wf(),
        r == image_header(binary@).e_entry,
        (MapState { frames: final(fa)@, tlb: final(tlb)@ }) == load_segments(
            MapState { frames: old(fa)@, tlb: old(tlb)@ },
            *env,
            binary@,
            image_header(binary@),
            image_header(binary@).e_phnum as nat,
        ),
{
    let ehdr = match elf_from(binary, size) {
        Some(h) => h,
        None => {
            return 0;
        },
    };
    proof {
        lemma_header_unique(ehdr, binary@);
    }
    load_program(fa, tlb, env, &ehdr, binary);
    ehdr.e_entry as usize
}

/// Loads every loadable segment that the file header lists.
pub fn load_program(fa: &mut FrameAllocator, tlb: &mut Tlb, env: &Env, ehdr: &Elf32Ehdr, binary: &Vec<u8>)
    requires
        old(fa).wf(),
        load_program_ok(MapState { frames: old(fa)@, tlb: old(tlb)@ }, *env, binary@, *ehdr),
    ensures
        final(fa).wf(),
        (MapState { frames: final(fa)@, tlb: final(tlb)@ }) == load_segments(
            MapState { frames: old(fa)@, tlb: old(tlb)@ },
            *env,
            binary@,
            *ehdr,
            ehdr.e_phnum as nat,
        ),
{
    let ghost m0 = MapState { frames: fa@, tlb: tlb@ };
    let mut it = ehdr.phdr_iter();
    let mut k: usize = 0;
    let n = ehdr.e_phnum as usize;
    while k < n
        invariant
            k <= n,
            n == ehdr.e_phnum,
            fa.wf(),
            it.header() == *ehdr,
            it.pos() == k,
            m0 == (MapState { frames: old(fa)@, tlb: old(tlb)@ }),
            phdr_offset(*ehdr, ehdr.e_phnum as int) <= usize::MAX,
            load_segments_ok(m0, *env, binary@, *ehdr, n as nat),
            (MapState { frames: fa@, tlb: tlb@ }) == load_segments(m0, *env, binary@, *ehdr, k as nat),
        decreases n - k,
    {
        proof {
            lemma_load_segments_ok_prefix(m0, *env, binary@, *ehdr, n as nat, (k + 1) as nat);
            assert(load_segment_ok(MapState { frames: fa@, tlb: tlb@ }, *env, binary@, *ehdr, k as int));
        }
        let off = match it.next() {
            Some(o) => o,
            None => 0,
        };
        let ghost ph = image_phdr(binary@, *ehdr, k as int);
        let phdr = match phdr_from(binary, off) {
            Some(p) => p,
            None => null_phdr(),
        };
        proof {
            let step = ehdr.e_phentsize as int;
            assert(k * step <= n * step) by (nonlinear_arith)
                requires
                    k <= n,
                    0 <= step,
            ;
            assert(off == phdr_offset(*ehdr, k as int));
            assert(phdr == ph);
        }
        if phdr.p_type == PT_LOAD {
            load_segment(fa, tlb, env, &phdr, binary);
        }
        proof {
            assert((MapState { frames: fa@, tlb: tlb@ }) == load_segment_step(
                load_segments(m0, *env, binary@, *ehdr, k as nat),
                *env,
                binary@,
                *ehdr,
                k as int,
            ));
        }
        k += 1;
    }
}

/// A program header of the unused type, with every field zero.
fn null_phdr() -> (r: Elf32Phdr)
    ensures
        r == (Elf32Phdr {
            p_type: 0,
            p_offset: 0,
            p_vaddr: 0,
            p_paddr: 0,
            p_filesz: 0,
            p_memsz: 0,
            p_flags: 0,
            p_align: 0,
        }),
{
    Elf32Phdr {
        p_type: 0,
        p_offset: 0,
        p_vaddr: 0,
        p_paddr: 0,
        p_filesz: 0,
        p_memsz: 0,
        p_flags: 0,
        p_align: 0,
    }
}

/// Loads the pages of one loadable segment.
fn load_segment(fa: &mut FrameAllocator, tlb: &mut Tlb, env: &Env, phdr: &Elf32Phdr, binary: &Vec<u8>)
    requires
        old(fa).wf(),
        seg_fits(*phdr),
        phdr.p_offset + phdr.p_filesz <= binary@.len(),
        load_pages_ok(
            MapState { frames: old(fa)@, tlb: old(tlb)@ },
            *env,
            seg_pages(*phdr),
            binary@,
            phdr.p_offset as int,
            seg_pages(*phdr).len(),
        ),
    ensures
        final(fa).wf(),
        (MapState { frames: final(fa)@, tlb: final(tlb)@ }) == load_pages(
            MapState { frames: old(fa)@, tlb: old(tlb)@ },
            *env,
            seg_pages(*phdr),
            binary@,
            phdr.p_offset as int,
            seg_pages(*phdr).len(),
        ),
{
    let ghost m0 = MapState { frames: fa@, tlb: tlb@ };
    let pages = elf_load_seg(phdr);
    let base = phdr.p_offset as usize;
    let mut j: usize = 0;
    while j < pages.len()
        invariant
            j <= pages@.len(),
            fa.wf(),
            pages@ == seg_pages(*phdr),
            base == phdr.p_offset,
            m0 == (MapState { frames: old(fa)@, tlb: old(tlb)@ }),
            load_pages_ok(m0, *env, pages@, binary@, base as int, pages@.len()),
            (MapState { frames: fa@, tlb: tlb@ }) == load_pages(m0, *env, pages@, binary@, base as int, j as nat),
        decreases pages@.len() - j,
    {
        proof {
            lemma_load_pages_ok_prefix(m0, *env, pages@, binary@, base as int, pages@.len(), (j + 1) as nat);
        }
        let page = pages[j];
        let _ = load_icode_mapper(fa, tlb, env, &page, binary, base);
        j += 1;
    }
}

} // verus!
