//! Program images: file header, program headers, and the pages that a segment is loaded as.

use vstd::prelude::*;
use crate::mmu::{PAGE_SIZE, PTE_D, PTE_V, VirtAddr};

verus! {

/// Bytes of the identification at the start of a file.
pub const EI_NIDENT: usize = 16;

/// Index of the first magic byte.
pub const EI_MAG0: usize = 0;

/// The first magic byte.
pub const ELFMAG0: u8 = 0x7f;

/// Index of the second magic byte.
pub const EI_MAG1: usize = 1;

/// The second magic byte, `E`.
pub const ELFMAG1: u8 = 0x45;

/// Index of the third magic byte.
pub const EI_MAG2: usize = 2;

/// The third magic byte, `L`.
pub const ELFMAG2: u8 = 0x4c;

/// Index of the fourth magic byte.
pub const EI_MAG3: usize = 3;

/// The fourth magic byte, `F`.
pub const ELFMAG3: u8 = 0x46;

/// Bytes of a file header.
pub const EHDR_BYTES: usize = 52;

/// Bytes of a program header.
pub const PHDR_BYTES: usize = 32;

/// Program header type: unused entry.
pub const PT_NULL: usize = 0;

/// Program header type: loadable segment.
pub const PT_LOAD: u32 = 1;

/// Program header type: dynamic linking information.
pub const PT_DYNAMIC: usize = 2;

/// Program header type: interpreter.
pub const PT_INTERP: usize = 3;

/// Program header type: auxiliary information.
pub const PT_NOTE: usize = 4;

/// Program header type: reserved.
pub const PT_SHLIB: usize = 5;

/// Program header type: the header table itself.
pub const PT_PHDR: usize = 6;

/// Number of defined program header types.
pub const PT_NUM: usize = 7;

/// Segment flag: executable.
pub const PF_X: u32 = 1;

/// Segment flag: writable.
pub const PF_W: u32 = 2;

/// Segment flag: readable.
pub const PF_R: u32 = 4;

/// Segment flags: processor specific.
pub const PF_MASKPROC: u32 = 0xf000_0000;

/// The header of a 32-bit program file.
#[derive(Clone, Copy, Debug)]
pub struct Elf32Ehdr {
    pub e_ident: [u8; EI_NIDENT],
    pub e_type: u16,
    pub e_machine: u16,
    pub e_version: u32,
    pub e_entry: u32,
    pub e_phoff: u32,
    pub e_shoff: u32,
    pub e_flags: u32,
    pub e_ehsize: u16,
    pub e_phentsize: u16,
    pub e_phnum: u16,
    pub e_shentsize: u16,
    pub e_shnum: u16,
    pub e_shstrndx: u16,
}

/// The header of one segment of a program file.
#[derive(Clone, Copy, Debug)]
pub struct Elf32Phdr {
    pub p_type: u32,
    pub p_offset: u32,
    pub p_vaddr: u32,
    pub p_paddr: u32,
    pub p_filesz: u32,
    pub p_memsz: u32,
    pub p_flags: u32,
    pub p_align: u32,
}

/// A cursor over the offsets of the program headers of a file.
pub struct PhdrIterator<'a> {
    ehdr: &'a Elf32Ehdr,
    ind: usize,
}

/// One page of a segment as it is to be loaded: the address to map, where in
/// the page the bytes start, the flags, where in the segment's file image the
/// bytes come from (`None` for a page of zeros) and how many there are.
#[derive(Clone, Copy, Debug)]
pub struct SegPage {
    pub va: VirtAddr,
    pub offset: usize,
    pub perm: usize,
    pub src: Option<usize>,
    pub len: usize,
}

/// The 16-bit number stored at `off`, least significant byte first.
pub open spec fn le16(b: Seq<u8>, off: int) -> u16 {
    (b[off] + 256 * b[off + 1]) as u16
}

/// The 32-bit number stored at `off`, least significant byte first.
pub open spec fn le32(b: Seq<u8>, off: int) -> u32 {
    (b[off] + 256 * b[off + 1] + 65536 * b[off + 2] + 16777216 * b[off + 3]) as u32
}

/// Whether the bytes start with the magic number of a program file.
pub open spec fn has_magic(b: Seq<u8>) -> bool {
    &&& b[0] == ELFMAG0
    &&& b[1] == ELFMAG1
    &&& b[2] == ELFMAG2
    &&& b[3] == ELFMAG3
}

/// Whether `h` is the file header that the first 52 bytes of `b` encode.
pub open spec fn is_ehdr_of(h: Elf32Ehdr, b: Seq<u8>) -> bool {
    &&& forall|i: int| 0 <= i < 16 ==> h.e_ident[i] == b[i]
    &&& h.e_type == le16(b, 16)
    &&& h.e_machine == le16(b, 18)
    &&& h.e_version == le32(b, 20)
    &&& h.e_entry == le32(b, 24)
    &&& h.e_phoff == le32(b, 28)
    &&& h.e_shoff == le32(b, 32)
    &&& h.e_flags == le32(b, 36)
    &&& h.e_ehsize == le16(b, 40)
    &&& h.e_phentsize == le16(b, 42)
    &&& h.e_phnum == le16(b, 44)
    &&& h.e_shentsize == le16(b, 46)
    &&& h.e_shnum == le16(b, 48)
    &&& h.e_shstrndx == le16(b, 50)
}

/// The program header that the 32 bytes of `b` at `off` encode.
pub open spec fn phdr_at(b: Seq<u8>, off: int) -> Elf32Phdr {
    Elf32Phdr {
        p_type: le32(b, off),
        p_offset: le32(b, off + 4),
        p_vaddr: le32(b, off + 8),
        p_paddr: le32(b, off + 12),
        p_filesz: le32(b, off + 16),
        p_memsz: le32(b, off + 20),
        p_flags: le32(b, off + 24),
        p_align: le32(b, off + 28),
    }
}

/// Reads a 16-bit number, least significant byte first.
fn read_le16(b: &Vec<u8>, off: usize) -> (r: u16)
    requires
        off + 2 <= b@.len(),
    ensures
        r == le16(b@, off as int),
{
    let len = b.len();
    proof {
        assert(off + 2 <= len);
    }
    let b0: u16 = b[off] as u16;
    let b1: u16 = b[off + 1] as u16;
    b0 + 256 * b1
}

/// Reads a 32-bit number, least significant byte first.
fn read_le32(b: &Vec<u8>, off: usize) -> (r: u32)
    requires
        off + 4 <= b@.len(),
    ensures
        r == le32(b@, off as int),
{
    let len = b.len();
    proof {
        assert(off + 4 <= len);
    }
    let b0: u32 = b[off] as u32;
    let b1: u32 = b[off + 1] as u32;
    let b2: u32 = b[off + 2] as u32;
    let b3: u32 = b[off + 3] as u32;
    b0 + 256 * b1 + 65536 * b2 + 16777216 * b3
}

/// Reads the file header of the image `binary`, of which `size` bytes are
/// meant: `None` unless the image holds a whole header that starts with the
/// magic number.
pub fn elf_from(binary: &Vec<u8>, size: usize) -> (r: Option<Elf32Ehdr>)
    ensures
        r.is_some() <==> (size >= EHDR_BYTES && binary@.len() >= EHDR_BYTES && has_magic(binary@)),
        r.is_some() ==> is_ehdr_of(r.unwrap(), binary@),
{
    if size < EHDR_BYTES || binary.len() < EHDR_BYTES {
        return None;
    }
    if !(binary[EI_MAG0] == ELFMAG0 && binary[EI_MAG1] == ELFMAG1 && binary[EI_MAG2] == ELFMAG2
        && binary[EI_MAG3] == ELFMAG3) {
        return None;
    }
    let mut ident: [u8; EI_NIDENT] = [0; EI_NIDENT];
    let mut i: usize = 0;
    while i < EI_NIDENT
        invariant
            i <= EI_NIDENT,
            binary@.len() >= EHDR_BYTES,
            forall|j: int| 0 <= j < i ==> ident[j] == binary@[j],
        decreases EI_NIDENT - i,
    {
        ident[i] = binary[i];
        i += 1;
    }
    Some(
        Elf32Ehdr {
            e_ident: ident,
            e_type: read_le16(binary, 16),
            e_machine: read_le16(binary, 18),
            e_version: read_le32(binary, 20),
            e_entry: read_le32(binary, 24),
            e_phoff: read_le32(binary, 28),
            e_shoff: read_le32(binary, 32),
            e_flags: read_le32(binary, 36),
            e_ehsize: read_le16(binary, 40),
            e_phentsize: read_le16(binary, 42),
            e_phnum: read_le16(binary, 44),
            e_shentsize: read_le16(binary, 46),
            e_shnum: read_le16(binary, 48),
            e_shstrndx: read_le16(binary, 50),
        },
    )
}

/// Reads the program header at offset `off` of the image; `None` where the
/// image ends before the header does.
pub fn phdr_from(binary: &Vec<u8>, off: usize) -> (r: Option<Elf32Phdr>)
    ensures
        r == (if off + PHDR_BYTES <= binary@.len() {
            Some(phdr_at(binary@, off as int))
        } else {
            None
        }),
{
    if off > binary.len() || binary.len() - off < PHDR_BYTES {
        return None;
    }
    Some(
        Elf32Phdr {
            p_type: read_le32(binary, off),
            p_offset: read_le32(binary, off + 4),
            p_vaddr: read_le32(binary, off + 8),
            p_paddr: read_le32(binary, off + 12),
            p_filesz: read_le32(binary, off + 16),
            p_memsz: read_le32(binary, off + 20),
            p_flags: read_le32(binary, off + 24),
            p_align: read_le32(binary, off + 28),
        },
    )
}

/// The offset of program header `k` in the file.
pub open spec fn phdr_offset(h: Elf32Ehdr, k: int) -> int {
    h.e_phoff + k * h.e_phentsize
}

impl Elf32Ehdr {
    /// A cursor placed before the first program header.
    pub fn phdr_iter(&self) -> (it: PhdrIterator<'_>)
        ensures
            it.header() == *self,
            it.pos() == 0,
    {
        PhdrIterator { ehdr: self, ind: 0 }
    }
}

impl<'a> PhdrIterator<'a> {
    /// The file header that the cursor reads.
    pub closed spec fn header(&self) -> Elf32Ehdr {
        *self.ehdr
    }

    /// How many program headers the cursor has passed.
    pub closed spec fn pos(&self) -> int {
        self.ind as int
    }

    /// The offset of the next program header; `None` after the last.
    pub fn next(&mut self) -> (r: Option<usize>)
        requires
            old(self).pos() <= old(self).header().e_phnum,
            phdr_offset(old(self).header(), old(self).header().e_phnum as int) <= usize::MAX,
        ensures
            final(self).header() == old(self).header(),
            old(self).pos() < old(self).header().e_phnum ==> r == Some(
                phdr_offset(old(self).header(), old(self).pos()) as usize,
            ) && final(self).pos() == old(self).pos() + 1,
            old(self).pos() >= old(self).header().e_phnum ==> r.is_none() && final(self).pos() == old(
                self,
            ).pos(),
    {
        if self.ind < self.ehdr.e_phnum as usize {
            let step = self.ehdr.e_phentsize as usize;
            let n = self.ehdr.e_phnum as usize;
            proof {
                assert(self.ind * step <= n * step) by (nonlinear_arith)
                    requires
                        self.ind <= n,
                        0 <= step,
                ;
            }
            let result = self.ehdr.e_phoff as usize + self.ind * step;
            self.ind += 1;
            Some(result)
        } else {
            None
        }
    }
}

/// The flags with which the pages of a segment are mapped: valid, and
/// writable where the segment is.
pub open spec fn seg_perm(ph: Elf32Phdr) -> usize {
    if ph.p_flags & PF_W != 0 {
        PTE_V | PTE_D
    } else {
        PTE_V
    }
}

/// The smaller of two numbers.
pub open spec fn min_int(a: int, b: int) -> int {
    if a <= b {
        a
    } else {
        b
    }
}

/// How many bytes of the segment lie in the page that its first address
/// falls in, where that address is not at a page boundary; zero where it is.
pub open spec fn seg_head_len(ph: Elf32Phdr) -> int {
    if ph.p_vaddr % 4096 != 0 {
        min_int(ph.p_filesz as int, 4096 - ph.p_vaddr % 4096)
    } else {
        0
    }
}

/// The number of steps of one page from `from` that stay below `to`.
pub open spec fn pages_between(from: int, to: int) -> int {
    if from < to {
        (to - from + 4095) / 4096
    } else {
        0
    }
}

/// The pages of one page each that cover the distances `from`, `from + 4096`,
/// ... below `to` from the start of the segment, with bytes from the file
/// image where `has_src` says so.
pub open spec fn step_pages(ph: Elf32Phdr, from: int, to: int, has_src: bool) -> Seq<SegPage> {
    Seq::new(pages_between(from, to) as nat, |k: int| step_page(ph, from + 4096 * k, to, has_src))
}

/// The page at distance `i` from the start of the segment.
pub open spec fn step_page(ph: Elf32Phdr, i: int, to: int, has_src: bool) -> SegPage {
    SegPage {
        va: VirtAddr((ph.p_vaddr + i) as usize),
        offset: 0,
        perm: seg_perm(ph),
        src: if has_src {
            Some(i as usize)
        } else {
            None
        },
        len: min_int(to - i, 4096) as usize,
    }
}

/// The pages that carry bytes of the file image, after the first partial page.
pub open spec fn seg_file_pages(ph: Elf32Phdr) -> Seq<SegPage> {
    step_pages(ph, seg_head_len(ph), ph.p_filesz as int, true)
}

/// The distance from the start of the segment at which the pages of zeros begin.
pub open spec fn seg_zero_start(ph: Elf32Phdr) -> int {
    seg_head_len(ph) + 4096 * pages_between(seg_head_len(ph), ph.p_filesz as int)
}

/// The pages of zeros that follow the file image up to the size in memory.
pub open spec fn seg_zero_pages(ph: Elf32Phdr) -> Seq<SegPage> {
    step_pages(ph, seg_zero_start(ph), ph.p_memsz as int, false)
}

/// The first page of a segment that does not start at a page boundary.
pub open spec fn seg_head_page(ph: Elf32Phdr) -> Seq<SegPage> {
    if ph.p_vaddr % 4096 != 0 {
        seq![
            SegPage {
                va: VirtAddr(ph.p_vaddr as usize),
                offset: (ph.p_vaddr % 4096) as usize,
                perm: seg_perm(ph),
                src: Some(0),
                len: seg_head_len(ph) as usize,
            },
        ]
    } else {
        Seq::empty()
    }
}

/// The pages of a segment in the order in which they are loaded: the partial
/// first page, the pages of the file image, the pages of zeros.
pub open spec fn seg_pages(ph: Elf32Phdr) -> Seq<SegPage> {
    seg_head_page(ph) + seg_file_pages(ph) + seg_zero_pages(ph)
}

/// The segment fits the address space: its last address, and each of its
/// sizes rounded up to the next page, fit a machine word.
pub open spec fn seg_fits(ph: Elf32Phdr) -> bool {
    &&& ph.p_vaddr + ph.p_filesz <= usize::MAX
    &&& ph.p_vaddr + ph.p_memsz <= usize::MAX
    &&& ph.p_filesz + PAGE_SIZE <= usize::MAX
    &&& ph.p_memsz + PAGE_SIZE <= usize::MAX
}

/// How the number of steps relates to the distance covered.
pub proof fn lemma_pages_between(from: int, to: int, k: int)
    requires
        0 <= k,
    ensures
        from + 4096 * k < to ==> k < pages_between(from, to),
        from + 4096 * k >= to ==> k >= pages_between(from, to),
        pages_between(from, to) >= 0,
        from < to ==> from + 4096 * pages_between(from, to) < to + 4096,
        from >= to ==> pages_between(from, to) == 0,
{
}

/// Appends to `out` the pages at the distances `from`, `from + 4096`, ...
/// below `to`, and returns the first distance not below `to`.
fn push_pages(out: &mut Vec<SegPage>, ph: &Elf32Phdr, from: usize, to: usize, has_src: bool) -> (end: usize)
    requires
        ph.p_vaddr + to <= usize::MAX,
        to + PAGE_SIZE <= usize::MAX,
    ensures
        final(out)@ == old(out)@ + step_pages(*ph, from as int, to as int, has_src),
        end == from + 4096 * pages_between(from as int, to as int),
{
    let va = VirtAddr::new(ph.p_vaddr as usize);
    let perm = seg_perm_of(ph);
    let mut i = from;
    let ghost total = pages_between(from as int, to as int);
    let ghost pages = step_pages(*ph, from as int, to as int, has_src);
    let mut k: usize = 0;
    proof {
        lemma_pages_between(from as int, to as int, 0);
        assert(pages.subrange(0, 0) =~= Seq::<SegPage>::empty());
        assert(out@ =~= old(out)@ + pages.subrange(0, 0));
    }
    while i < to
        invariant
            ph.p_vaddr + to <= usize::MAX,
            to + PAGE_SIZE <= usize::MAX,
            va.0 == ph.p_vaddr,
            perm == seg_perm(*ph),
            i == from + 4096 * k,
            total == pages_between(from as int, to as int),
            pages == step_pages(*ph, from as int, to as int, has_src),
            k <= total,
            out@ == old(out)@ + pages.subrange(0, k as int),
        decreases
            (if i < to {
                to - i
            } else {
                0
            }),
    {
        proof {
            lemma_pages_between(from as int, to as int, k as int);
        }
        let len = if to - i < PAGE_SIZE {
            to - i
        } else {
            PAGE_SIZE
        };
        let src = if has_src {
            Some(i)
        } else {
            None
        };
        out.push(SegPage { va: va + i, offset: 0, perm, src, len });
        proof {
            assert(pages[k as int] == step_page(*ph, from + 4096 * k, to as int, has_src));
            assert(pages.subrange(0, k as int).push(pages[k as int]) =~= pages.subrange(0, k + 1));
            assert(out@ =~= old(out)@ + pages.subrange(0, k + 1));
        }
        i += PAGE_SIZE;
        k += 1;
    }
    proof {
        lemma_pages_between(from as int, to as int, k as int);
        assert(k == total);
        assert(pages.subrange(0, k as int) =~= pages);
    }
    i
}

/// The flags with which the pages of a segment are mapped.
fn seg_perm_of(ph: &Elf32Phdr) -> (r: usize)
    ensures
        r == seg_perm(*ph),
{
    let flags = ph.p_flags;
    if flags & PF_W != 0 {
        PTE_V | PTE_D
    } else {
        PTE_V
    }
}

/// Splits a segment into the pages that have to be mapped for it, in order.
pub fn elf_load_seg(ph: &Elf32Phdr) -> (r: Vec<SegPage>)
    requires
        seg_fits(*ph),
    ensures
        r@ == seg_pages(*ph),
{
    let va = VirtAddr::new(ph.p_vaddr as usize);
    let bin_size = ph.p_filesz as usize;
    let sgsize = ph.p_memsz as usize;
    let perm = seg_perm_of(ph);
    let mut out: Vec<SegPage> = Vec::new();
    let aligned = va.page_align_down();
    let offset = va.as_usize() - aligned.as_usize();
    let mut st: usize = 0;
    if offset != 0 {
        st = if bin_size < PAGE_SIZE - offset {
            bin_size
        } else {
            PAGE_SIZE - offset
        };
        out.push(SegPage { va, offset, perm, src: Some(0), len: st });
    }
    proof {
        assert(out@ =~= seg_head_page(*ph));
        assert(st == seg_head_len(*ph));
        lemma_pages_between(st as int, bin_size as int, 0);
    }
    let i = push_pages(&mut out, ph, st, bin_size, true);
    let _ = push_pages(&mut out, ph, i, sgsize, false);
    out
}

/// Every page of a segment lies within one page of memory, and takes its
/// bytes, if any, from within the file image of the segment.
pub proof fn lemma_seg_pages_bounds(ph: Elf32Phdr, k: int)
    requires
        0 <= k < seg_pages(ph).len(),
    ensures
        seg_pages(ph)[k].offset + seg_pages(ph)[k].len <= PAGE_SIZE,
        match seg_pages(ph)[k].src {
            Some(s) => s + seg_pages(ph)[k].len <= ph.p_filesz,
            None => true,
        },
{
    let h = seg_head_page(ph);
    let f = seg_file_pages(ph);
    let z = seg_zero_pages(ph);
    let st = seg_head_len(ph);
    if k < h.len() {
    } else if k < h.len() + f.len() {
        let j = k - h.len();
        lemma_pages_between(st, ph.p_filesz as int, j);
        assert(seg_pages(ph)[k] == f[j]);
    } else {
        let j = k - h.len() - f.len();
        lemma_pages_between(seg_zero_start(ph), ph.p_memsz as int, j);
        assert(seg_pages(ph)[k] == z[j]);
    }
}

} // verus!
