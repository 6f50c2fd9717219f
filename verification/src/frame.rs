//! Physical memory: reference counts, the free list and the contents of the frames.

use vstd::prelude::*;
use crate::err::Error;
use crate::mmu::{PAGE_SIZE, PhysAddr, PhysPageNum, ULIM, VirtAddr};
use crate::page_table::{PAGE_TABLE_ENTRIES, PageTable, Pte, zero_table};
use crate::queue::IndexLink;

verus! {

/// Most frames that the direct-mapped kernel segment can reach.
pub const MAX_FRAMES: usize = 0x8_0000;

/// Bytes of metadata kept per frame.
pub const FRAME_META_BYTES: usize = 2;

/// Metadata of one physical frame: how many references are held on it.
#[derive(Clone, Copy, Debug)]
pub struct PhysFrame {
    pub pf_ref: u16,
}

/// Physical memory and its allocator: the reference count of each frame, the
/// free list in the order in which frames will be handed out, and what each
/// frame holds.
pub struct FrameAllocator {
    frames: Vec<PhysFrame>,
    nframes: usize,
    frames_free_list: IndexLink,
    base_addr: VirtAddr,
    base_size: usize,
    memory: Vec<PageTable>,
}

/// The mathematical state of physical memory.
pub struct FrameState {
    /// Reference count of each frame.
    pub refs: Seq<u16>,
    /// The free frames; the head is the next to be allocated.
    pub free: Seq<usize>,
    /// The 1024 words of each frame.
    pub mem: Seq<Seq<Pte>>,
    /// Kernel virtual address of the metadata array.
    pub base_addr: VirtAddr,
    /// Size of the metadata array in bytes.
    pub base_size: usize,
}

impl FrameState {
    /// Number of frames.
    pub open spec fn nframes(self) -> int {
        self.refs.len() as int
    }

    /// Whether frame `ppn` is on the free list.
    pub open spec fn is_free(self, ppn: int) -> bool {
        exists|i: int| 0 <= i < self.free.len() && self.free[i] == ppn
    }

    /// Every frame has a count and 1024 words; the free list names distinct
    /// frames, each with count zero.
    pub open spec fn wf(self) -> bool {
        &&& self.refs.len() == self.mem.len()
        &&& self.refs.len() <= MAX_FRAMES
        &&& forall|f: int| 0 <= f < self.mem.len() ==> (#[trigger] self.mem[f]).len() == 1024
        &&& self.free.no_duplicates()
        &&& forall|i: int| 0 <= i < self.free.len() ==> #[trigger] self.free[i] < self.refs.len()
        &&& forall|i: int| 0 <= i < self.free.len() ==> self.refs[#[trigger] self.free[i] as int] == 0
    }

    /// The state after the head of the free list has been taken and zeroed.
    pub open spec fn after_alloc(self) -> FrameState {
        FrameState {
            free: self.free.drop_first(),
            mem: self.mem.update(self.free[0] as int, zero_table()),
            ..self
        }
    }

    /// The state after frame `ppn` has been put at the tail of the free list.
    pub open spec fn after_dealloc(self, ppn: int) -> FrameState {
        FrameState { free: self.free.push(ppn as usize), ..self }
    }

    /// The state after one more reference on frame `ppn`.
    pub open spec fn after_incref(self, ppn: int) -> FrameState {
        FrameState { refs: self.refs.update(ppn, (self.refs[ppn] + 1) as u16), ..self }
    }

    /// The state after frame `ppn` has been released: it stands at the tail
    /// of the free list, and nowhere else on it.
    pub open spec fn after_release(self, ppn: int) -> FrameState {
        if self.is_free(ppn) {
            FrameState { free: self.free.remove(self.free.index_of(ppn as usize)), ..self }.after_dealloc(ppn)
        } else {
            self.after_dealloc(ppn)
        }
    }

    /// The state after one more reference on frame `ppn`, which leaves the
    /// free list if it is on it.
    pub open spec fn after_ref(self, ppn: int) -> FrameState {
        if self.is_free(ppn) {
            FrameState { free: self.free.remove(self.free.index_of(ppn as usize)), ..self }.after_incref(ppn)
        } else {
            self.after_incref(ppn)
        }
    }

    /// The state after one reference on frame `ppn` is given up: the frame
    /// joins the tail of the free list when its count reaches zero.
    pub open spec fn after_decref(self, ppn: int) -> FrameState {
        let lowered = FrameState { refs: self.refs.update(ppn, (self.refs[ppn] - 1) as u16), ..self };
        if self.refs[ppn] == 1 {
            lowered.after_dealloc(ppn)
        } else {
            lowered
        }
    }

    /// The state after word `idx` of frame `ppn` has been set to `pte`.
    pub open spec fn after_write(self, ppn: int, idx: int, pte: Pte) -> FrameState {
        FrameState { mem: self.mem.update(ppn, self.mem[ppn].update(idx, pte)), ..self }
    }

    /// Word `idx` of frame `ppn`.
    pub open spec fn entry(self, ppn: int, idx: int) -> Pte {
        self.mem[ppn][idx]
    }

    /// The state after byte `off` of frame `ppn` has been set to `b`.
    pub open spec fn after_store_byte(self, ppn: int, off: int, b: u8) -> FrameState {
        self.after_write(
            ppn,
            off / 4,
            Pte(word_with_byte(self.entry(ppn, off / 4).0, (off % 4) as usize, b)),
        )
    }

    /// The state after `bytes` have been stored in frame `ppn` from byte `off` on.
    pub open spec fn after_store_bytes(self, ppn: int, off: int, bytes: Seq<u8>) -> FrameState
        decreases bytes.len(),
    {
        if bytes.len() == 0 {
            self
        } else {
            self.after_store_bytes(ppn, off, bytes.drop_last()).after_store_byte(
                ppn,
                off + bytes.len() - 1,
                bytes.last(),
            )
        }
    }

    /// Byte `off` of frame `ppn`.
    pub open spec fn byte(self, ppn: int, off: int) -> u8 {
        byte_of_word(self.entry(ppn, off / 4).0, (off % 4) as usize)
    }

    /// The sum of all reference counts of the frames below `upto`.
    pub open spec fn refcount_sum(self, upto: int) -> int
        decreases upto,
    {
        if upto <= 0 {
            0
        } else {
            self.refcount_sum(upto - 1) + self.refs[upto - 1]
        }
    }
}

/// The word `w` with its byte `lane` set to `b`; byte 0 is the least significant.
pub open spec fn word_with_byte(w: usize, lane: usize, b: u8) -> usize {
    (w & !(0xffusize << (8 * lane) as usize)) | ((b as usize) << (8 * lane) as usize)
}

/// Byte `lane` of the word `w`; byte 0 is the least significant.
pub open spec fn byte_of_word(w: usize, lane: usize) -> u8 {
    ((w >> (8 * lane) as usize) & 0xff) as u8
}

/// A byte stored in a word is the byte read back, and the other bytes stay.
pub proof fn lemma_word_bytes(w: usize, lane: usize, b: u8, other: usize)
    requires
        lane < 4,
        other < 4,
    ensures
        byte_of_word(word_with_byte(w, lane, b), lane) == b,
        other != lane ==> byte_of_word(word_with_byte(w, lane, b), other) == byte_of_word(w, other),
{
    let sh = (8 * lane) as usize;
    let so = (8 * other) as usize;
    let bb = b as usize;
    assert((((w & !(0xffusize << sh)) | (bb << sh)) >> sh) & 0xff == bb) by (bit_vector)
        requires
            sh == 0 || sh == 8 || sh == 16 || sh == 24,
            bb < 256,
    ;
    if other != lane {
        assert((((w & !(0xffusize << sh)) | (bb << sh)) >> so) & 0xff == (w >> so) & 0xff) by (bit_vector)
            requires
                sh == 0 || sh == 8 || sh == 16 || sh == 24,
                so == 0 || so == 8 || so == 16 || so == 24,
                sh != so,
                bb < 256,
        ;
    }
    assert((w >> so) & 0xff < 256) by (bit_vector);
}

/// The frames below `upto` that are not on the free list.
pub open spec fn used_frames(s: FrameState, upto: int) -> Set<int> {
    Set::new(|p: int| 0 <= p < upto && !s.is_free(p))
}

/// Every frame that is off the free list has exactly one reference.
pub open spec fn singly_held(s: FrameState) -> bool {
    forall|p: int| 0 <= p < s.nframes() && !s.is_free(p) ==> #[trigger] s.refs[p] == 1
}

/// No frame is on the free list twice.
pub proof fn lemma_free_list_distinct(s: FrameState, i: int, j: int)
    requires
        s.wf(),
        0 <= i < s.free.len(),
        0 <= j < s.free.len(),
        i != j,
    ensures
        s.free[i] != s.free[j],
{
}

/// A frame that is freed is handed out again only after every frame that
/// was free before it.
pub proof fn lemma_freed_frame_is_last(s: FrameState, ppn: int)
    requires
        s.wf(),
        0 <= ppn < s.nframes(),
        !s.is_free(ppn),
    ensures
        s.after_dealloc(ppn).free.len() == s.free.len() + 1,
        s.after_dealloc(ppn).free[s.free.len() as int] == ppn,
        forall|i: int| 0 <= i < s.free.len() ==> s.after_dealloc(ppn).free[i] == s.free[i],
{
}

/// The frames off the free list are as many as all frames less the free ones.
pub proof fn lemma_used_frames_len(s: FrameState)
    requires
        s.wf(),
    ensures
        used_frames(s, s.nframes()).finite(),
        used_frames(s, s.nframes()).len() == s.nframes() - s.free.len(),
{
    let n = s.nframes();
    let all = Set::new(|p: int| 0 <= p < n);
    let used = used_frames(s, n);
    let free = s.free.map_values(|x: usize| x as int).to_set();
    let fi = s.free.map_values(|x: usize| x as int);
    assert(all =~= vstd::set_lib::set_int_range(0, n));
    vstd::set_lib::lemma_int_range(0, n);
    vstd::seq_lib::seq_to_set_is_finite(fi);
    assert(fi.no_duplicates()) by {
        assert forall|i: int, j: int| 0 <= i < fi.len() && 0 <= j < fi.len() && i != j implies fi[i]
            != fi[j] by {
            assert(s.free[i] != s.free[j]);
        }
    }
    fi.unique_seq_to_set();
    assert(free.len() == s.free.len());
    assert forall|p: int| free.contains(p) <==> (0 <= p < n && s.is_free(p)) by {
        if free.contains(p) {
            let i = choose|i: int| 0 <= i < fi.len() && fi[i] == p;
            assert(s.free[i] == p);
            assert(s.free[i] < s.refs.len());
        }
        if 0 <= p < n && s.is_free(p) {
            let i = choose|i: int| 0 <= i < s.free.len() && s.free[i] == p;
            assert(fi[i] == p);
        }
    }
    assert(used =~= all.difference(free));
    assert(free.subset_of(all));
    vstd::set_lib::lemma_len_difference(all, free);
    vstd::set_lib::lemma_len_subset(free, all);
    assert(all.difference(free).len() + free.len() == all.len()) by {
        vstd::set_lib::lemma_set_difference_len(all, free);
        assert(all.intersect(free) =~= free);
    }
}

/// While every frame off the free list has exactly one reference, the sum of
/// all reference counts is the number of frames off the free list.
pub proof fn lemma_refcount_sum_counts_used(s: FrameState)
    requires
        s.wf(),
        singly_held(s),
    ensures
        s.refcount_sum(s.nframes()) == s.nframes() - s.free.len(),
{
    lemma_used_frames_len(s);
    lemma_refcount_sum_upto(s, s.nframes());
}

/// The sum of the counts below `k` is the number of frames below `k` that are
/// off the free list, while each of those has exactly one reference.
proof fn lemma_refcount_sum_upto(s: FrameState, k: int)
    requires
        s.wf(),
        singly_held(s),
        0 <= k <= s.nframes(),
    ensures
        used_frames(s, k).finite(),
        s.refcount_sum(k) == used_frames(s, k).len(),
    decreases k,
{
    if k == 0 {
        assert(used_frames(s, 0) =~= Set::<int>::empty());
    } else {
        lemma_refcount_sum_upto(s, k - 1);
        let p = k - 1;
        if s.is_free(p) {
            let i = choose|i: int| 0 <= i < s.free.len() && s.free[i] == p;
            assert(s.refs[s.free[i] as int] == 0);
            assert(used_frames(s, k) =~= used_frames(s, k - 1));
        } else {
            assert(s.refs[p] == 1);
            assert(used_frames(s, k) =~= used_frames(s, k - 1).insert(p));
        }
    }
}

/// Right after boot every frame off the free list has exactly one reference.
pub proof fn lemma_boot_singly_held(nframes: int, used: int, base_addr: VirtAddr)
    requires
        0 <= used <= nframes <= MAX_FRAMES,
    ensures
        singly_held(boot_state(nframes, used, base_addr)),
{
    let b = boot_state(nframes, used, base_addr);
    assert forall|p: int| 0 <= p < b.nframes() && !b.is_free(p) implies #[trigger] b.refs[p] == 1 by {
        if p >= used {
            assert(b.free[p - used] == p);
        }
    }
}

/// Taking a frame and giving it its first reference keeps every frame off the
/// free list at exactly one reference.
pub proof fn lemma_take_keeps_singly_held(s: FrameState)
    requires
        s.wf(),
        singly_held(s),
        s.free.len() > 0,
    ensures
        singly_held(s.after_alloc().after_incref(s.free[0] as int)),
{
    let r = s.after_alloc().after_incref(s.free[0] as int);
    assert(s.refs[s.free[0] as int] == 0);
    assert forall|p: int| 0 <= p < r.nframes() && !r.is_free(p) implies #[trigger] r.refs[p] == 1 by {
        if p != s.free[0] {
            if s.is_free(p) {
                let i = choose|i: int| 0 <= i < s.free.len() && s.free[i] == p;
                assert(r.free[i - 1] == p);
            }
            assert(s.refs[p] == 1);
        }
    }
}

/// Giving up the only reference of a frame keeps every frame off the free
/// list at exactly one reference.
pub proof fn lemma_release_keeps_singly_held(s: FrameState, ppn: int)
    requires
        s.wf(),
        singly_held(s),
        0 <= ppn < s.nframes(),
        !s.is_free(ppn),
    ensures
        singly_held(s.after_decref(ppn)),
{
    let r = s.after_decref(ppn);
    assert(s.refs[ppn] == 1);
    assert(r.free[s.free.len() as int] == ppn);
    assert forall|p: int| 0 <= p < r.nframes() && !r.is_free(p) implies #[trigger] r.refs[p] == 1 by {
        if s.is_free(p) {
            let i = choose|i: int| 0 <= i < s.free.len() && s.free[i] == p;
            assert(r.free[i] == p);
        }
        assert(s.refs[p] == 1);
    }
}

/// Physical memory before any of it has been taken over: no frame, no
/// metadata.
pub open spec fn unset_frames() -> FrameState {
    FrameState {
        refs: Seq::empty(),
        free: Seq::empty(),
        mem: Seq::empty(),
        base_addr: VirtAddr(0),
        base_size: 0,
    }
}

/// The number of frames that the kernel image touches when it ends just
/// before the kernel address `freemem`: every frame that holds a byte of it.
pub open spec fn used_frame_count(freemem: VirtAddr) -> int {
    (freemem.0 - ULIM + 4095) / 4096
}

/// The state right after boot: the frames below `used` are held by the kernel
/// with one reference each, the others are free in ascending order, and memory
/// is zero.
pub open spec fn boot_state(nframes: int, used: int, base_addr: VirtAddr) -> FrameState {
    FrameState {
        refs: Seq::new(nframes as nat, |i: int| if i < used { 1u16 } else { 0u16 }),
        free: Seq::new((nframes - used) as nat, |i: int| (used + i) as usize),
        mem: Seq::new(nframes as nat, |i: int| zero_table()),
        base_addr,
        base_size: (nframes * FRAME_META_BYTES) as usize,
    }
}

impl View for FrameAllocator {
    type V = FrameState;

    closed spec fn view(&self) -> FrameState {
        FrameState {
            refs: Seq::new(self.frames@.len(), |i: int| self.frames@[i].pf_ref),
            free: self.frames_free_list@,
            mem: Seq::new(self.memory@.len(), |i: int| self.memory@[i]@),
            base_addr: self.base_addr,
            base_size: self.base_size,
        }
    }
}

impl FrameAllocator {
    /// The fields agree with each other.
    pub closed spec fn inv(&self) -> bool {
        &&& self.frames@.len() == self.nframes
        &&& self.memory@.len() == self.nframes
        &&& self.frames_free_list.wf()
        &&& self.frames_free_list.spec_n() == self.nframes
    }

    /// The allocator is initialised and its state is well formed.
    pub open spec fn wf(&self) -> bool {
        &&& self.inv()
        &&& self@.wf()
    }

    /// An allocator before `init`: no frames at all.
    pub closed spec fn is_unset(&self) -> bool {
        &&& self.frames@.len() == 0
        &&& self.memory@.len() == 0
        &&& self.nframes == 0
        &&& self.frames_free_list.is_unset()
    }

    /// Creates an allocator that manages no frames yet.
    pub fn new() -> (r: Self)
        ensures
            r.is_unset(),
            r@ == unset_frames(),
    {
        let r = FrameAllocator {
            frames: Vec::new(),
            nframes: 0,
            frames_free_list: IndexLink::new(),
            base_addr: VirtAddr::new(0),
            base_size: 0,
            memory: Vec::new(),
        };
        proof {
            assert(r@.refs =~= unset_frames().refs);
            assert(r@.mem =~= unset_frames().mem);
        }
        r
    }

    /// Takes over `nframes` frames of physical memory. The frames that hold a
    /// byte below the kernel address `freemem` belong to the kernel image and
    /// get one reference each; the others become the free list, lowest first.
    /// `base_addr` is where the kernel heap placed the metadata array.
    pub fn init(&mut self, freemem: VirtAddr, nframes: usize, base_addr: VirtAddr)
        requires
            freemem.0 >= ULIM,
            used_frame_count(freemem) <= nframes,
            nframes <= MAX_FRAMES,
        ensures
            final(self).wf(),
            final(self)@ == boot_state(nframes as int, used_frame_count(freemem), base_addr),
    {
        let frames_size = nframes * FRAME_META_BYTES;
        self.base_addr = base_addr;
        self.base_size = frames_size;
        self.frames_free_list.init(nframes);
        self.nframes = nframes;
        let used_pa = PhysAddr::from_kva(freemem).as_usize();
        let used = if used_pa % PAGE_SIZE == 0 {
            used_pa / PAGE_SIZE
        } else {
            used_pa / PAGE_SIZE + 1
        };
        let mut frames: Vec<PhysFrame> = Vec::new();
        let mut memory: Vec<PageTable> = Vec::new();
        let mut i: usize = 0;
        while i < used
            invariant
                i <= used <= nframes,
                frames@.len() == i,
                memory@.len() == i,
                forall|j: int| 0 <= j < i ==> (#[trigger] frames@[j]).pf_ref == 1,
                forall|j: int| 0 <= j < i ==> (#[trigger] memory@[j])@ == zero_table(),
            decreases used - i,
        {
            frames.push(PhysFrame { pf_ref: 1 });
            memory.push(PageTable::new());
            i += 1;
        }
        while i < nframes
            invariant
                used <= i <= nframes,
                nframes <= MAX_FRAMES,
                frames@.len() == i,
                memory@.len() == i,
                forall|j: int| 0 <= j < used ==> (#[trigger] frames@[j]).pf_ref == 1,
                forall|j: int| used <= j < i ==> (#[trigger] frames@[j]).pf_ref == 0,
                forall|j: int| 0 <= j < i ==> (#[trigger] memory@[j])@ == zero_table(),
                self.frames_free_list.wf(),
                self.frames_free_list.spec_n() == nframes,
                self.frames_free_list@ == Seq::new((i - used) as nat, |k: int| (used + k) as usize),
                self.nframes == nframes,
                self.base_addr == base_addr,
                self.base_size == nframes * FRAME_META_BYTES,
            decreases nframes - i,
        {
            frames.push(PhysFrame { pf_ref: 0 });
            memory.push(PageTable::new());
            proof {
                let l = self.frames_free_list@;
                if l.contains(i) {
                    let k = choose|k: int| 0 <= k < l.len() && l[k] == i;
                    assert(l[k] == used + k);
                }
            }
            self.insert_tail(PhysPageNum::new(i));
            proof {
                assert(self.frames_free_list@ =~= Seq::new(
                    (i + 1 - used) as nat,
                    |k: int| (used + k) as usize,
                ));
            }
            i += 1;
        }
        self.frames = frames;
        self.memory = memory;
        proof {
            let b = boot_state(nframes as int, used as int, base_addr);
            assert(self@.refs =~= b.refs);
            assert(self@.mem =~= b.mem);
            assert(self@.free =~= b.free);
            assert(self@ == b);
            assert(zero_table().len() == 1024);
        }
    }

    /// Number of frames under management.
    pub fn num_frames(&self) -> (r: usize)
        requires
            self.wf(),
        ensures
            r == self@.nframes(),
    {
        self.nframes
    }

    /// Number of frames on the free list.
    pub fn num_free(&self) -> (r: usize)
        requires
            self.wf(),
        ensures
            r == self@.free.len(),
    {
        self.frames_free_list.len()
    }

    /// The frame that is allocated next; `None` where no frame is free.
    pub fn next_free(&self) -> (r: Option<PhysPageNum>)
        requires
            self.wf(),
        ensures
            r == (if self@.free.len() > 0 {
                Some(PhysPageNum(self@.free[0]))
            } else {
                None
            }),
    {
        match self.frames_free_list.first() {
            Some(i) => Some(PhysPageNum::new(i)),
            None => None,
        }
    }

    /// The reference count of frame `ppn`.
    pub fn refcount(&self, ppn: PhysPageNum) -> (r: u16)
        requires
            self.wf(),
            ppn.0 < self@.nframes(),
        ensures
            r == self@.refs[ppn.0 as int],
    {
        self.frames[ppn.as_usize()].pf_ref
    }

    /// Whether frame `ppn` is on the free list.
    pub fn is_free(&self, ppn: PhysPageNum) -> (r: bool)
        requires
            self.wf(),
        ensures
            r == self@.is_free(ppn.0 as int),
    {
        let l = self.frames_free_list.to_vec();
        let mut i: usize = 0;
        while i < l.len()
            invariant
                i <= l@.len(),
                l@ == self@.free,
                forall|j: int| 0 <= j < i ==> l@[j] != ppn.0,
            decreases l@.len() - i,
        {
            if l[i] == ppn.as_usize() {
                return true;
            }
            i += 1;
        }
        false
    }

    /// Takes the head of the free list, fills the frame with zeros and returns
    /// its number; `NoMem` when no frame is free. The reference count of the
    /// frame stays zero: the new owner raises it.
    pub fn allocate(&mut self) -> (r: Result<PhysPageNum, Error>)
        requires
            old(self).wf(),
        ensures
            final(self).wf(),
            old(self)@.free.len() == 0 ==> r == Err::<PhysPageNum, Error>(Error::NoMem) && final(self)@
                == old(self)@,
            old(self)@.free.len() > 0 ==> r == Ok::<PhysPageNum, Error>(
                PhysPageNum(old(self)@.free[0]),
            ) && final(self)@ == old(self)@.after_alloc(),
    {
        match self.frames_free_list.first() {
            Some(ind) => {
                let ppn = PhysPageNum::new(ind);
                proof {
                    self.frames_free_list.lemma_wf_elements();
                }
                self.frame_clear(ppn);
                self.pop_first();
                proof {
                    let pre = old(self)@;
                    let post = self@;
                    assert(pre.free.index_of(pre.free[0]) == 0) by {
                        pre.free.index_of_first_ensures(pre.free[0]);
                    }
                    assert(pre.free.remove(0) =~= pre.free.drop_first());
                    assert(post.mem =~= pre.after_alloc().mem);
                    assert(post.refs =~= pre.refs);
                    assert(post == pre.after_alloc());
                    assert(zero_table().len() == 1024);
                    assert forall|i: int| 0 <= i < post.free.len() implies post.refs[
                    #[trigger] post.free[i] as int] == 0 by {
                        assert(post.free[i] == pre.free[i + 1]);
                    }
                    assert forall|i: int| 0 <= i < post.free.len() implies #[trigger] post.free[i]
                        < post.refs.len() by {
                        assert(post.free[i] == pre.free[i + 1]);
                    }
                }
                Ok(ppn)
            },
            None => Err(Error::NoMem),
        }
    }

    /// Puts frame `ppn`, which nobody refers to any more, at the tail of the
    /// free list. A frame that is on the list already moves to its tail.
    pub fn dealloc(&mut self, ppn: PhysPageNum)
        requires
            old(self).wf(),
            ppn.0 < old(self)@.nframes(),
            old(self)@.refs[ppn.0 as int] == 0,
        ensures
            final(self).wf(),
            final(self)@ == old(self)@.after_release(ppn.0 as int),
            !old(self)@.is_free(ppn.0 as int) ==> final(self)@ == old(self)@.after_dealloc(ppn.0 as int),
            final(self)@.is_free(ppn.0 as int),
            final(self)@.free.last() == ppn.0,
    {
        proof {
            assert(old(self)@.is_free(ppn.0 as int) == self.frames_free_list.contains(ppn.0));
        }
        if self.frames_free_list.holds(ppn.as_usize()) {
            self.frames_free_list.remove(ppn.as_usize());
        }
        let ghost mid = self@;
        self.insert_tail(ppn);
        proof {
            let pre = old(self)@;
            let post = self@;
            assert(post.refs =~= pre.refs);
            assert(post.mem =~= pre.mem);
            assert(post.free == mid.free.push(ppn.0));
            assert(post == pre.after_release(ppn.0 as int));
            self.frames_free_list.lemma_wf_elements();
            assert(post.free[post.free.len() - 1] == ppn.0);
            assert forall|i: int| 0 <= i < post.free.len() implies post.refs[#[trigger] post.free[i] as int]
                == 0 by {
                if i < mid.free.len() {
                    assert(post.free[i] == mid.free[i]);
                    assert(mid.free.contains(mid.free[i]));
                    assert(old(self).frames_free_list.contains(mid.free[i]));
                    let k = choose|k: int| 0 <= k < pre.free.len() && pre.free[k] == mid.free[i];
                    assert(pre.refs[pre.free[k] as int] == 0);
                }
            }
        }
    }

    /// Adds one reference to frame `ppn`. A frame on the free list leaves it:
    /// a frame that is referred to is never handed out.
    pub fn incref(&mut self, ppn: PhysPageNum)
        requires
            old(self).wf(),
            ppn.0 < old(self)@.nframes(),
            old(self)@.refs[ppn.0 as int] < u16::MAX,
        ensures
            final(self).wf(),
            final(self)@ == old(self)@.after_ref(ppn.0 as int),
            !old(self)@.is_free(ppn.0 as int) ==> final(self)@ == old(self)@.after_incref(ppn.0 as int),
            !final(self)@.is_free(ppn.0 as int),
    {
        proof {
            self.frames_free_list.lemma_wf_elements();
        }
        if self.frames_free_list.holds(ppn.as_usize()) {
            self.frames_free_list.remove(ppn.as_usize());
        }
        let c = self.frames[ppn.as_usize()].pf_ref;
        self.frames.set(ppn.as_usize(), PhysFrame { pf_ref: c + 1 });
        proof {
            let pre = old(self)@;
            let post = self@;
            let goal = pre.after_ref(ppn.0 as int);
            assert(pre.is_free(ppn.0 as int) == old(self).frames_free_list.contains(ppn.0));
            assert(post.refs =~= goal.refs);
            assert(post.mem =~= pre.mem);
            assert(post.free == goal.free);
            assert(post == goal);
            self.frames_free_list.lemma_wf_elements();
            assert(!self.frames_free_list.contains(ppn.0));
            assert forall|i: int| 0 <= i < post.free.len() implies post.refs[#[trigger] post.free[i] as int]
                == 0 by {
                assert(self.frames_free_list.contains(post.free[i]));
                assert(post.free[i] != ppn.0);
                assert(old(self).frames_free_list.contains(post.free[i]));
                let k = choose|k: int| 0 <= k < pre.free.len() && pre.free[k] == post.free[i];
                assert(pre.refs[pre.free[k] as int] == 0);
            }
        }
    }

    /// Gives up one reference to frame `ppn`; the frame is freed when none is left.
    pub fn decref(&mut self, ppn: PhysPageNum)
        requires
            old(self).wf(),
            ppn.0 < old(self)@.nframes(),
            old(self)@.refs[ppn.0 as int] > 0,
        ensures
            final(self).wf(),
            final(self)@ == old(self)@.after_decref(ppn.0 as int),
    {
        let c = self.frames[ppn.as_usize()].pf_ref;
        self.frames.set(ppn.as_usize(), PhysFrame { pf_ref: c - 1 });
        proof {
            let pre = old(self)@;
            let post = self@;
            let low = FrameState { refs: pre.refs.update(ppn.0 as int, (pre.refs[ppn.0 as int] - 1) as u16), ..pre };
            assert(post.refs =~= low.refs);
            assert(post.mem =~= pre.mem);
            assert(post == low);
            assert(!pre.is_free(ppn.0 as int));
        }
        if c - 1 == 0 {
            self.dealloc(ppn);
        }
    }

    /// Fills frame `ppn` with zeros.
    fn frame_clear(&mut self, ppn: PhysPageNum)
        requires
            old(self).inv(),
            ppn.0 < old(self)@.mem.len(),
        ensures
            final(self).inv(),
            final(self)@ == (FrameState {
                mem: old(self)@.mem.update(ppn.0 as int, zero_table()),
                ..old(self)@
            }),
    {
        self.memory.set(ppn.as_usize(), PageTable::new());
        proof {
            let pre = old(self)@;
            let post = self@;
            assert(post.mem =~= pre.mem.update(ppn.0 as int, zero_table()));
            assert(post.refs =~= pre.refs);
        }
    }

    /// Appends frame `ppn` to the free list.
    fn insert_tail(&mut self, ppn: PhysPageNum)
        requires
            old(self).frames_free_list.wf(),
            ppn.0 < old(self).frames_free_list.spec_n(),
            !old(self).frames_free_list.contains(ppn.0),
        ensures
            final(self).frames_free_list.wf(),
            final(self).frames_free_list.spec_n() == old(self).frames_free_list.spec_n(),
            final(self).frames_free_list@ == old(self).frames_free_list@.push(ppn.0),
            final(self).frames == old(self).frames,
            final(self).memory == old(self).memory,
            final(self).nframes == old(self).nframes,
            final(self).base_addr == old(self).base_addr,
            final(self).base_size == old(self).base_size,
    {
        self.frames_free_list.insert_tail(ppn.as_usize());
    }

    /// Drops the head of the free list.
    fn pop_first(&mut self)
        requires
            old(self).frames_free_list.wf(),
            old(self).frames_free_list@.len() > 0,
        ensures
            final(self).frames_free_list.wf(),
            final(self).frames_free_list.spec_n() == old(self).frames_free_list.spec_n(),
            final(self).frames_free_list@ == old(self).frames_free_list@.remove(
                old(self).frames_free_list@.index_of(old(self).frames_free_list@[0]),
            ),
            final(self).frames == old(self).frames,
            final(self).memory == old(self).memory,
            final(self).nframes == old(self).nframes,
            final(self).base_addr == old(self).base_addr,
            final(self).base_size == old(self).base_size,
    {
        match self.frames_free_list.first() {
            Some(head) => {
                proof {
                    assert(self.frames_free_list@[0] == head);
                }
                self.frames_free_list.remove(head);
            },
            None => {},
        }
    }

    /// Physical address of the metadata array.
    pub fn base_phy_addr(&self) -> (r: PhysAddr)
        requires
            self@.base_addr.0 >= ULIM,
        ensures
            r.0 == self@.base_addr.0 - ULIM,
    {
        PhysAddr::from_kva(self.base_addr)
    }

    /// Size of the metadata array in bytes.
    pub fn base_size(&self) -> (r: usize)
        ensures
            r == self@.base_size,
    {
        self.base_size
    }

    /// Word `idx` of frame `ppn`.
    pub fn read_entry(&self, ppn: PhysPageNum, idx: usize) -> (r: Pte)
        requires
            self.wf(),
            ppn.0 < self@.nframes(),
            idx < PAGE_TABLE_ENTRIES,
        ensures
            r == self@.entry(ppn.0 as int, idx as int),
    {
        self.memory[ppn.as_usize()].get_entry(idx)
    }

    /// Byte `off` of frame `ppn`.
    pub fn load_byte(&self, ppn: PhysPageNum, off: usize) -> (r: u8)
        requires
            self.wf(),
            ppn.0 < self@.nframes(),
            off < PAGE_SIZE,
        ensures
            r == self@.byte(ppn.0 as int, off as int),
    {
        let w = self.read_entry(ppn, off / 4).as_usize();
        let sh = 8 * (off % 4);
        proof {
            assert((w >> sh) & 0xff < 256) by (bit_vector);
        }
        ((w >> sh) & 0xff) as u8
    }

    /// Sets byte `off` of frame `ppn` to `b`.
    pub fn store_byte(&mut self, ppn: PhysPageNum, off: usize, b: u8)
        requires
            old(self).wf(),
            ppn.0 < old(self)@.nframes(),
            off < PAGE_SIZE,
        ensures
            final(self).wf(),
            final(self)@ == old(self)@.after_store_byte(ppn.0 as int, off as int, b),
    {
        let w = self.read_entry(ppn, off / 4).as_usize();
        let sh = 8 * (off % 4);
        let nw = (w & !(0xffusize << sh)) | ((b as usize) << sh);
        self.write_entry(ppn, off / 4, Pte::new(nw));
    }

    /// Copies the `len` bytes of `data` from index `start` on into frame
    /// `ppn`, from byte `off` on.
    pub fn store_bytes(&mut self, ppn: PhysPageNum, off: usize, data: &Vec<u8>, start: usize, len: usize)
        requires
            old(self).wf(),
            ppn.0 < old(self)@.nframes(),
            off + len <= PAGE_SIZE,
            start + len <= data@.len(),
        ensures
            final(self).wf(),
            final(self)@ == old(self)@.after_store_bytes(
                ppn.0 as int,
                off as int,
                data@.subrange(start as int, start + len),
            ),
    {
        let mut i: usize = 0;
        while i < len
            invariant
                i <= len,
                self.wf(),
                ppn.0 < self@.nframes(),
                off + len <= PAGE_SIZE,
                start + len <= data@.len(),
                self@ == old(self)@.after_store_bytes(
                    ppn.0 as int,
                    off as int,
                    data@.subrange(start as int, start + i),
                ),
            decreases len - i,
        {
            let total = data.len();
            proof {
                assert(start + i < total);
            }
            self.store_byte(ppn, off + i, data[start + i]);
            proof {
                let a = data@.subrange(start as int, start + i);
                let b = data@.subrange(start as int, start + i + 1);
                assert(b.drop_last() =~= a);
                assert(b.last() == data@[start + i]);
            }
            i += 1;
        }
    }

    /// Sets word `idx` of frame `ppn` to `pte`.
    pub fn write_entry(&mut self, ppn: PhysPageNum, idx: usize, pte: Pte)
        requires
            old(self).wf(),
            ppn.0 < old(self)@.nframes(),
            idx < PAGE_TABLE_ENTRIES,
        ensures
            final(self).wf(),
            final(self)@ == old(self)@.after_write(ppn.0 as int, idx as int, pte),
    {
        self.memory[ppn.as_usize()].set_entry(idx, pte);
        proof {
            let pre = old(self)@;
            let post = self@;
            assert(post.mem =~= pre.after_write(ppn.0 as int, idx as int, pte).mem);
            assert(post.refs =~= pre.refs);
        }
    }
}

/// Takes the head of the free list. See [`FrameAllocator::allocate`].
pub fn frame_alloc(fa: &mut FrameAllocator) -> (r: Result<PhysPageNum, Error>)
    requires
        old(fa).wf(),
    ensures
        final(fa).wf(),
        old(fa)@.free.len() == 0 ==> r == Err::<PhysPageNum, Error>(Error::NoMem) && final(fa)@ == old(fa)@,
        old(fa)@.free.len() > 0 ==> r == Ok::<PhysPageNum, Error>(PhysPageNum(old(fa)@.free[0]))
            && final(fa)@ == old(fa)@.after_alloc(),
{
    fa.allocate()
}

/// Puts an unreferenced frame at the tail of the free list; one that is on
/// the list already moves there.
pub fn frame_dealloc(fa: &mut FrameAllocator, ppn: PhysPageNum)
    requires
        old(fa).wf(),
        ppn.0 < old(fa)@.nframes(),
        old(fa)@.refs[ppn.0 as int] == 0,
    ensures
        final(fa).wf(),
        final(fa)@ == old(fa)@.after_release(ppn.0 as int),
        !old(fa)@.is_free(ppn.0 as int) ==> final(fa)@ == old(fa)@.after_dealloc(ppn.0 as int),
        final(fa)@.is_free(ppn.0 as int),
        final(fa)@.free.last() == ppn.0,
{
    fa.dealloc(ppn);
}

/// Adds one reference to a frame, which leaves the free list if it is on it.
pub fn frame_incref(fa: &mut FrameAllocator, ppn: PhysPageNum)
    requires
        old(fa).wf(),
        ppn.0 < old(fa)@.nframes(),
        old(fa)@.refs[ppn.0 as int] < u16::MAX,
    ensures
        final(fa).wf(),
        final(fa)@ == old(fa)@.after_ref(ppn.0 as int),
        !old(fa)@.is_free(ppn.0 as int) ==> final(fa)@ == old(fa)@.after_incref(ppn.0 as int),
        !final(fa)@.is_free(ppn.0 as int),
{
    fa.incref(ppn);
}

/// Takes over physical memory. See [`FrameAllocator::init`].
pub fn init_frame_allocator(fa: &mut FrameAllocator, freemem: VirtAddr, nframes: usize, base_addr: VirtAddr)
    requires
        freemem.0 >= ULIM,
        used_frame_count(freemem) <= nframes,
        nframes <= MAX_FRAMES,
    ensures
        final(fa).wf(),
        final(fa)@ == boot_state(nframes as int, used_frame_count(freemem), base_addr),
{
    fa.init(freemem, nframes, base_addr);
}

/// Gives up one reference to a frame; the frame is freed when none is left.
pub fn frame_decref(fa: &mut FrameAllocator, ppn: PhysPageNum)
    requires
        old(fa).wf(),
        ppn.0 < old(fa)@.nframes(),
        old(fa)@.refs[ppn.0 as int] > 0,
    ensures
        final(fa).wf(),
        final(fa)@ == old(fa)@.after_decref(ppn.0 as int),
{
    fa.decref(ppn);
}

/// Physical address of the frame metadata.
pub fn frame_base_phy_addr(fa: &FrameAllocator) -> (r: PhysAddr)
    requires
        fa@.base_addr.0 >= ULIM,
    ensures
        r.0 == fa@.base_addr.0 - ULIM,
{
    fa.base_phy_addr()
}

/// Size of the frame metadata in bytes.
pub fn frame_base_size(fa: &FrameAllocator) -> (r: usize)
    ensures
        r == fa@.base_size,
{
    fa.base_size()
}

/// Number of free frames.
pub fn num_free_frames(fa: &FrameAllocator) -> (r: usize)
    requires
        fa.wf(),
    ensures
        r == fa@.free.len(),
{
    fa.num_free()
}

/// Sets physical memory of `memsize` bytes up, of which the kernel image
/// takes what lies below `kernel_end`; `base_addr` is where the kernel heap
/// placed the frame metadata.
pub fn init_memory(fa: &mut FrameAllocator, memsize: usize, kernel_end: VirtAddr, base_addr: VirtAddr)
    requires
        kernel_end.0 >= ULIM,
        used_frame_count(kernel_end) <= memsize / PAGE_SIZE,
        memsize / PAGE_SIZE <= MAX_FRAMES,
    ensures
        final(fa).wf(),
        final(fa)@ == boot_state((memsize / PAGE_SIZE) as int, used_frame_count(kernel_end), base_addr),
{
    let nframes = memsize / PAGE_SIZE;
    init_frame_allocator(fa, kernel_end, nframes, base_addr);
}

} // verus!
