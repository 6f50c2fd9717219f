//! Mapping a run of frames into a part of a directory that has no table yet.

use vstd::prelude::*;
use crate::env::ASID;
use crate::frame::FrameState;
use crate::mmu::{PhysAddr, PhysPageNum, PTE_C_CACHEABLE, PTE_V, VirtAddr};
use crate::page_table::{
    after_insert, after_map_segment, after_remove, after_walk_create, insert_ok, installed_perm,
    lemma_alloc_not_free, lemma_installed_perm, lemma_pte_fields, lemma_walk_create_wf, map_segment_ok,
    MapState, Pte, segment_frame, segment_va, spec_lookup, spec_pde, walk_create_slot, zero_table,
};

verus! {

/// A segment of `npages` pages at `va` that is about to be mapped for the
/// first time in a part of directory `d` that has no table yet: the segment
/// lies within the region of one directory entry, that entry is invalid, a
/// frame is free for the table, the directory is in use, and the frames to be
/// mapped are in use with room for one more reference.
pub open spec fn fresh_segment(
    s: FrameState,
    d: PhysPageNum,
    pa: PhysAddr,
    va: VirtAddr,
    npages: nat,
) -> bool {
    &&& s.wf()
    &&& d.0 < s.nframes()
    &&& !s.is_free(d.0 as int)
    &&& pa.0 % 4096 == 0
    &&& va.0 % 4096 == 0
    &&& va.spec_ptx() + npages <= 1024
    &&& va.0 + 4096 * npages <= 0x1_0000_0000
    &&& pa.0 + 4096 * npages <= usize::MAX
    &&& !spec_pde(s, d, va).spec_valid()
    &&& s.free.len() >= 1
    &&& forall|k: int|
        0 <= k < npages ==> {
            let f = #[trigger] segment_frame(pa, k).0 as int;
            f < s.nframes() && !s.is_free(f) && s.refs[f] < u16::MAX
        }
}

/// What mapping the first `k` pages of a fresh segment leaves: the state is
/// well formed, nothing that was in use has become free, at most one frame
/// has been taken, no count has grown by more than one, the other entries of
/// the directory are as they were, and the pages not yet mapped are unmapped
/// in a table that is a frame of memory.
pub open spec fn segment_progress(
    s: FrameState,
    r: FrameState,
    d: PhysPageNum,
    pa: PhysAddr,
    va: VirtAddr,
    npages: nat,
    k: nat,
) -> bool {
    let t = s.free[0] as int;
    let pd = va.spec_pdx() as int;
    &&& r.wf()
    &&& r.nframes() == s.nframes()
    &&& forall|x: int| !s.is_free(x) ==> !r.is_free(x)
    &&& r.free.len() >= s.free.len() - 1
    &&& forall|x: int| 0 <= x < s.nframes() ==> #[trigger] r.refs[x] <= s.refs[x] + 1
    &&& forall|j: int|
        k <= j < npages ==> r.refs[#[trigger] segment_frame(pa, j).0 as int] == s.refs[segment_frame(
            pa,
            j,
        ).0 as int]
    &&& forall|q: int| 0 <= q < 1024 && q != pd ==> #[trigger] r.entry(d.0 as int, q) == s.entry(d.0 as int, q)
    &&& if k == 0 {
        r == s
    } else {
        &&& r.entry(d.0 as int, pd) == Pte::spec_from_ppn(PhysPageNum(t as usize), PTE_C_CACHEABLE | PTE_V)
        &&& forall|i: int| va.spec_ptx() + k <= i < 1024 ==> #[trigger] r.entry(t, i) == Pte(0)
    }
}

/// The two indices of page `k` of a segment that lies within the region of
/// one directory entry.
pub proof fn lemma_segment_indices(va: VirtAddr, k: int, npages: nat)
    requires
        va.0 % 4096 == 0,
        va.spec_ptx() + npages <= 1024,
        va.0 + 4096 * npages <= 0x1_0000_0000,
        0 <= k < npages,
    ensures
        segment_va(va, k).0 == va.0 + 4096 * k,
        segment_va(va, k).spec_pdx() == va.spec_pdx(),
        segment_va(va, k).spec_ptx() == va.spec_ptx() + k,
{
    let x = va.0 as int;
    let y = x + 4096 * k;
    let a = x / 4096;
    let h = a / 1024;
    let q = a % 1024;
    assert(x == 4096 * a);
    assert(a == 1024 * h + q);
    assert(y == 4096 * (a + k));
    assert(y / 4096 == a + k);
    assert(a + k == 1024 * h + (q + k));
    assert((a + k) / 1024 == h);
    assert((a + k) % 1024 == q + k);
    assert(x == 0x40_0000 * h + 4096 * q);
    assert(x / 0x40_0000 == h);
    assert(y == 0x40_0000 * h + 4096 * (q + k));
    assert(y / 0x40_0000 == h);
}

/// The frames of a segment are distinct.
pub proof fn lemma_segment_frames_distinct(pa: PhysAddr, j: int, k: int)
    requires
        pa.0 % 4096 == 0,
        0 <= j,
        0 <= k,
        j != k,
        pa.0 + 4096 * j <= usize::MAX,
        pa.0 + 4096 * k <= usize::MAX,
    ensures
        segment_frame(pa, j) != segment_frame(pa, k),
        segment_frame(pa, k).0 == pa.0 / 4096 + k,
{
    let x = pa.0 as int;
    let a = x / 4096;
    assert(x == 4096 * a);
    assert(x + 4096 * j == 4096 * (a + j));
    assert(x + 4096 * k == 4096 * (a + k));
    assert((x + 4096 * j) / 4096 == a + j);
    assert((x + 4096 * k) / 4096 == a + k);
}

/// Mapping one more page of a fresh segment succeeds and keeps the progress.
pub proof fn lemma_segment_step(
    s: FrameState,
    r: FrameState,
    d: PhysPageNum,
    pa: PhysAddr,
    va: VirtAddr,
    npages: nat,
    k: nat,
    perm: usize,
)
    requires
        fresh_segment(s, d, pa, va, npages),
        segment_progress(s, r, d, pa, va, npages, k),
        k < npages,
        perm < 4096,
    ensures
        insert_ok(r, d, segment_frame(pa, k as int), segment_va(va, k as int)),
        segment_progress(
            s,
            after_insert(r, d, segment_frame(pa, k as int), segment_va(va, k as int), perm),
            d,
            pa,
            va,
            npages,
            (k + 1) as nat,
        ),
{
    let ppn = segment_frame(pa, k as int);
    let f = ppn.0 as int;
    let v = segment_va(va, k as int);
    let t = s.free[0] as int;
    let pd = va.spec_pdx() as int;
    let pt = (va.spec_ptx() + k) as int;
    lemma_segment_indices(va, k as int, npages);
    lemma_installed_perm(perm);
    assert(zero_table().len() == 1024);
    assert(s.is_free(t));
    assert(t < s.nframes());
    assert(t != d.0);
    assert(f < s.nframes() && !s.is_free(f) && s.refs[f] < u16::MAX);
    assert(f != t);
    assert(r.refs[f] == s.refs[f]);
    lemma_pte_fields(PhysPageNum(t as usize), PTE_C_CACHEABLE | PTE_V);
    lemma_pte_fields(ppn, installed_perm(perm));
    let pde = Pte::spec_from_ppn(PhysPageNum(t as usize), PTE_C_CACHEABLE | PTE_V);
    let pte = Pte::spec_from_ppn(ppn, installed_perm(perm));
    assert(spec_lookup(r, d, v).is_none()) by {
        if k > 0 {
            assert(r.entry(t, pt) == Pte(0));
        }
    }
    assert(after_remove(r, d, v) == r);
    let out = after_insert(r, d, ppn, v, perm);
    if k == 0 {
        lemma_alloc_not_free(s);
        lemma_walk_create_wf(s, d, v);
        let s2 = after_walk_create(s, d, v);
        assert(s2 == s.after_alloc().after_incref(t).after_write(d.0 as int, pd, pde));
        assert(walk_create_slot(s, d, v).table.0 == t);
        assert(out == s2.after_incref(f).after_write(t, pt, pte));
        assert(out.free == s.after_alloc().free);
        assert forall|x: int| !s.is_free(x) implies !out.is_free(x) by {}
        assert(out.wf()) by {
            assert forall|x: int| 0 <= x < out.mem.len() implies (#[trigger] out.mem[x]).len() == 1024 by {}
            assert forall|i: int| 0 <= i < out.free.len() implies out.refs[#[trigger] out.free[i] as int]
                == 0 by {
                assert(out.free[i] == s.free[i + 1]);
                assert(s.is_free(out.free[i] as int));
                assert(s2.is_free(out.free[i] as int));
            }
        }
        assert forall|j: int| k + 1 <= j < npages implies out.refs[#[trigger] segment_frame(pa, j).0 as int]
            == s.refs[segment_frame(pa, j).0 as int] by {
            lemma_segment_frames_distinct(pa, j, k as int);
            let g = segment_frame(pa, j).0 as int;
            assert(!s.is_free(g));
        }
        assert forall|i: int| va.spec_ptx() + k + 1 <= i < 1024 implies #[trigger] out.entry(t, i) == Pte(
            0,
        ) by {}
        assert forall|q: int| 0 <= q < 1024 && q != pd implies #[trigger] out.entry(d.0 as int, q) == s.entry(
            d.0 as int,
            q,
        ) by {}
        assert forall|x: int| 0 <= x < s.nframes() implies #[trigger] out.refs[x] <= s.refs[x] + 1 by {}
        assert(out.entry(d.0 as int, pd) == pde);
        assert(out.free.len() >= s.free.len() - 1);
        assert(out.nframes() == s.nframes());
    } else {
        assert(spec_pde(r, d, v) == pde);
        assert(after_walk_create(r, d, v) == r);
        assert(walk_create_slot(r, d, v).table.0 == t);
        assert(out == r.after_incref(f).after_write(t, pt, pte));
        assert(out.free == r.free);
        assert(out.wf()) by {
            assert forall|x: int| 0 <= x < out.mem.len() implies (#[trigger] out.mem[x]).len() == 1024 by {}
            assert forall|i: int| 0 <= i < out.free.len() implies out.refs[#[trigger] out.free[i] as int]
                == 0 by {
                assert(r.is_free(out.free[i] as int));
            }
        }
        assert forall|j: int| k + 1 <= j < npages implies out.refs[#[trigger] segment_frame(pa, j).0 as int]
            == s.refs[segment_frame(pa, j).0 as int] by {
            lemma_segment_frames_distinct(pa, j, k as int);
            assert(r.refs[segment_frame(pa, j).0 as int] == s.refs[segment_frame(pa, j).0 as int]);
        }
        assert forall|i: int| va.spec_ptx() + k + 1 <= i < 1024 implies #[trigger] out.entry(t, i) == Pte(
            0,
        ) by {
            assert(r.entry(t, i) == Pte(0));
        }
        assert forall|q: int| 0 <= q < 1024 && q != pd implies #[trigger] out.entry(d.0 as int, q) == s.entry(
            d.0 as int,
            q,
        ) by {
            assert(r.entry(d.0 as int, q) == s.entry(d.0 as int, q));
        }
        assert forall|x: int| 0 <= x < s.nframes() implies #[trigger] out.refs[x] <= s.refs[x] + 1 by {
            assert(r.refs[x] <= s.refs[x] + 1);
        }
        assert forall|x: int| !s.is_free(x) implies !out.is_free(x) by {
            assert(!r.is_free(x));
        }
        assert(out.entry(d.0 as int, pd) == pde);
        assert(out.nframes() == s.nframes());
    }
}

/// Mapping a fresh segment succeeds at every page.
pub proof fn lemma_map_fresh_segment(
    m: MapState,
    d: PhysPageNum,
    asid: ASID,
    pa: PhysAddr,
    va: VirtAddr,
    npages: nat,
    k: nat,
    perm: usize,
)
    requires
        fresh_segment(m.frames, d, pa, va, npages),
        k <= npages,
        perm < 4096,
    ensures
        map_segment_ok(m, d, asid, pa, va, k, perm),
        segment_progress(
            m.frames,
            after_map_segment(m, d, asid, pa, va, k, perm).frames,
            d,
            pa,
            va,
            npages,
            k,
        ),
    decreases k,
{
    if k > 0 {
        let j = (k - 1) as nat;
        lemma_map_fresh_segment(m, d, asid, pa, va, npages, j, perm);
        let r = after_map_segment(m, d, asid, pa, va, j, perm).frames;
        lemma_segment_step(m.frames, r, d, pa, va, npages, j, perm);
    }
}

} // verus!
