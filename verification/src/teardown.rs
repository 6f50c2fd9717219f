//! Tearing down the user part of an address space.

use vstd::prelude::*;
use crate::env::{ASID, UTOP_PDX};
use crate::frame::{FrameAllocator, FrameState};
use crate::mmu::{PDSHIFT, PGSHIFT, PhysPageNum, UTOP, UVPT, VirtAddr};
use crate::page_table::{
    after_remove, lemma_decref_wf, lemma_remove_keeps_walkable, lemma_remove_wf, MapState, PageTable, Pte,
    remove_pre, spec_lookup, tlb_after_remove,
};
use crate::tlb::{Tlb, tlb_entry, tlb_invalidate};

verus! {

/// The address of page `pteno` of the region that directory entry `pdeno` covers.
pub open spec fn user_va(pdeno: int, pteno: int) -> VirtAddr {
    VirtAddr((pdeno * 0x40_0000 + pteno * 4096) as usize)
}

/// The address in the window onto the page tables at which the table of
/// directory entry `pdeno` shows.
pub open spec fn table_window_va(pdeno: int) -> VirtAddr {
    VirtAddr((UVPT + pdeno * 4096) as usize)
}

/// Memory and gateway after a `remove`.
pub open spec fn remove_step(m: MapState, d: PhysPageNum, asid: ASID, va: VirtAddr) -> MapState {
    MapState {
        frames: after_remove(m.frames, d, va),
        tlb: tlb_after_remove(m.frames, m.tlb, d, asid, va),
    }
}

/// Memory and gateway after the pages behind the first `upto` entries of
/// table `t` have been unmapped: for each entry that is valid when its turn
/// comes, the mapping of its address is removed.
pub open spec fn after_unmap_table(
    m: MapState,
    d: PhysPageNum,
    asid: ASID,
    pdeno: int,
    t: int,
    upto: nat,
) -> MapState
    decreases upto,
{
    if upto == 0 {
        m
    } else {
        let k = (upto - 1) as nat;
        let m1 = after_unmap_table(m, d, asid, pdeno, t, k);
        if m1.frames.entry(t, k as int).spec_valid() {
            remove_step(m1, d, asid, user_va(pdeno, k as int))
        } else {
            m1
        }
    }
}

/// Each removal among the first `upto` entries of table `t` finds what it needs.
pub open spec fn unmap_table_ok(
    m: MapState,
    d: PhysPageNum,
    asid: ASID,
    pdeno: int,
    t: int,
    upto: nat,
) -> bool
    decreases upto,
{
    if upto == 0 {
        true
    } else {
        let k = (upto - 1) as nat;
        let m1 = after_unmap_table(m, d, asid, pdeno, t, k);
        &&& unmap_table_ok(m, d, asid, pdeno, t, k)
        &&& m1.frames.entry(t, k as int).spec_valid() ==> remove_pre(
            m1.frames,
            d,
            user_va(pdeno, k as int),
        )
    }
}

/// Memory and gateway after directory entry `p` has been given up: if it is
/// valid, every page behind it is unmapped, the entry becomes zero, its table
/// loses a reference, and the TLB entry of the table's place in the window
/// onto the page tables is invalidated.
pub open spec fn free_table_step(m: MapState, d: PhysPageNum, asid: ASID, p: int) -> MapState {
    let pde = m.frames.entry(d.0 as int, p);
    if !pde.spec_valid() {
        m
    } else {
        let t = pde.spec_ppn() as int;
        let m1 = after_unmap_table(m, d, asid, p, t, 1024);
        MapState {
            frames: m1.frames.after_write(d.0 as int, p, Pte(0)).after_decref(t),
            tlb: m1.tlb.push(tlb_entry(asid, table_window_va(p))),
        }
    }
}

/// Giving up directory entry `p` finds what it needs: the table is a frame of
/// memory, each removal succeeds, and a reference is held on the table.
pub open spec fn free_table_ok(m: MapState, d: PhysPageNum, asid: ASID, p: int) -> bool {
    let pde = m.frames.entry(d.0 as int, p);
    let t = pde.spec_ppn() as int;
    pde.spec_valid() ==> {
        &&& t < m.frames.nframes()
        &&& unmap_table_ok(m, d, asid, p, t, 1024)
        &&& after_unmap_table(m, d, asid, p, t, 1024).frames.refs[t] > 0
    }
}

/// Memory and gateway after the first `upto` directory entries have been given up.
pub open spec fn after_free_tables(m: MapState, d: PhysPageNum, asid: ASID, upto: nat) -> MapState
    decreases upto,
{
    if upto == 0 {
        m
    } else {
        free_table_step(after_free_tables(m, d, asid, (upto - 1) as nat), d, asid, upto - 1)
    }
}

/// Giving up the first `upto` directory entries finds what it needs at each step.
pub open spec fn free_tables_ok(m: MapState, d: PhysPageNum, asid: ASID, upto: nat) -> bool
    decreases upto,
{
    if upto == 0 {
        true
    } else {
        &&& free_tables_ok(m, d, asid, (upto - 1) as nat)
        &&& free_table_ok(after_free_tables(m, d, asid, (upto - 1) as nat), d, asid, upto - 1)
    }
}

/// Memory and gateway after the user part of the address space of directory
/// `d` has been torn down and the directory has lost its reference.
pub open spec fn after_free_space(m: MapState, d: PhysPageNum, asid: ASID) -> MapState {
    let m1 = after_free_tables(m, d, asid, UTOP_PDX as nat);
    MapState { frames: m1.frames.after_decref(d.0 as int), tlb: m1.tlb }
}

/// Tearing down the address space of directory `d` finds what it needs.
pub open spec fn free_space_ok(m: MapState, d: PhysPageNum, asid: ASID) -> bool {
    &&& d.0 < m.frames.nframes()
    &&& free_tables_ok(m, d, asid, UTOP_PDX as nat)
    &&& after_free_tables(m, d, asid, UTOP_PDX as nat).frames.refs[d.0 as int] > 0
}

/// A teardown that succeeds up to `n` succeeds up to any `k <= n`.
pub proof fn lemma_unmap_table_ok_prefix(
    m: MapState,
    d: PhysPageNum,
    asid: ASID,
    pdeno: int,
    t: int,
    n: nat,
    k: nat,
)
    requires
        unmap_table_ok(m, d, asid, pdeno, t, n),
        k <= n,
    ensures
        unmap_table_ok(m, d, asid, pdeno, t, k),
    decreases n,
{
    if k < n {
        lemma_unmap_table_ok_prefix(m, d, asid, pdeno, t, (n - 1) as nat, k);
    }
}

/// A teardown that succeeds up to `n` succeeds up to any `k <= n`.
pub proof fn lemma_free_tables_ok_prefix(m: MapState, d: PhysPageNum, asid: ASID, n: nat, k: nat)
    requires
        free_tables_ok(m, d, asid, n),
        k <= n,
    ensures
        free_tables_ok(m, d, asid, k),
    decreases n,
{
    if k < n {
        lemma_free_tables_ok_prefix(m, d, asid, (n - 1) as nat, k);
    }
}

/// The address built from two indices by shifting is the one built by multiplying.
pub proof fn lemma_user_va_bits(pdeno: usize, pteno: usize)
    requires
        pdeno < 1024,
        pteno < 1024,
    ensures
        (pdeno << 22) | (pteno << 12) == pdeno * 0x40_0000 + pteno * 4096,
        pdeno << 12 == pdeno * 4096,
{
    assert((pdeno << 22) | (pteno << 12) == pdeno * 0x40_0000 + pteno * 4096 && pdeno << 12 == pdeno
        * 4096) by (bit_vector)
        requires
            pdeno < 1024,
            pteno < 1024,
    ;
}

/// Unmaps every page behind the valid entries of table `t`, which directory
/// entry `pdeno` of `pgdir` names.
pub fn unmap_table(
    fa: &mut FrameAllocator,
    tlb: &mut Tlb,
    pgdir: PhysPageNum,
    asid: ASID,
    pdeno: usize,
    t: PhysPageNum,
)
    requires
        old(fa).wf(),
        pdeno < 1024,
        t.0 < old(fa)@.nframes(),
        unmap_table_ok(
            MapState { frames: old(fa)@, tlb: old(tlb)@ },
            pgdir,
            asid,
            pdeno as int,
            t.0 as int,
            1024,
        ),
    ensures
        final(fa).wf(),
        final(fa)@.nframes() == old(fa)@.nframes(),
        (MapState { frames: final(fa)@, tlb: final(tlb)@ }) == after_unmap_table(
            MapState { frames: old(fa)@, tlb: old(tlb)@ },
            pgdir,
            asid,
            pdeno as int,
            t.0 as int,
            1024,
        ),
{
    let ghost m0 = MapState { frames: fa@, tlb: tlb@ };
    let mut pteno: usize = 0;
    while pteno < 1024
        invariant
            pteno <= 1024,
            pdeno < 1024,
            fa.wf(),
            fa@.nframes() == old(fa)@.nframes(),
            t.0 < fa@.nframes(),
            m0 == (MapState { frames: old(fa)@, tlb: old(tlb)@ }),
            unmap_table_ok(m0, pgdir, asid, pdeno as int, t.0 as int, 1024),
            (MapState { frames: fa@, tlb: tlb@ }) == after_unmap_table(
                m0,
                pgdir,
                asid,
                pdeno as int,
                t.0 as int,
                pteno as nat,
            ),
        decreases 1024 - pteno,
    {
        proof {
            lemma_unmap_table_ok_prefix(m0, pgdir, asid, pdeno as int, t.0 as int, 1024, (pteno + 1) as nat);
            lemma_user_va_bits(pdeno, pteno);
        }
        if fa.read_entry(t, pteno).valid() {
            let va = VirtAddr::new((pdeno << PDSHIFT) | (pteno << PGSHIFT));
            proof {
                lemma_remove_keeps_walkable(fa@, pgdir, va);
            }
            PageTable::remove(fa, tlb, pgdir, asid, va);
        }
        pteno += 1;
    }
}

/// Tears down the user part of the address space of directory `pgdir`: every
/// mapped page loses its mapping, every second-level table its reference.
pub fn free_user_tables(fa: &mut FrameAllocator, tlb: &mut Tlb, pgdir: PhysPageNum, asid: ASID)
    requires
        old(fa).wf(),
        pgdir.0 < old(fa)@.nframes(),
        free_tables_ok(MapState { frames: old(fa)@, tlb: old(tlb)@ }, pgdir, asid, UTOP_PDX as nat),
    ensures
        final(fa).wf(),
        final(fa)@.nframes() == old(fa)@.nframes(),
        (MapState { frames: final(fa)@, tlb: final(tlb)@ }) == after_free_tables(
            MapState { frames: old(fa)@, tlb: old(tlb)@ },
            pgdir,
            asid,
            UTOP_PDX as nat,
        ),
{
    let ghost m0 = MapState { frames: fa@, tlb: tlb@ };
    let mut pdeno: usize = 0;
    while pdeno < UTOP_PDX
        invariant
            pdeno <= UTOP_PDX,
            fa.wf(),
            fa@.nframes() == old(fa)@.nframes(),
            pgdir.0 < fa@.nframes(),
            m0 == (MapState { frames: old(fa)@, tlb: old(tlb)@ }),
            free_tables_ok(m0, pgdir, asid, UTOP_PDX as nat),
            (MapState { frames: fa@, tlb: tlb@ }) == after_free_tables(m0, pgdir, asid, pdeno as nat),
        decreases UTOP_PDX - pdeno,
    {
        proof {
            lemma_free_tables_ok_prefix(m0, pgdir, asid, UTOP_PDX as nat, (pdeno + 1) as nat);
            lemma_user_va_bits(pdeno, 0);
        }
        let pte = fa.read_entry(pgdir, pdeno);
        if pte.valid() {
            let t = pte.ppn();
            unmap_table(fa, tlb, pgdir, asid, pdeno, t);
            fa.write_entry(pgdir, pdeno, Pte::new(0));
            fa.decref(t);
            tlb_invalidate(tlb, asid, VirtAddr::new(UVPT + (pdeno << PGSHIFT)));
        }
        pdeno += 1;
    }
}

/// A state whose words are those of an earlier state or zero.
pub open spec fn only_zeroed(s: FrameState, r: FrameState) -> bool {
    &&& r.mem.len() == s.mem.len()
    &&& r.refs.len() == s.refs.len()
    &&& forall|x: int, k: int|
        0 <= x < s.mem.len() && 0 <= k < 1024 ==> #[trigger] r.entry(x, k) == s.entry(x, k) || r.entry(
            x,
            k,
        ) == Pte(0)
}

/// The zero entry is not valid.
pub proof fn lemma_zero_invalid()
    ensures
        !Pte(0).spec_valid(),
{
    assert(0usize & 0x80usize == 0) by (bit_vector);
}

/// A `remove` changes no word of memory but to zero.
pub proof fn lemma_remove_only_zeroes(s: FrameState, d: PhysPageNum, va: VirtAddr)
    requires
        s.wf(),
        remove_pre(s, d, va),
    ensures
        only_zeroed(s, after_remove(s, d, va)),
        after_remove(s, d, va).wf(),
{
    lemma_remove_wf(s, d, va);
    let r = after_remove(s, d, va);
    match spec_lookup(s, d, va) {
        Some(slot) => {
            assert forall|x: int, k: int| 0 <= x < s.mem.len() && 0 <= k < 1024 implies #[trigger] r.entry(
                x,
                k,
            ) == s.entry(x, k) || r.entry(x, k) == Pte(0) by {}
        },
        None => {},
    }
}

/// Unmapping the pages behind a table changes no word of memory but to zero.
pub proof fn lemma_unmap_table_only_zeroes(
    m: MapState,
    d: PhysPageNum,
    asid: ASID,
    pdeno: int,
    t: int,
    upto: nat,
)
    requires
        m.frames.wf(),
        unmap_table_ok(m, d, asid, pdeno, t, upto),
    ensures
        only_zeroed(m.frames, after_unmap_table(m, d, asid, pdeno, t, upto).frames),
        after_unmap_table(m, d, asid, pdeno, t, upto).frames.wf(),
    decreases upto,
{
    if upto > 0 {
        let k = (upto - 1) as nat;
        lemma_unmap_table_only_zeroes(m, d, asid, pdeno, t, k);
        let m1 = after_unmap_table(m, d, asid, pdeno, t, k);
        if m1.frames.entry(t, k as int).spec_valid() {
            lemma_remove_only_zeroes(m1.frames, d, user_va(pdeno, k as int));
            let r = after_remove(m1.frames, d, user_va(pdeno, k as int));
            assert forall|x: int, j: int| 0 <= x < m.frames.mem.len() && 0 <= j < 1024 implies #[trigger] r.entry(
                x,
                j,
            ) == m.frames.entry(x, j) || r.entry(x, j) == Pte(0) by {
                assert(r.entry(x, j) == m1.frames.entry(x, j) || r.entry(x, j) == Pte(0));
                assert(m1.frames.entry(x, j) == m.frames.entry(x, j) || m1.frames.entry(x, j) == Pte(0));
            }
        }
    }
}

/// Once the first `upto` directory entries have been given up, none of them
/// is valid, and no word of memory has changed but to zero.
pub proof fn lemma_free_tables_invalid(m: MapState, d: PhysPageNum, asid: ASID, upto: nat)
    requires
        m.frames.wf(),
        d.0 < m.frames.nframes(),
        upto <= 1024,
        free_tables_ok(m, d, asid, upto),
    ensures
        only_zeroed(m.frames, after_free_tables(m, d, asid, upto).frames),
        after_free_tables(m, d, asid, upto).frames.wf(),
        forall|p: int|
            0 <= p < upto ==> !(#[trigger] after_free_tables(m, d, asid, upto).frames.entry(
                d.0 as int,
                p,
            )).spec_valid(),
    decreases upto,
{
    lemma_zero_invalid();
    if upto > 0 {
        let q = (upto - 1) as nat;
        lemma_free_tables_invalid(m, d, asid, q);
        let m1 = after_free_tables(m, d, asid, q);
        let r = after_free_tables(m, d, asid, upto);
        let pde = m1.frames.entry(d.0 as int, q as int);
        if pde.spec_valid() {
            let t = pde.spec_ppn() as int;
            lemma_unmap_table_only_zeroes(m1, d, asid, q as int, t, 1024);
            let m2 = after_unmap_table(m1, d, asid, q as int, t, 1024);
            let w = m2.frames.after_write(d.0 as int, q as int, Pte(0));
            assert(w.wf()) by {
                assert forall|x: int| 0 <= x < w.mem.len() implies (#[trigger] w.mem[x]).len() == 1024 by {}
            }
            lemma_decref_wf(w, t);
            assert(r.frames == w.after_decref(t));
            assert forall|x: int, j: int| 0 <= x < m.frames.mem.len() && 0 <= j < 1024 implies #[trigger] r.frames.entry(
                x,
                j,
            ) == m.frames.entry(x, j) || r.frames.entry(x, j) == Pte(0) by {
                assert(m2.frames.entry(x, j) == m1.frames.entry(x, j) || m2.frames.entry(x, j) == Pte(0));
                assert(m1.frames.entry(x, j) == m.frames.entry(x, j) || m1.frames.entry(x, j) == Pte(0));
            }
            assert forall|p: int| 0 <= p < upto implies !(#[trigger] r.frames.entry(
                d.0 as int,
                p,
            )).spec_valid() by {
                if p < q {
                    assert(!m1.frames.entry(d.0 as int, p).spec_valid());
                    assert(m2.frames.entry(d.0 as int, p) == m1.frames.entry(d.0 as int, p)
                        || m2.frames.entry(d.0 as int, p) == Pte(0));
                }
            }
        } else {
            assert forall|p: int| 0 <= p < upto implies !(#[trigger] r.frames.entry(
                d.0 as int,
                p,
            )).spec_valid() by {
                if p < q {
                    assert(!m1.frames.entry(d.0 as int, p).spec_valid());
                }
            }
        }
    }
}

/// After the address space of directory `d` has been torn down, no user
/// address is mapped in it.
pub proof fn lemma_free_space_unmaps(m: MapState, d: PhysPageNum, asid: ASID, va: VirtAddr)
    requires
        m.frames.wf(),
        free_space_ok(m, d, asid),
        va.0 < UTOP,
    ensures
        spec_lookup(after_free_space(m, d, asid).frames, d, va).is_none(),
        !after_free_space(m, d, asid).frames.entry(d.0 as int, va.spec_pdx() as int).spec_valid(),
{
    lemma_free_tables_invalid(m, d, asid, UTOP_PDX as nat);
    let x = va.0;
    assert((x / 0x40_0000) % 1024 < 509) by (nonlinear_arith)
        requires
            x < 0x7f40_0000,
    ;
    let m1 = after_free_tables(m, d, asid, UTOP_PDX as nat);
    assert(!m1.frames.entry(d.0 as int, va.spec_pdx() as int).spec_valid());
}

} // verus!
