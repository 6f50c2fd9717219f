//! The reference count of a frame against the number of pages mapped to it.

use vstd::prelude::*;
use crate::frame::FrameState;
use crate::mmu::{PhysPageNum, PTE_C_CACHEABLE, PTE_V, VirtAddr};
use crate::page_table::{
    after_insert, after_remove, after_walk_create, insert_ok, installed_perm, lemma_alloc_not_free,
    lemma_decref_wf, lemma_installed_perm, lemma_pte_fields, lemma_remove_wf, lemma_walk_create_wf,
    maps_same, Pte, remove_pre, spec_lookup, walk_create_slot, zero_table,
};

verus! {

/// Number of directory entries that cover the addresses below `UTOP`.
pub const USER_TABLES: usize = 509;

/// The number of the page that holds `va`, from its two indices.
pub open spec fn page_of(va: VirtAddr) -> int {
    va.spec_pdx() * 1024 + va.spec_ptx()
}

/// The address of page `j`.
pub open spec fn page_va(j: int) -> VirtAddr {
    VirtAddr((j * 4096) as usize)
}

/// Whether entry `i` of the table behind directory entry `p` is valid and names frame `f`.
pub open spec fn maps_at(s: FrameState, d: PhysPageNum, f: PhysPageNum, p: int, i: int) -> bool {
    let pde = s.entry(d.0 as int, p);
    &&& pde.spec_valid()
    &&& s.entry(pde.spec_ppn() as int, i).spec_valid()
    &&& s.entry(pde.spec_ppn() as int, i).spec_ppn() == f.0
}

/// Whether page `j` is mapped to frame `f`.
pub open spec fn maps_frame(s: FrameState, d: PhysPageNum, f: PhysPageNum, j: int) -> bool {
    maps_same(s, d, f, page_va(j))
}

/// How many of the pages below `upto` are mapped to frame `f`.
pub open spec fn mapping_count(s: FrameState, d: PhysPageNum, f: PhysPageNum, upto: int) -> int
    decreases upto,
{
    if upto <= 0 {
        0
    } else {
        mapping_count(s, d, f, upto - 1) + if maps_frame(s, d, f, upto - 1) {
            1int
        } else {
            0int
        }
    }
}

/// The table that directory entry `p` names.
pub open spec fn table_of(s: FrameState, d: PhysPageNum, p: int) -> int {
    s.entry(d.0 as int, p).spec_ppn() as int
}

/// Whether directory entry `p` is valid.
pub open spec fn has_table(s: FrameState, d: PhysPageNum, p: int) -> bool {
    s.entry(d.0 as int, p).spec_valid()
}

/// The first `span` entries of directory `d` are a tree whose only target is
/// frame `f`: the directory and the second-level tables that they name are
/// distinct frames in use, none of them is `f`, and every valid entry of such
/// a table names `f`.
pub open spec fn single_target(s: FrameState, d: PhysPageNum, f: PhysPageNum, span: int) -> bool {
    &&& s.wf()
    &&& 0 <= span <= 1024
    &&& d.0 < s.nframes()
    &&& f.0 < s.nframes()
    &&& d.0 != f.0
    &&& !s.is_free(d.0 as int)
    &&& forall|p: int|
        0 <= p < span && #[trigger] has_table(s, d, p) ==> {
            &&& 0 <= table_of(s, d, p) < s.nframes()
            &&& !s.is_free(table_of(s, d, p))
            &&& table_of(s, d, p) != d.0
            &&& table_of(s, d, p) != f.0
        }
    &&& forall|p: int, q: int|
        0 <= p < span && 0 <= q < span && p != q && #[trigger] has_table(s, d, p)
            && #[trigger] has_table(s, d, q) ==> table_of(s, d, p) != table_of(s, d, q)
    &&& forall|p: int, i: int|
        0 <= p < span && 0 <= i < 1024 && has_table(s, d, p) && (#[trigger] s.entry(
            table_of(s, d, p),
            i,
        )).spec_valid() ==> s.entry(table_of(s, d, p), i).spec_ppn() == f.0
}

/// The reference count of `f` is the number of pages that the first `span`
/// entries of the directory map to it.
pub open spec fn refcount_matches(s: FrameState, d: PhysPageNum, f: PhysPageNum, span: int) -> bool {
    &&& single_target(s, d, f, span)
    &&& s.refs[f.0 as int] == mapping_count(s, d, f, span * 1024)
}

/// The two indices of a page address, from the page number.
pub proof fn lemma_page_indices(j: int)
    requires
        0 <= j < 0x10_0000,
    ensures
        page_va(j).0 == j * 4096,
        page_va(j).spec_pdx() == j / 1024,
        page_va(j).spec_ptx() == j % 1024,
        0 <= j / 1024 < 1024,
{
    let x = (j * 4096) as usize;
    assert((x / 0x40_0000) % 1024 == j / 1024 && (x / 4096) % 1024 == j % 1024) by (nonlinear_arith)
        requires
            x == j * 4096,
            0 <= j < 0x10_0000,
    ;
}

/// The two indices of an address are those of the page that holds it.
pub proof fn lemma_va_indices(va: VirtAddr)
    ensures
        va.spec_pdx() == page_of(va) / 1024,
        va.spec_ptx() == page_of(va) % 1024,
        0 <= page_of(va) < 0x10_0000,
        va.0 < 0x1_0000_0000 ==> page_of(va) == va.0 / 4096,
{
    let x = va.0;
    assert((x / 0x40_0000) % 1024 < 1024 && (x / 4096) % 1024 < 1024);
    assert(x < 0x1_0000_0000 ==> ((x / 0x40_0000) % 1024) * 1024 + (x / 4096) % 1024 == x / 4096)
        by (nonlinear_arith);
}

/// Whether a page is mapped to `f` depends on its two indices alone.
pub proof fn lemma_maps_frame_at(s: FrameState, d: PhysPageNum, f: PhysPageNum, j: int)
    requires
        0 <= j < 0x10_0000,
    ensures
        maps_frame(s, d, f, j) == maps_at(s, d, f, j / 1024, j % 1024),
{
    lemma_page_indices(j);
}

/// Two states that agree on which pages map `f`, but for page `page`, differ in
/// their counts by what page `page` adds.
pub proof fn lemma_count_change(
    s: FrameState,
    r: FrameState,
    d: PhysPageNum,
    f: PhysPageNum,
    page: int,
    upto: int,
)
    requires
        0 <= upto,
        forall|j: int| 0 <= j < upto && j != page ==> maps_frame(r, d, f, j) == maps_frame(s, d, f, j),
    ensures
        mapping_count(r, d, f, upto) - mapping_count(s, d, f, upto) == (if 0 <= page < upto && maps_frame(
            r,
            d,
            f,
            page,
        ) {
            1int
        } else {
            0int
        }) - (if 0 <= page < upto && maps_frame(s, d, f, page) {
            1int
        } else {
            0int
        }),
    decreases upto,
{
    if upto > 0 {
        lemma_count_change(s, r, d, f, page, upto - 1);
    }
}

/// A directory without valid entries among its first `span` maps nothing there.
pub proof fn lemma_empty_directory_count(s: FrameState, d: PhysPageNum, f: PhysPageNum, span: int, upto: int)
    requires
        0 <= span <= 1024,
        0 <= upto <= span * 1024,
        forall|p: int| 0 <= p < span ==> !#[trigger] has_table(s, d, p),
    ensures
        mapping_count(s, d, f, upto) == 0,
    decreases upto,
{
    if upto > 0 {
        lemma_empty_directory_count(s, d, f, span, upto - 1);
        let j = upto - 1;
        lemma_maps_frame_at(s, d, f, j);
        assert(j / 1024 < span);
        assert(!has_table(s, d, j / 1024));
    }
}

/// An `insert` of the single target, at an address under one of the first
/// `span` directory entries, keeps the tree and its single target. The
/// reference count of the target and the number of pages mapped to it both
/// grow by one, unless the address mapped the frame already. The frame taken
/// for a new table gets one reference, and no other count changes.
pub proof fn lemma_insert_keeps_target(
    s: FrameState,
    d: PhysPageNum,
    f: PhysPageNum,
    span: int,
    va: VirtAddr,
    perm: usize,
)
    requires
        single_target(s, d, f, span),
        insert_ok(s, d, f, va),
        va.spec_pdx() < span,
        perm < 4096,
    ensures
        single_target(after_insert(s, d, f, va, perm), d, f, span),
        maps_same(after_insert(s, d, f, va, perm), d, f, va),
        after_insert(s, d, f, va, perm).refs[f.0 as int] == s.refs[f.0 as int] + (if maps_same(s, d, f, va) {
            0int
        } else {
            1int
        }),
        mapping_count(after_insert(s, d, f, va, perm), d, f, span * 1024) == mapping_count(
            s,
            d,
            f,
            span * 1024,
        ) + (if maps_same(s, d, f, va) {
            0int
        } else {
            1int
        }),
        forall|x: int|
            0 <= x < s.nframes() && x != f.0 ==> after_insert(s, d, f, va, perm).refs[x] == s.refs[x] + (if !has_table(
                s,
                d,
                va.spec_pdx() as int,
            ) && x == s.free[0] {
                1int
            } else {
                0int
            }),
{
    let r = after_insert(s, d, f, va, perm);
    let pte = Pte::spec_from_ppn(f, installed_perm(perm));
    lemma_installed_perm(perm);
    lemma_pte_fields(f, installed_perm(perm));
    lemma_va_indices(va);
    let page = page_of(va);
    let pd = va.spec_pdx() as int;
    let pt = va.spec_ptx() as int;
    lemma_maps_frame_at(s, d, f, page);
    lemma_maps_frame_at(r, d, f, page);
    assert(maps_same(s, d, f, va) == maps_at(s, d, f, pd, pt));
    assert(maps_same(r, d, f, va) == maps_at(r, d, f, pd, pt));
    assert(zero_table().len() == 1024);
    assert(Pte(0).0 & PTE_V == 0);
    if has_table(s, d, pd) {
        let t = table_of(s, d, pd);
        if spec_lookup(s, d, va).is_some() {
            assert(s.entry(t, pt).spec_valid());
            assert(maps_same(s, d, f, va));
            assert(r == s.after_write(t, pt, pte));
        } else {
            assert(after_remove(s, d, va) == s);
            assert(r == s.after_incref(f.0 as int).after_write(t, pt, pte));
        }
        assert(r.free == s.free);
        assert forall|x: int, k: int| 0 <= x < s.nframes() && 0 <= k < 1024 implies r.entry(x, k) == (if x
            == t && k == pt {
            pte
        } else {
            s.entry(x, k)
        }) by {}
        assert forall|p: int| 0 <= p < 1024 implies has_table(r, d, p) == has_table(s, d, p) && table_of(
            r,
            d,
            p,
        ) == table_of(s, d, p) by {}
        lemma_shape_after(s, r, d, f, span, t, pt, pte);
        assert forall|j: int| 0 <= j < span * 1024 && j != page implies maps_frame(r, d, f, j) == maps_frame(
            s,
            d,
            f,
            j,
        ) by {
            lemma_maps_frame_at(s, d, f, j);
            lemma_maps_frame_at(r, d, f, j);
            let p = j / 1024;
            let i = j % 1024;
            assert(p < span);
            if has_table(s, d, p) {
                assert(has_table(s, d, pd));
                if p != pd {
                    assert(table_of(s, d, p) != t);
                }
            }
        }
        lemma_count_change(s, r, d, f, page, span * 1024);
        assert(maps_at(r, d, f, pd, pt));
    } else {
        assert(spec_lookup(s, d, va).is_none());
        assert(after_remove(s, d, va) == s);
        assert(s.free.len() > 0);
        let t = s.free[0] as int;
        lemma_alloc_not_free(s);
        lemma_walk_create_wf(s, d, va);
        assert(s.is_free(t));
        assert(t < s.nframes());
        assert(s.refs[t] == 0);
        lemma_pte_fields(PhysPageNum(t as usize), PTE_C_CACHEABLE | PTE_V);
        let pde = Pte::spec_from_ppn(PhysPageNum(t as usize), PTE_C_CACHEABLE | PTE_V);
        let s2 = after_walk_create(s, d, va);
        assert(s2 == s.after_alloc().after_incref(t).after_write(d.0 as int, pd, pde));
        assert(walk_create_slot(s, d, va).table.0 == t);
        assert(r == s2.after_incref(f.0 as int).after_write(t, pt, pte));
        assert(t != d.0);
        assert(t != f.0);
        assert forall|x: int, k: int| 0 <= x < s.nframes() && 0 <= k < 1024 implies r.entry(x, k) == (if x
            == t && k == pt {
            pte
        } else if x == t {
            Pte(0)
        } else if x == d.0 && k == pd {
            pde
        } else {
            s.entry(x, k)
        }) by {}
        assert forall|p: int| 0 <= p < 1024 && p != pd implies has_table(r, d, p) == has_table(s, d, p)
            && table_of(r, d, p) == table_of(s, d, p) by {}
        assert(has_table(r, d, pd) && table_of(r, d, pd) == t);
        assert forall|q: int| !s.is_free(q) implies !r.is_free(q) by {
            assert(r.free == s.after_alloc().free);
        }
        assert(!r.is_free(t)) by {
            assert(r.free == s.after_alloc().free);
        }
        assert(r.wf()) by {
            assert(r.refs.len() == s.refs.len());
            assert(r.mem.len() == s.mem.len());
            assert forall|x: int| 0 <= x < r.mem.len() implies (#[trigger] r.mem[x]).len() == 1024 by {}
            assert forall|k: int| 0 <= k < r.free.len() implies r.refs[#[trigger] r.free[k] as int] == 0 by {
                assert(r.free[k] == s.free[k + 1]);
                assert(s2.is_free(r.free[k] as int));
            }
        }
        assert(single_target(r, d, f, span)) by {
            assert forall|p: int| 0 <= p < span && #[trigger] has_table(r, d, p) implies {
                &&& 0 <= table_of(r, d, p) < r.nframes()
                &&& !r.is_free(table_of(r, d, p))
                &&& table_of(r, d, p) != d.0
                &&& table_of(r, d, p) != f.0
            } by {
                if p != pd {
                    assert(has_table(s, d, p));
                }
            }
            assert forall|p: int, q: int|
                0 <= p < span && 0 <= q < span && p != q && #[trigger] has_table(r, d, p)
                    && #[trigger] has_table(r, d, q) implies table_of(r, d, p) != table_of(r, d, q) by {
                if p != pd {
                    assert(has_table(s, d, p));
                }
                if q != pd {
                    assert(has_table(s, d, q));
                }
            }
            assert forall|p: int, i: int|
                0 <= p < span && 0 <= i < 1024 && has_table(r, d, p) && (#[trigger] r.entry(
                    table_of(r, d, p),
                    i,
                )).spec_valid() implies r.entry(table_of(r, d, p), i).spec_ppn() == f.0 by {
                if p != pd {
                    assert(has_table(s, d, p));
                    assert(s.entry(table_of(s, d, p), i).spec_valid());
                }
            }
        }
        assert forall|j: int| 0 <= j < span * 1024 && j != page implies maps_frame(r, d, f, j) == maps_frame(
            s,
            d,
            f,
            j,
        ) by {
            lemma_maps_frame_at(s, d, f, j);
            lemma_maps_frame_at(r, d, f, j);
            let p = j / 1024;
            assert(p < span);
            if p != pd {
                if has_table(s, d, p) {
                    assert(table_of(s, d, p) != t);
                }
            }
        }
        lemma_count_change(s, r, d, f, page, span * 1024);
        assert(maps_at(r, d, f, pd, pt));
        assert(!maps_at(s, d, f, pd, pt));
    }
}

/// Writing a valid entry that names `f` into a second-level table, with the
/// free list as it was, keeps the tree and its single target.
proof fn lemma_shape_after(
    s: FrameState,
    r: FrameState,
    d: PhysPageNum,
    f: PhysPageNum,
    span: int,
    t: int,
    pt: int,
    pte: Pte,
)
    requires
        single_target(s, d, f, span),
        0 <= t < s.nframes(),
        t != d.0,
        0 <= pt < 1024,
        pte.spec_valid() ==> pte.spec_ppn() == f.0,
        r.mem == s.mem.update(t, s.mem[t].update(pt, pte)),
        r.refs.len() == s.refs.len(),
        r.free == s.free,
        r.wf(),
    ensures
        single_target(r, d, f, span),
{
    assert forall|x: int, k: int| 0 <= x < s.nframes() && 0 <= k < 1024 implies r.entry(x, k) == (if x == t
        && k == pt {
        pte
    } else {
        s.entry(x, k)
    }) by {}
    assert forall|p: int| 0 <= p < 1024 implies has_table(r, d, p) == has_table(s, d, p) && table_of(
        r,
        d,
        p,
    ) == table_of(s, d, p) by {}
    assert forall|q: int| r.is_free(q) == s.is_free(q) by {}
    assert forall|p: int| 0 <= p < span && #[trigger] has_table(r, d, p) implies {
        &&& 0 <= table_of(r, d, p) < r.nframes()
        &&& !r.is_free(table_of(r, d, p))
        &&& table_of(r, d, p) != d.0
        &&& table_of(r, d, p) != f.0
    } by {
        assert(has_table(s, d, p));
    }
    assert forall|p: int, q: int|
        0 <= p < span && 0 <= q < span && p != q && #[trigger] has_table(r, d, p)
            && #[trigger] has_table(r, d, q) implies table_of(r, d, p) != table_of(r, d, q) by {
        assert(has_table(s, d, p));
        assert(has_table(s, d, q));
    }
    assert forall|p: int, i: int|
        0 <= p < span && 0 <= i < 1024 && has_table(r, d, p) && (#[trigger] r.entry(
            table_of(r, d, p),
            i,
        )).spec_valid() implies r.entry(table_of(r, d, p), i).spec_ppn() == f.0 by {
        assert(has_table(s, d, p));
        if !(table_of(s, d, p) == t && i == pt) {
            assert(s.entry(table_of(s, d, p), i).spec_valid());
        }
    }
}

/// A `remove`, at an address under one of the first `span` directory entries,
/// keeps the tree and its single target. The reference count of the target
/// and the number of pages mapped to it both fall by one where the address
/// was mapped, no other count changes, and the frame joins the tail of the
/// free list when its last reference goes.
pub proof fn lemma_remove_keeps_target(
    s: FrameState,
    d: PhysPageNum,
    f: PhysPageNum,
    span: int,
    va: VirtAddr,
)
    requires
        single_target(s, d, f, span),
        remove_pre(s, d, va),
        va.spec_pdx() < span,
    ensures
        single_target(after_remove(s, d, va), d, f, span),
        spec_lookup(s, d, va).is_some() == maps_same(s, d, f, va),
        spec_lookup(after_remove(s, d, va), d, va).is_none(),
        after_remove(s, d, va).refs[f.0 as int] == s.refs[f.0 as int] - (if maps_same(s, d, f, va) {
            1int
        } else {
            0int
        }),
        mapping_count(after_remove(s, d, va), d, f, span * 1024) == mapping_count(s, d, f, span * 1024) - (
        if maps_same(s, d, f, va) {
            1int
        } else {
            0int
        }),
        forall|x: int| 0 <= x < s.nframes() && x != f.0 ==> after_remove(s, d, va).refs[x] == s.refs[x],
        maps_same(s, d, f, va) && s.refs[f.0 as int] == 1 ==> after_remove(s, d, va).free == s.free.push(f.0),
        !(maps_same(s, d, f, va) && s.refs[f.0 as int] == 1) ==> after_remove(s, d, va).free == s.free,
{
    let r = after_remove(s, d, va);
    lemma_va_indices(va);
    let page = page_of(va);
    let pd = va.spec_pdx() as int;
    let pt = va.spec_ptx() as int;
    lemma_maps_frame_at(s, d, f, page);
    lemma_maps_frame_at(r, d, f, page);
    assert(Pte(0).0 & PTE_V == 0) by {
        lemma_installed_perm(0);
    }
    if spec_lookup(s, d, va).is_some() {
        assert(has_table(s, d, pd));
        let t = table_of(s, d, pd);
        assert(s.entry(t, pt).spec_valid());
        assert(s.entry(t, pt).spec_ppn() == f.0);
        let s1 = s.after_decref(f.0 as int);
        lemma_decref_wf(s, f.0 as int);
        lemma_remove_wf(s, d, va);
        assert(r == s1.after_write(t, pt, Pte(0)));
        let mid = FrameState { mem: r.mem, ..s };
        assert(mid.wf()) by {
            assert forall|x: int| 0 <= x < mid.mem.len() implies (#[trigger] mid.mem[x]).len() == 1024 by {}
        }
        lemma_shape_after(s, mid, d, f, span, t, pt, Pte(0));
        assert forall|p: int| 0 <= p < 1024 implies has_table(r, d, p) == has_table(mid, d, p)
            && table_of(r, d, p) == table_of(mid, d, p) by {}
        assert(single_target(r, d, f, span)) by {
            assert forall|p: int| 0 <= p < span && #[trigger] has_table(r, d, p) implies {
                &&& 0 <= table_of(r, d, p) < r.nframes()
                &&& !r.is_free(table_of(r, d, p))
                &&& table_of(r, d, p) != d.0
                &&& table_of(r, d, p) != f.0
            } by {
                assert(has_table(mid, d, p));
            }
            assert forall|p: int, q: int|
                0 <= p < span && 0 <= q < span && p != q && #[trigger] has_table(r, d, p)
                    && #[trigger] has_table(r, d, q) implies table_of(r, d, p) != table_of(r, d, q) by {
                assert(has_table(mid, d, p));
                assert(has_table(mid, d, q));
            }
            assert forall|p: int, i: int|
                0 <= p < span && 0 <= i < 1024 && has_table(r, d, p) && (#[trigger] r.entry(
                    table_of(r, d, p),
                    i,
                )).spec_valid() implies r.entry(table_of(r, d, p), i).spec_ppn() == f.0 by {
                assert(has_table(mid, d, p));
                assert(mid.entry(table_of(mid, d, p), i).spec_valid());
            }
        }
        assert forall|x: int, k: int| 0 <= x < s.nframes() && 0 <= k < 1024 implies r.entry(x, k) == (if x
            == t && k == pt {
            Pte(0)
        } else {
            s.entry(x, k)
        }) by {}
        assert forall|j: int| 0 <= j < span * 1024 && j != page implies maps_frame(r, d, f, j) == maps_frame(
            s,
            d,
            f,
            j,
        ) by {
            lemma_maps_frame_at(s, d, f, j);
            lemma_maps_frame_at(r, d, f, j);
            let p = j / 1024;
            assert(p < span);
            if has_table(s, d, p) {
                if p != pd {
                    assert(table_of(s, d, p) != t);
                }
            }
        }
        lemma_count_change(s, r, d, f, page, span * 1024);
        assert(!maps_at(r, d, f, pd, pt));
        assert(maps_at(s, d, f, pd, pt));
    } else {
        assert(r == s);
    }
}

/// A `remove`, at an address under one of the first `span` directory entries,
/// keeps the reference count of the single target equal to the number of
/// pages mapped to it: both fall by one where the address was mapped, and
/// the frame joins the tail of the free list when its last mapping goes.
pub proof fn lemma_remove_keeps_refcount(
    s: FrameState,
    d: PhysPageNum,
    f: PhysPageNum,
    span: int,
    va: VirtAddr,
)
    requires
        refcount_matches(s, d, f, span),
        remove_pre(s, d, va),
        va.spec_pdx() < span,
    ensures
        refcount_matches(after_remove(s, d, va), d, f, span),
        spec_lookup(after_remove(s, d, va), d, va).is_none(),
        after_remove(s, d, va).refs[f.0 as int] == s.refs[f.0 as int] - (if maps_same(s, d, f, va) {
            1int
        } else {
            0int
        }),
        maps_same(s, d, f, va) && s.refs[f.0 as int] == 1 ==> after_remove(s, d, va).free == s.free.push(f.0),
        !(maps_same(s, d, f, va) && s.refs[f.0 as int] == 1) ==> after_remove(s, d, va).free == s.free,
{
    lemma_remove_keeps_target(s, d, f, span, va);
}

/// The pages mapped to `f` below `upto` are at least the one at `j`, if
/// that is mapped to `f`, and never fewer than none.
pub proof fn lemma_count_at_least(s: FrameState, d: PhysPageNum, f: PhysPageNum, upto: int, j: int)
    requires
        0 <= j < upto,
    ensures
        mapping_count(s, d, f, upto) >= (if maps_frame(s, d, f, j) {
            1int
        } else {
            0int
        }),
        mapping_count(s, d, f, upto) >= 0,
    decreases upto,
{
    lemma_count_not_negative(s, d, f, upto);
    if j < upto - 1 {
        lemma_count_at_least(s, d, f, upto - 1, j);
    } else {
        lemma_count_not_negative(s, d, f, upto - 1);
    }
}

/// A number of pages is not negative.
pub proof fn lemma_count_not_negative(s: FrameState, d: PhysPageNum, f: PhysPageNum, upto: int)
    ensures
        mapping_count(s, d, f, upto) >= 0,
    decreases upto,
{
    if upto > 0 {
        lemma_count_not_negative(s, d, f, upto - 1);
    }
}

/// An `insert` of the single target, at an address under one of the first
/// `span` directory entries, keeps its reference count equal to the number of
/// pages mapped to it: both grow by one, unless the address mapped the frame
/// already.
pub proof fn lemma_insert_keeps_refcount(
    s: FrameState,
    d: PhysPageNum,
    f: PhysPageNum,
    span: int,
    va: VirtAddr,
    perm: usize,
)
    requires
        refcount_matches(s, d, f, span),
        insert_ok(s, d, f, va),
        va.spec_pdx() < span,
        perm < 4096,
    ensures
        refcount_matches(after_insert(s, d, f, va, perm), d, f, span),
        maps_same(after_insert(s, d, f, va, perm), d, f, va),
        after_insert(s, d, f, va, perm).refs[f.0 as int] == s.refs[f.0 as int] + (if maps_same(s, d, f, va) {
            0int
        } else {
            1int
        }),
{
    lemma_insert_keeps_target(s, d, f, span, va, perm);
}

} // verus!
