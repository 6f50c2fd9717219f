//! What an `insert` or a `remove` in one address space leaves alone: the
//! other pages of that space, and every page of a space that shares no table
//! with it.

use vstd::prelude::*;
use crate::env::{after_setup, lemma_setup_directory, UTOP_PDX};
use crate::frame::FrameState;
use crate::mapping::{has_table, lemma_va_indices, page_of, table_of};
use crate::mmu::{PhysAddr, PhysPageNum, PTE_C_CACHEABLE, PTE_V, VirtAddr};
use crate::page_table::{
    after_insert, after_remove, after_walk_create, insert_ok, insert_overwrites_pde, insert_pre,
    installed_perm, lemma_alloc_not_free, lemma_decref_wf, lemma_insert_then_translate, lemma_installed_perm,
    lemma_pte_fields, lemma_remove_wf, lemma_walk_create_wf, maps_same, Pte, remove_pre, slot_entry,
    spec_lookup, spec_pde, spec_translate, walk_create_slot, zero_table,
};

verus! {

/// The first `span` entries of directory `d` are a tree: the directory and
/// the second-level tables that they name are distinct frames in use.
pub open spec fn tree_shaped(s: FrameState, d: PhysPageNum, span: int) -> bool {
    &&& s.wf()
    &&& 0 <= span <= 1024
    &&& d.0 < s.nframes()
    &&& !s.is_free(d.0 as int)
    &&& forall|p: int|
        0 <= p < span && #[trigger] has_table(s, d, p) ==> {
            &&& 0 <= table_of(s, d, p) < s.nframes()
            &&& !s.is_free(table_of(s, d, p))
            &&& table_of(s, d, p) != d.0
        }
    &&& forall|p: int, q: int|
        0 <= p < span && 0 <= q < span && p != q && #[trigger] has_table(s, d, p) && #[trigger] has_table(
            s,
            d,
            q,
        ) ==> table_of(s, d, p) != table_of(s, d, q)
}

/// Frame `x` is neither directory `d` nor a table under its first `span` entries.
pub open spec fn no_node(s: FrameState, d: PhysPageNum, span: int, x: int) -> bool {
    &&& x != d.0
    &&& forall|p: int| 0 <= p < span && #[trigger] has_table(s, d, p) ==> table_of(s, d, p) != x
}

/// Directories `a` and `b` share no frame under their first `span` entries:
/// they are two frames, and no table of one is the other or a table of the other.
pub open spec fn apart(s: FrameState, a: PhysPageNum, b: PhysPageNum, span: int) -> bool {
    &&& no_node(s, a, span, b.0 as int)
    &&& no_node(s, b, span, a.0 as int)
    &&& forall|p: int, q: int|
        0 <= p < span && 0 <= q < span && #[trigger] has_table(s, a, p) && #[trigger] has_table(s, b, q)
            ==> table_of(s, a, p) != table_of(s, b, q)
}

/// The entry for `va` is the directory entry that covers `va`: the directory
/// names itself as the table, and the two indices of `va` are equal.
pub open spec fn entry_is_pde(s: FrameState, d: PhysPageNum, va: VirtAddr) -> bool {
    &&& spec_pde(s, d, va).spec_valid()
    &&& spec_pde(s, d, va).spec_ppn() == d.0
    &&& va.spec_ptx() == va.spec_pdx()
}

/// The frame that `va` is mapped to is no directory or table of `d`.
pub open spec fn maps_no_node(s: FrameState, d: PhysPageNum, span: int, owner: PhysPageNum, va: VirtAddr) -> bool {
    match spec_lookup(s, owner, va) {
        Some(slot) => no_node(s, d, span, slot_entry(s, slot).spec_ppn() as int),
        None => true,
    }
}

/// Word `i` of frame `x` after an `insert` of `ppn` at `va`. Where the table
/// exists, the entry for `va` is the one word that changes. Where it is made,
/// the frame at the head of the free list becomes zero but for that entry,
/// and the directory entry names it. Where no frame is left for it, nothing
/// changes.
pub open spec fn word_after_insert(
    s: FrameState,
    d: PhysPageNum,
    ppn: PhysPageNum,
    va: VirtAddr,
    perm: usize,
    x: int,
    i: int,
) -> Pte {
    let pte = Pte::spec_from_ppn(ppn, installed_perm(perm));
    if spec_pde(s, d, va).spec_valid() {
        if x == spec_pde(s, d, va).spec_ppn() && i == va.spec_ptx() {
            pte
        } else {
            s.entry(x, i)
        }
    } else if s.free.len() == 0 {
        s.entry(x, i)
    } else if x == s.free[0] && i == va.spec_ptx() {
        pte
    } else if x == d.0 && i == va.spec_pdx() {
        Pte::spec_from_ppn(PhysPageNum(s.free[0]), PTE_C_CACHEABLE | PTE_V)
    } else if x == s.free[0] {
        Pte(0)
    } else {
        s.entry(x, i)
    }
}

/// Word `i` of frame `x` after a `remove` at `va`: the entry for `va`
/// becomes zero where `va` is mapped, and no other word changes.
pub open spec fn word_after_remove(s: FrameState, d: PhysPageNum, va: VirtAddr, x: int, i: int) -> Pte {
    if spec_lookup(s, d, va).is_some() && x == spec_pde(s, d, va).spec_ppn() && i == va.spec_ptx() {
        Pte(0)
    } else {
        s.entry(x, i)
    }
}

/// A `remove` changes the entry for `va` and no other word of memory.
pub proof fn lemma_remove_words(s: FrameState, d: PhysPageNum, va: VirtAddr)
    requires
        s.wf(),
        remove_pre(s, d, va),
    ensures
        after_remove(s, d, va).nframes() == s.nframes(),
        forall|x: int, i: int|
            0 <= x < s.nframes() && 0 <= i < 1024 ==> #[trigger] after_remove(s, d, va).entry(x, i)
                == word_after_remove(s, d, va, x, i),
{
    let r = after_remove(s, d, va);
    assert forall|x: int, i: int| 0 <= x < s.nframes() && 0 <= i < 1024 implies #[trigger] r.entry(x, i)
        == word_after_remove(s, d, va, x, i) by {}
}

/// An `insert` changes the words that `word_after_insert` names and no
/// others, unless the entry for `va` is the directory entry itself.
pub proof fn lemma_insert_words(s: FrameState, d: PhysPageNum, ppn: PhysPageNum, va: VirtAddr, perm: usize)
    requires
        s.wf(),
        insert_pre(s, d, ppn, va),
        !entry_is_pde(s, d, va),
    ensures
        after_insert(s, d, ppn, va, perm).nframes() == s.nframes(),
        forall|x: int, i: int|
            0 <= x < s.nframes() && 0 <= i < 1024 ==> #[trigger] after_insert(s, d, ppn, va, perm).entry(x, i)
                == word_after_insert(s, d, ppn, va, perm, x, i),
{
    let r = after_insert(s, d, ppn, va, perm);
    let pte = Pte::spec_from_ppn(ppn, installed_perm(perm));
    let pd = va.spec_pdx() as int;
    let pt = va.spec_ptx() as int;
    lemma_va_indices(va);
    assert(zero_table().len() == 1024);
    if spec_pde(s, d, va).spec_valid() {
        let t = spec_pde(s, d, va).spec_ppn() as int;
        if maps_same(s, d, ppn, va) {
            assert(r == s.after_write(t, pt, pte));
        } else {
            let s1 = after_remove(s, d, va);
            lemma_remove_words(s, d, va);
            assert(s1.entry(d.0 as int, pd) == s.entry(d.0 as int, pd));
            assert(spec_pde(s1, d, va) == spec_pde(s, d, va));
            assert(after_walk_create(s1, d, va) == s1);
            assert(walk_create_slot(s1, d, va).table.0 == t);
            assert(r == s1.after_incref(ppn.0 as int).after_write(t, pt, pte));
        }
        assert forall|x: int, i: int| 0 <= x < s.nframes() && 0 <= i < 1024 implies #[trigger] r.entry(x, i)
            == word_after_insert(s, d, ppn, va, perm, x, i) by {}
    } else {
        assert(spec_lookup(s, d, va).is_none());
        assert(after_remove(s, d, va) == s);
        if s.free.len() > 0 {
            let t = s.free[0] as int;
            let pde = Pte::spec_from_ppn(PhysPageNum(s.free[0]), PTE_C_CACHEABLE | PTE_V);
            assert(0 <= t < s.nframes());
            assert(r == s.after_alloc().after_incref(t).after_write(d.0 as int, pd, pde).after_incref(
                ppn.0 as int,
            ).after_write(t, pt, pte));
            assert forall|x: int, i: int| 0 <= x < s.nframes() && 0 <= i < 1024 implies #[trigger] r.entry(
                x,
                i,
            ) == word_after_insert(s, d, ppn, va, perm, x, i) by {}
        } else {
            assert(r == s);
        }
    }
}

/// In a tree-shaped directory, an `insert` at one page leaves the
/// translation of every other page as it was.
pub proof fn lemma_insert_keeps_other_page(
    s: FrameState,
    d: PhysPageNum,
    ppn: PhysPageNum,
    span: int,
    va: VirtAddr,
    perm: usize,
    other: VirtAddr,
)
    requires
        tree_shaped(s, d, span),
        insert_pre(s, d, ppn, va),
        perm < 4096,
        va.spec_pdx() < span,
        other.spec_pdx() < span,
        page_of(other) != page_of(va),
    ensures
        spec_translate(after_insert(s, d, ppn, va, perm), d, other) == spec_translate(s, d, other),
{
    let r = after_insert(s, d, ppn, va, perm);
    lemma_va_indices(va);
    lemma_va_indices(other);
    if spec_pde(s, d, va).spec_valid() {
        assert(has_table(s, d, va.spec_pdx() as int));
    }
    lemma_insert_words(s, d, ppn, va, perm);
    lemma_installed_perm(0);
    let pd = va.spec_pdx() as int;
    let qd = other.spec_pdx() as int;
    let qt = other.spec_ptx() as int;
    assert(r.entry(d.0 as int, qd) == word_after_insert(s, d, ppn, va, perm, d.0 as int, qd));
    if has_table(s, d, pd) {
        assert(r.entry(d.0 as int, qd) == s.entry(d.0 as int, qd));
        if has_table(s, d, qd) {
            let u = table_of(s, d, qd);
            assert(r.entry(u, qt) == word_after_insert(s, d, ppn, va, perm, u, qt));
            assert(r.entry(u, qt) == s.entry(u, qt));
        }
    } else if s.free.len() > 0 {
        let t = s.free[0] as int;
        lemma_alloc_not_free(s);
        assert(s.is_free(t));
        lemma_pte_fields(PhysPageNum(s.free[0]), PTE_C_CACHEABLE | PTE_V);
        if qd == pd {
            assert(spec_translate(s, d, other).is_none());
            assert(has_table(r, d, qd) && table_of(r, d, qd) == t);
            assert(r.entry(t, qt) == word_after_insert(s, d, ppn, va, perm, t, qt));
            assert(r.entry(t, qt) == Pte(0));
        } else {
            assert(r.entry(d.0 as int, qd) == s.entry(d.0 as int, qd));
            if has_table(s, d, qd) {
                let u = table_of(s, d, qd);
                assert(r.entry(u, qt) == word_after_insert(s, d, ppn, va, perm, u, qt));
                assert(r.entry(u, qt) == s.entry(u, qt));
            }
        }
    } else {
        assert(r == s);
    }
}

/// An `insert` in one address space leaves the translation of every page of
/// an address space that shares no table with it as it was.
pub proof fn lemma_insert_keeps_other_space(
    s: FrameState,
    d: PhysPageNum,
    ppn: PhysPageNum,
    span: int,
    va: VirtAddr,
    perm: usize,
    d2: PhysPageNum,
    other: VirtAddr,
)
    requires
        tree_shaped(s, d, span),
        tree_shaped(s, d2, span),
        apart(s, d, d2, span),
        insert_pre(s, d, ppn, va),
        perm < 4096,
        va.spec_pdx() < span,
        other.spec_pdx() < span,
    ensures
        spec_translate(after_insert(s, d, ppn, va, perm), d2, other) == spec_translate(s, d2, other),
{
    let r = after_insert(s, d, ppn, va, perm);
    lemma_va_indices(va);
    lemma_va_indices(other);
    if spec_pde(s, d, va).spec_valid() {
        assert(has_table(s, d, va.spec_pdx() as int));
    }
    lemma_insert_words(s, d, ppn, va, perm);
    let pd = va.spec_pdx() as int;
    let qd = other.spec_pdx() as int;
    let qt = other.spec_ptx() as int;
    if s.free.len() > 0 {
        lemma_alloc_not_free(s);
        assert(s.is_free(s.free[0] as int));
    }
    if has_table(s, d, pd) {
        assert(table_of(s, d, pd) != d2.0);
    }
    assert(r.entry(d2.0 as int, qd) == word_after_insert(s, d, ppn, va, perm, d2.0 as int, qd));
    assert(r.entry(d2.0 as int, qd) == s.entry(d2.0 as int, qd));
    if has_table(s, d2, qd) {
        let u = table_of(s, d2, qd);
        assert(u != d.0);
        assert(r.entry(u, qt) == word_after_insert(s, d, ppn, va, perm, u, qt));
        assert(r.entry(u, qt) == s.entry(u, qt));
    }
}

/// In a tree-shaped directory, a `remove` at one page leaves the translation
/// of every other page as it was.
pub proof fn lemma_remove_keeps_other_page(
    s: FrameState,
    d: PhysPageNum,
    span: int,
    va: VirtAddr,
    other: VirtAddr,
)
    requires
        tree_shaped(s, d, span),
        remove_pre(s, d, va),
        va.spec_pdx() < span,
        other.spec_pdx() < span,
        page_of(other) != page_of(va),
    ensures
        spec_translate(after_remove(s, d, va), d, other) == spec_translate(s, d, other),
{
    let r = after_remove(s, d, va);
    lemma_va_indices(va);
    lemma_va_indices(other);
    lemma_remove_words(s, d, va);
    let pd = va.spec_pdx() as int;
    let qd = other.spec_pdx() as int;
    let qt = other.spec_ptx() as int;
    if spec_lookup(s, d, va).is_some() {
        assert(has_table(s, d, pd));
    }
    assert(r.entry(d.0 as int, qd) == word_after_remove(s, d, va, d.0 as int, qd));
    assert(r.entry(d.0 as int, qd) == s.entry(d.0 as int, qd));
    if has_table(s, d, qd) {
        let u = table_of(s, d, qd);
        assert(r.entry(u, qt) == word_after_remove(s, d, va, u, qt));
        assert(r.entry(u, qt) == s.entry(u, qt));
    }
}

/// A `remove` in one address space leaves the translation of every page of
/// an address space that shares no table with it as it was.
pub proof fn lemma_remove_keeps_other_space(
    s: FrameState,
    d: PhysPageNum,
    span: int,
    va: VirtAddr,
    d2: PhysPageNum,
    other: VirtAddr,
)
    requires
        tree_shaped(s, d, span),
        tree_shaped(s, d2, span),
        apart(s, d, d2, span),
        remove_pre(s, d, va),
        va.spec_pdx() < span,
        other.spec_pdx() < span,
    ensures
        spec_translate(after_remove(s, d, va), d2, other) == spec_translate(s, d2, other),
{
    let r = after_remove(s, d, va);
    lemma_va_indices(va);
    lemma_va_indices(other);
    lemma_remove_words(s, d, va);
    let pd = va.spec_pdx() as int;
    let qd = other.spec_pdx() as int;
    let qt = other.spec_ptx() as int;
    if spec_lookup(s, d, va).is_some() {
        assert(has_table(s, d, pd));
        assert(table_of(s, d, pd) != d2.0);
    }
    assert(r.entry(d2.0 as int, qd) == word_after_remove(s, d, va, d2.0 as int, qd));
    assert(r.entry(d2.0 as int, qd) == s.entry(d2.0 as int, qd));
    if has_table(s, d2, qd) {
        let u = table_of(s, d2, qd);
        assert(r.entry(u, qt) == word_after_remove(s, d, va, u, qt));
        assert(r.entry(u, qt) == s.entry(u, qt));
    }
}

/// The directory entries of a space that an `insert` elsewhere does not
/// reach stay as they were; in the space of the `insert` itself, the entry
/// that covers `va` names the new table where one is made.
pub proof fn lemma_insert_directory(
    s: FrameState,
    d: PhysPageNum,
    ppn: PhysPageNum,
    span: int,
    va: VirtAddr,
    perm: usize,
    d2: PhysPageNum,
)
    requires
        tree_shaped(s, d, span),
        tree_shaped(s, d2, span),
        d2 == d || apart(s, d, d2, span),
        insert_pre(s, d, ppn, va),
        va.spec_pdx() < span,
    ensures
        forall|q: int|
            0 <= q < span && !(d2 == d && q == va.spec_pdx() && !has_table(s, d, q) && s.free.len() > 0)
                ==> has_table(after_insert(s, d, ppn, va, perm), d2, q) == has_table(s, d2, q) && table_of(
                after_insert(s, d, ppn, va, perm),
                d2,
                q,
            ) == table_of(s, d2, q),
        !has_table(s, d, va.spec_pdx() as int) && s.free.len() > 0 ==> has_table(
            after_insert(s, d, ppn, va, perm),
            d,
            va.spec_pdx() as int,
        ) && table_of(after_insert(s, d, ppn, va, perm), d, va.spec_pdx() as int) == s.free[0],
{
    let r = after_insert(s, d, ppn, va, perm);
    let pd = va.spec_pdx() as int;
    lemma_va_indices(va);
    if has_table(s, d, pd) {
        assert(table_of(s, d, pd) != d.0);
        assert(table_of(s, d, pd) != d2.0);
    }
    lemma_insert_words(s, d, ppn, va, perm);
    if s.free.len() > 0 {
        lemma_alloc_not_free(s);
        assert(s.is_free(s.free[0] as int));
        lemma_installed_perm(0);
        lemma_pte_fields(PhysPageNum(s.free[0]), PTE_C_CACHEABLE | PTE_V);
    }
    assert forall|q: int|
        0 <= q < span && !(d2 == d && q == pd && !has_table(s, d, q) && s.free.len() > 0) implies has_table(
        r,
        d2,
        q,
    ) == has_table(s, d2, q) && table_of(r, d2, q) == table_of(s, d2, q) by {
        assert(r.entry(d2.0 as int, q) == word_after_insert(s, d, ppn, va, perm, d2.0 as int, q));
        assert(r.entry(d2.0 as int, q) == s.entry(d2.0 as int, q));
    }
    if !has_table(s, d, pd) && s.free.len() > 0 {
        assert(r.entry(d.0 as int, pd) == word_after_insert(s, d, ppn, va, perm, d.0 as int, pd));
    }
}

/// The state after an `insert` is well formed. Every frame that was in use
/// still is, but for the frame whose mapping at `va` was replaced, and so is
/// the frame taken for a new table.
proof fn lemma_insert_free(s: FrameState, d: PhysPageNum, ppn: PhysPageNum, span: int, va: VirtAddr, perm: usize)
    requires
        tree_shaped(s, d, span),
        insert_pre(s, d, ppn, va),
        perm < 4096,
        va.spec_pdx() < span,
    ensures
        after_insert(s, d, ppn, va, perm).wf(),
        forall|x: int|
            !s.is_free(x) && !(spec_lookup(s, d, va).is_some() && x == slot_entry(
                s,
                spec_lookup(s, d, va).unwrap(),
            ).spec_ppn()) ==> !after_insert(s, d, ppn, va, perm).is_free(x),
        !has_table(s, d, va.spec_pdx() as int) && s.free.len() > 0 ==> !after_insert(
            s,
            d,
            ppn,
            va,
            perm,
        ).is_free(s.free[0] as int),
{
    let r = after_insert(s, d, ppn, va, perm);
    let pte = Pte::spec_from_ppn(ppn, installed_perm(perm));
    let pd = va.spec_pdx() as int;
    let pt = va.spec_ptx() as int;
    lemma_va_indices(va);
    assert(zero_table().len() == 1024);
    if has_table(s, d, pd) {
        let t = table_of(s, d, pd);
        assert(t != d.0);
        if maps_same(s, d, ppn, va) {
            assert(r == s.after_write(t, pt, pte));
            assert(r.free == s.free);
            assert(r.wf()) by {
                assert forall|x: int| 0 <= x < r.mem.len() implies (#[trigger] r.mem[x]).len() == 1024 by {}
            }
            assert forall|x: int| !s.is_free(x) implies !r.is_free(x) by {}
        } else {
            let s1 = after_remove(s, d, va);
            lemma_remove_words(s, d, va);
            lemma_remove_wf(s, d, va);
            assert(s1.entry(d.0 as int, pd) == s.entry(d.0 as int, pd));
            assert(spec_pde(s1, d, va) == spec_pde(s, d, va));
            assert(after_walk_create(s1, d, va) == s1);
            assert(walk_create_slot(s1, d, va).table.0 == t);
            assert(r == s1.after_incref(ppn.0 as int).after_write(t, pt, pte));
            assert(r.free == s1.free);
            if spec_lookup(s, d, va).is_some() {
                let p = slot_entry(s, spec_lookup(s, d, va).unwrap()).spec_ppn() as int;
                lemma_decref_wf(s, p);
                assert(s1.free == s.after_decref(p).free);
                assert forall|x: int| !s.is_free(x) && x != p implies !r.is_free(x) by {
                    assert(!s.after_decref(p).is_free(x));
                }
                if p == ppn.0 as int {
                    assert(maps_same(s, d, ppn, va));
                }
                if s1.is_free(ppn.0 as int) {
                    assert(!s.is_free(ppn.0 as int));
                    assert(!s.after_decref(p).is_free(ppn.0 as int));
                }
            } else {
                assert(s1 == s);
                assert forall|x: int| !s.is_free(x) implies !r.is_free(x) by {}
            }
            assert(r.wf()) by {
                assert forall|x: int| 0 <= x < r.mem.len() implies (#[trigger] r.mem[x]).len() == 1024 by {}
                assert forall|k: int| 0 <= k < r.free.len() implies r.refs[#[trigger] r.free[k] as int]
                    == 0 by {
                    assert(s1.is_free(r.free[k] as int));
                }
            }
        }
    } else {
        assert(spec_lookup(s, d, va).is_none());
        assert(after_remove(s, d, va) == s);
        if s.free.len() > 0 {
            let t = s.free[0] as int;
            lemma_alloc_not_free(s);
            lemma_walk_create_wf(s, d, va);
            assert(s.is_free(t));
            let s2 = after_walk_create(s, d, va);
            assert(walk_create_slot(s, d, va).table.0 == t);
            assert(r == s2.after_incref(ppn.0 as int).after_write(t, pt, pte));
            assert(r.free == s.after_alloc().free);
            assert forall|x: int| !s.is_free(x) implies !r.is_free(x) by {
                if r.is_free(x) {
                    let k = choose|k: int| 0 <= k < r.free.len() && r.free[k] == x;
                    assert(s.free[k + 1] == x);
                }
            }
            assert(!r.is_free(t)) by {
                if r.is_free(t) {
                    let k = choose|k: int| 0 <= k < r.free.len() && r.free[k] == t;
                    assert(s.free[k + 1] == t);
                }
            }
            assert(r.wf()) by {
                assert(r.refs.len() == s.refs.len());
                assert(r.mem.len() == s.mem.len());
                assert forall|x: int| 0 <= x < r.mem.len() implies (#[trigger] r.mem[x]).len() == 1024 by {}
                assert forall|k: int| 0 <= k < r.free.len() implies r.refs[#[trigger] r.free[k] as int]
                    == 0 by {
                    assert(r.free[k] == s.free[k + 1]);
                    assert(s2.is_free(r.free[k] as int));
                }
            }
        } else {
            assert(r == s);
        }
    }
}

/// An `insert` in a tree-shaped directory keeps it tree-shaped, and keeps
/// every directory apart from it tree-shaped, where the frame that it
/// replaces at `va` is no directory or table of that directory.
pub proof fn lemma_insert_keeps_tree(
    s: FrameState,
    d: PhysPageNum,
    ppn: PhysPageNum,
    span: int,
    va: VirtAddr,
    perm: usize,
    d2: PhysPageNum,
)
    requires
        tree_shaped(s, d, span),
        tree_shaped(s, d2, span),
        d2 == d || apart(s, d, d2, span),
        insert_pre(s, d, ppn, va),
        perm < 4096,
        va.spec_pdx() < span,
        maps_no_node(s, d2, span, d, va),
    ensures
        tree_shaped(after_insert(s, d, ppn, va, perm), d2, span),
{
    let r = after_insert(s, d, ppn, va, perm);
    let pd = va.spec_pdx() as int;
    if spec_pde(s, d, va).spec_valid() {
        assert(has_table(s, d, pd));
    }
    lemma_insert_words(s, d, ppn, va, perm);
    lemma_insert_directory(s, d, ppn, span, va, perm, d2);
    lemma_insert_free(s, d, ppn, span, va, perm);
    if s.free.len() > 0 {
        lemma_alloc_not_free(s);
        assert(s.is_free(s.free[0] as int));
    }
    let made = d2 == d && !has_table(s, d, pd) && s.free.len() > 0;
    assert forall|p: int| 0 <= p < span && #[trigger] has_table(r, d2, p) implies {
        &&& 0 <= table_of(r, d2, p) < r.nframes()
        &&& !r.is_free(table_of(r, d2, p))
        &&& table_of(r, d2, p) != d2.0
    } by {
        if !(made && p == pd) {
            assert(has_table(s, d2, p));
        }
    }
    assert forall|p: int, q: int|
        0 <= p < span && 0 <= q < span && p != q && #[trigger] has_table(r, d2, p) && #[trigger] has_table(
            r,
            d2,
            q,
        ) implies table_of(r, d2, p) != table_of(r, d2, q) by {
        if !(made && p == pd) {
            assert(has_table(s, d2, p));
        }
        if !(made && q == pd) {
            assert(has_table(s, d2, q));
        }
    }
}

/// An `insert` in one of two tree-shaped directories that share no frame
/// leaves them sharing none.
pub proof fn lemma_insert_keeps_apart(
    s: FrameState,
    d: PhysPageNum,
    ppn: PhysPageNum,
    span: int,
    va: VirtAddr,
    perm: usize,
    d2: PhysPageNum,
)
    requires
        tree_shaped(s, d, span),
        tree_shaped(s, d2, span),
        apart(s, d, d2, span),
        insert_pre(s, d, ppn, va),
        va.spec_pdx() < span,
    ensures
        apart(after_insert(s, d, ppn, va, perm), d, d2, span),
{
    let r = after_insert(s, d, ppn, va, perm);
    let pd = va.spec_pdx() as int;
    lemma_insert_directory(s, d, ppn, span, va, perm, d2);
    lemma_insert_directory(s, d, ppn, span, va, perm, d);
    if s.free.len() > 0 {
        lemma_alloc_not_free(s);
        assert(s.is_free(s.free[0] as int));
    }
    let made = !has_table(s, d, pd) && s.free.len() > 0;
    assert forall|p: int| 0 <= p < span && #[trigger] has_table(r, d, p) implies table_of(r, d, p)
        != d2.0 by {
        if !(made && p == pd) {
            assert(has_table(s, d, p));
        }
    }
    assert forall|q: int| 0 <= q < span && #[trigger] has_table(r, d2, q) implies table_of(r, d2, q)
        != d.0 by {
        assert(has_table(s, d2, q));
    }
    assert forall|p: int, q: int|
        0 <= p < span && 0 <= q < span && #[trigger] has_table(r, d, p) && #[trigger] has_table(
            r,
            d2,
            q,
        ) implies table_of(r, d, p) != table_of(r, d2, q) by {
        assert(has_table(s, d2, q));
        if !(made && p == pd) {
            assert(has_table(s, d, p));
        }
    }
}

/// A `remove` in a tree-shaped directory keeps it tree-shaped, and keeps
/// every directory apart from it tree-shaped, where the frame that it
/// unmaps is no directory or table of that directory. Two directories that
/// share no frame then still share none.
pub proof fn lemma_remove_keeps_tree(s: FrameState, d: PhysPageNum, span: int, va: VirtAddr, d2: PhysPageNum)
    requires
        tree_shaped(s, d, span),
        tree_shaped(s, d2, span),
        d2 == d || apart(s, d, d2, span),
        remove_pre(s, d, va),
        va.spec_pdx() < span,
        maps_no_node(s, d2, span, d, va),
    ensures
        tree_shaped(after_remove(s, d, va), d2, span),
        d2 != d ==> apart(after_remove(s, d, va), d, d2, span),
{
    let r = after_remove(s, d, va);
    let pd = va.spec_pdx() as int;
    lemma_va_indices(va);
    lemma_remove_words(s, d, va);
    lemma_remove_wf(s, d, va);
    if spec_lookup(s, d, va).is_some() {
        let p = slot_entry(s, spec_lookup(s, d, va).unwrap()).spec_ppn() as int;
        assert(has_table(s, d, pd));
        assert(table_of(s, d, pd) != d.0);
        assert(table_of(s, d, pd) != d2.0);
        lemma_decref_wf(s, p);
        assert(r.free == s.after_decref(p).free);
        assert forall|x: int| !s.is_free(x) && x != p implies !r.is_free(x) by {
            assert(!s.after_decref(p).is_free(x));
        }
        assert forall|q: int| 0 <= q < span implies has_table(r, d2, q) == has_table(s, d2, q) && table_of(
            r,
            d2,
            q,
        ) == table_of(s, d2, q) by {
            assert(r.entry(d2.0 as int, q) == word_after_remove(s, d, va, d2.0 as int, q));
        }
        assert forall|q: int| 0 <= q < span implies has_table(r, d, q) == has_table(s, d, q) && table_of(
            r,
            d,
            q,
        ) == table_of(s, d, q) by {
            assert(r.entry(d.0 as int, q) == word_after_remove(s, d, va, d.0 as int, q));
        }
        assert forall|q: int| 0 <= q < span && #[trigger] has_table(r, d2, q) implies {
            &&& 0 <= table_of(r, d2, q) < r.nframes()
            &&& !r.is_free(table_of(r, d2, q))
            &&& table_of(r, d2, q) != d2.0
        } by {
            assert(has_table(s, d2, q));
        }
        assert forall|a: int, b: int|
            0 <= a < span && 0 <= b < span && a != b && #[trigger] has_table(r, d2, a) && #[trigger] has_table(
                r,
                d2,
                b,
            ) implies table_of(r, d2, a) != table_of(r, d2, b) by {
            assert(has_table(s, d2, a));
            assert(has_table(s, d2, b));
        }
        if d2 != d {
            assert forall|a: int| 0 <= a < span && #[trigger] has_table(r, d, a) implies table_of(r, d, a)
                != d2.0 by {
                assert(has_table(s, d, a));
            }
            assert forall|b: int| 0 <= b < span && #[trigger] has_table(r, d2, b) implies table_of(r, d2, b)
                != d.0 by {
                assert(has_table(s, d2, b));
            }
            assert forall|a: int, b: int|
                0 <= a < span && 0 <= b < span && #[trigger] has_table(r, d, a) && #[trigger] has_table(
                    r,
                    d2,
                    b,
                ) implies table_of(r, d, a) != table_of(r, d2, b) by {
                assert(has_table(s, d, a));
                assert(has_table(s, d2, b));
            }
        }
    } else {
        assert(r == s);
    }
}

/// A page that one address space maps and that is inserted at a page of
/// another, or at another page of its own, is then seen at both places: the
/// new address translates into the frame, and the old one still does.
pub proof fn lemma_insert_shares_page(
    s: FrameState,
    src: PhysPageNum,
    srcva: VirtAddr,
    dst: PhysPageNum,
    dstva: VirtAddr,
    perm: usize,
    span: int,
)
    requires
        tree_shaped(s, src, span),
        tree_shaped(s, dst, span),
        src == dst || apart(s, dst, src, span),
        src == dst ==> page_of(srcva) != page_of(dstva),
        srcva.spec_pdx() < span,
        dstva.spec_pdx() < span,
        spec_lookup(s, src, srcva).is_some(),
        insert_ok(s, dst, PhysPageNum(slot_entry(s, spec_lookup(s, src, srcva).unwrap()).spec_ppn()), dstva),
        perm < 4096,
    ensures
        spec_translate(
            after_insert(
                s,
                dst,
                PhysPageNum(slot_entry(s, spec_lookup(s, src, srcva).unwrap()).spec_ppn()),
                dstva,
                perm,
            ),
            dst,
            dstva,
        ) == Some(
            PhysAddr(
                (slot_entry(s, spec_lookup(s, src, srcva).unwrap()).spec_ppn() * 4096
                    + dstva.spec_page_offset()) as usize,
            ),
        ),
        spec_translate(
            after_insert(
                s,
                dst,
                PhysPageNum(slot_entry(s, spec_lookup(s, src, srcva).unwrap()).spec_ppn()),
                dstva,
                perm,
            ),
            src,
            srcva,
        ) == Some(
            PhysAddr(
                (slot_entry(s, spec_lookup(s, src, srcva).unwrap()).spec_ppn() * 4096
                    + srcva.spec_page_offset()) as usize,
            ),
        ),
{
    let f = PhysPageNum(slot_entry(s, spec_lookup(s, src, srcva).unwrap()).spec_ppn());
    lemma_va_indices(srcva);
    lemma_va_indices(dstva);
    assert(!insert_overwrites_pde(s, dst, f, dstva)) by {
        let s1 = after_remove(s, dst, dstva);
        if spec_lookup(s, dst, dstva).is_some() {
            assert(has_table(s, dst, dstva.spec_pdx() as int));
            lemma_remove_words(s, dst, dstva);
            assert(s1.entry(dst.0 as int, dstva.spec_pdx() as int) == word_after_remove(
                s,
                dst,
                dstva,
                dst.0 as int,
                dstva.spec_pdx() as int,
            ));
            assert(spec_pde(s1, dst, dstva).spec_valid());
        } else {
            assert(s1 == s);
            if s.free.len() > 0 && s.free[0] == dst.0 {
                assert(s.is_free(dst.0 as int));
            }
        }
    }
    lemma_insert_then_translate(s, dst, f, dstva, perm);
    if src == dst {
        lemma_insert_keeps_other_page(s, dst, f, span, dstva, perm, srcva);
    } else {
        lemma_insert_keeps_other_space(s, dst, f, span, dstva, perm, src, srcva);
    }
}

/// The address space of a new environment is a tree without tables below
/// the windows of the kernel, and shares no frame with any tree-shaped space
/// that was there before, which stays a tree and translates as it did.
pub proof fn lemma_new_space_apart(s: FrameState, base: PhysPageNum, d2: PhysPageNum, span: int, va: VirtAddr)
    requires
        s.wf(),
        s.free.len() > 0,
        tree_shaped(s, d2, span),
        span <= UTOP_PDX,
        va.spec_pdx() < span,
    ensures
        tree_shaped(after_setup(s, base), PhysPageNum(s.free[0]), span),
        tree_shaped(after_setup(s, base), d2, span),
        apart(after_setup(s, base), PhysPageNum(s.free[0]), d2, span),
        forall|q: int| 0 <= q < span ==> !#[trigger] has_table(after_setup(s, base), PhysPageNum(s.free[0]), q),
        spec_translate(after_setup(s, base), d2, va) == spec_translate(s, d2, va),
{
    let r = after_setup(s, base);
    let d = PhysPageNum(s.free[0]);
    lemma_setup_directory(s, base);
    lemma_alloc_not_free(s);
    lemma_installed_perm(0);
    assert(s.is_free(d.0 as int));
    assert(zero_table().len() == 1024);
    assert(r.free == s.after_alloc().free);
    assert(r.refs == s.refs.update(d.0 as int, 1u16));
    assert(r.mem.len() == s.mem.len());
    assert(r.wf()) by {
        assert forall|x: int| 0 <= x < r.mem.len() implies (#[trigger] r.mem[x]).len() == 1024 by {}
        assert forall|k: int| 0 <= k < r.free.len() implies #[trigger] r.free[k] < r.refs.len() && r.refs[r.free[k] as int]
            == 0 by {
            assert(r.free[k] == s.free[k + 1]);
        }
    }
    assert forall|x: int| !s.is_free(x) implies !r.is_free(x) by {
        if r.is_free(x) {
            let k = choose|k: int| 0 <= k < r.free.len() && r.free[k] == x;
            assert(s.free[k + 1] == x);
        }
    }
    assert forall|x: int, i: int| 0 <= x < s.nframes() && x != d.0 && 0 <= i < 1024 implies r.entry(x, i)
        == s.entry(x, i) by {}
    assert forall|q: int| 0 <= q < span implies !#[trigger] has_table(r, d, q) by {
        assert(r.entry(d.0 as int, q) == Pte(0));
    }
    assert forall|q: int| 0 <= q < 1024 implies has_table(r, d2, q) == has_table(s, d2, q) && table_of(
        r,
        d2,
        q,
    ) == table_of(s, d2, q) by {}
    assert forall|q: int| 0 <= q < span && #[trigger] has_table(r, d2, q) implies {
        &&& 0 <= table_of(r, d2, q) < r.nframes()
        &&& !r.is_free(table_of(r, d2, q))
        &&& table_of(r, d2, q) != d2.0
        &&& table_of(r, d2, q) != d.0
    } by {
        assert(has_table(s, d2, q));
    }
    assert forall|a: int, b: int|
        0 <= a < span && 0 <= b < span && a != b && #[trigger] has_table(r, d2, a) && #[trigger] has_table(
            r,
            d2,
            b,
        ) implies table_of(r, d2, a) != table_of(r, d2, b) by {
        assert(has_table(s, d2, a));
        assert(has_table(s, d2, b));
    }
    lemma_va_indices(va);
    let qd = va.spec_pdx() as int;
    let qt = va.spec_ptx() as int;
    assert(r.entry(d2.0 as int, qd) == s.entry(d2.0 as int, qd));
    if has_table(s, d2, qd) {
        let u = table_of(s, d2, qd);
        assert(u != d.0);
        assert(r.entry(u, qt) == s.entry(u, qt));
    }
}

} // verus!
