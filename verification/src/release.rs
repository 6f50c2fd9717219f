//! What the teardown of an address space gives back: one reference for each
//! page that was mapped, one for each second-level table, and one for the
//! directory.

use vstd::prelude::*;
use crate::env::{after_setup, ASID, lemma_setup_directory};
use crate::frame::FrameState;
use crate::isolation::{lemma_insert_directory, lemma_remove_words, word_after_remove};
use crate::mapping::{
    has_table, lemma_count_at_least, lemma_count_change, lemma_empty_directory_count,
    lemma_insert_keeps_target, lemma_maps_frame_at, lemma_page_indices, lemma_remove_keeps_target,
    mapping_count, maps_frame, page_va, single_target, table_of, USER_TABLES,
};
use crate::mmu::{PhysPageNum, VirtAddr};
use crate::page_table::{
    after_insert, after_remove, insert_ok, lemma_alloc_not_free, lemma_decref_wf, lemma_installed_perm,
    maps_same, MapState, Pte, remove_pre, spec_lookup,
};
use crate::teardown::{
    after_free_space, after_free_tables, after_unmap_table, free_space_ok, free_table_ok, free_table_step,
    free_tables_ok, remove_step, unmap_table_ok, user_va,
};

verus! {

/// The number of user pages that directory `d` maps to frame `f`.
pub open spec fn user_mappings(s: FrameState, d: PhysPageNum, f: PhysPageNum) -> int {
    mapping_count(s, d, f, USER_TABLES * 1024)
}

/// The user part of directory `d` is a tree whose only target is frame `f`,
/// and every reference that its teardown gives back is held: one on `f` for
/// each page mapped to it, one on each second-level table, and one on the
/// directory.
pub open spec fn releasable(s: FrameState, d: PhysPageNum, f: PhysPageNum) -> bool {
    &&& single_target(s, d, f, USER_TABLES as int)
    &&& s.refs[f.0 as int] >= user_mappings(s, d, f)
    &&& s.refs[d.0 as int] > 0
    &&& forall|p: int| 0 <= p < USER_TABLES && #[trigger] has_table(s, d, p) ==> s.refs[table_of(s, d, p)] > 0
}

/// The address of page `k` under directory entry `p` is that of page
/// `p * 1024 + k`, and has these two indices.
proof fn lemma_user_va_page(p: int, k: int)
    requires
        0 <= p < 1024,
        0 <= k < 1024,
    ensures
        user_va(p, k) == page_va(p * 1024 + k),
        user_va(p, k).spec_pdx() == p,
        user_va(p, k).spec_ptx() == k,
{
    lemma_page_indices(p * 1024 + k);
}

/// Unmapping the pages behind the first `upto` entries of a table of a
/// releasable space finds what it needs and leaves the space releasable: the
/// target loses one reference for each page unmapped, those entries are
/// invalid, and no other count and no directory entry changes.
proof fn lemma_unmap_table_releases(
    m: MapState,
    d: PhysPageNum,
    asid: ASID,
    f: PhysPageNum,
    p: int,
    upto: nat,
)
    requires
        releasable(m.frames, d, f),
        0 <= p < USER_TABLES,
        has_table(m.frames, d, p),
        upto <= 1024,
    ensures
        unmap_table_ok(m, d, asid, p, table_of(m.frames, d, p), upto),
        releasable(after_unmap_table(m, d, asid, p, table_of(m.frames, d, p), upto).frames, d, f),
        after_unmap_table(m, d, asid, p, table_of(m.frames, d, p), upto).frames.nframes()
            == m.frames.nframes(),
        after_unmap_table(m, d, asid, p, table_of(m.frames, d, p), upto).frames.refs[f.0 as int]
            - user_mappings(after_unmap_table(m, d, asid, p, table_of(m.frames, d, p), upto).frames, d, f)
            == m.frames.refs[f.0 as int] - user_mappings(m.frames, d, f),
        forall|x: int|
            0 <= x < m.frames.nframes() && x != f.0 ==> after_unmap_table(
                m,
                d,
                asid,
                p,
                table_of(m.frames, d, p),
                upto,
            ).frames.refs[x] == m.frames.refs[x],
        forall|q: int|
            0 <= q < 1024 ==> after_unmap_table(m, d, asid, p, table_of(m.frames, d, p), upto).frames.entry(
                d.0 as int,
                q,
            ) == m.frames.entry(d.0 as int, q),
        forall|k: int|
            0 <= k < upto ==> !(#[trigger] after_unmap_table(
                m,
                d,
                asid,
                p,
                table_of(m.frames, d, p),
                upto,
            ).frames.entry(table_of(m.frames, d, p), k)).spec_valid(),
    decreases upto,
{
    let t = table_of(m.frames, d, p);
    let span = USER_TABLES as int;
    if upto > 0 {
        let k = (upto - 1) as nat;
        lemma_unmap_table_releases(m, d, asid, f, p, k);
        let m1 = after_unmap_table(m, d, asid, p, t, k);
        let s1 = m1.frames;
        let m2 = after_unmap_table(m, d, asid, p, t, upto);
        assert(has_table(s1, d, p) && table_of(s1, d, p) == t);
        assert(0 <= t < s1.nframes() && t != d.0);
        if s1.entry(t, k as int).spec_valid() {
            let va = user_va(p, k as int);
            let j = p * 1024 + k;
            lemma_user_va_page(p, k as int);
            assert(spec_lookup(s1, d, va).is_some());
            assert(s1.entry(t, k as int).spec_ppn() == f.0);
            assert(maps_frame(s1, d, f, j));
            lemma_count_at_least(s1, d, f, span * 1024, j);
            assert(remove_pre(s1, d, va));
            assert(m2 == remove_step(m1, d, asid, va));
            let s2 = m2.frames;
            lemma_remove_keeps_target(s1, d, f, span, va);
            lemma_remove_words(s1, d, va);
            lemma_installed_perm(0);
            assert forall|q: int| 0 <= q < 1024 implies s2.entry(d.0 as int, q) == m.frames.entry(
                d.0 as int,
                q,
            ) by {
                assert(s2.entry(d.0 as int, q) == word_after_remove(s1, d, va, d.0 as int, q));
            }
            assert forall|q: int| 0 <= q < span && #[trigger] has_table(s2, d, q) implies s2.refs[table_of(
                s2,
                d,
                q,
            )] > 0 by {
                assert(has_table(s1, d, q));
                assert(table_of(s2, d, q) == table_of(s1, d, q));
            }
            assert forall|i: int| 0 <= i < upto implies !(#[trigger] s2.entry(t, i)).spec_valid() by {
                assert(s2.entry(t, i) == word_after_remove(s1, d, va, t, i));
                if i < k {
                    assert(!s1.entry(t, i).spec_valid());
                }
            }
        } else {
            assert(m2 == m1);
        }
    }
}

/// Giving up a directory entry of a releasable space finds what it needs and
/// leaves the space releasable: the entry is invalid, its table has lost one
/// reference, the target one for each page that the table mapped, and no
/// other count and no other directory entry changes.
proof fn lemma_free_table_releases(m: MapState, d: PhysPageNum, asid: ASID, f: PhysPageNum, p: int)
    requires
        releasable(m.frames, d, f),
        0 <= p < USER_TABLES,
    ensures
        free_table_ok(m, d, asid, p),
        releasable(free_table_step(m, d, asid, p).frames, d, f),
        free_table_step(m, d, asid, p).frames.nframes() == m.frames.nframes(),
        free_table_step(m, d, asid, p).frames.refs[f.0 as int] - user_mappings(
            free_table_step(m, d, asid, p).frames,
            d,
            f,
        ) == m.frames.refs[f.0 as int] - user_mappings(m.frames, d, f),
        !has_table(free_table_step(m, d, asid, p).frames, d, p),
        forall|q: int|
            0 <= q < 1024 && q != p ==> free_table_step(m, d, asid, p).frames.entry(d.0 as int, q)
                == m.frames.entry(d.0 as int, q),
        forall|x: int|
            0 <= x < m.frames.nframes() && x != f.0 ==> free_table_step(m, d, asid, p).frames.refs[x]
                == m.frames.refs[x] - (if has_table(m.frames, d, p) && x == table_of(m.frames, d, p) {
                1int
            } else {
                0int
            }),
{
    let span = USER_TABLES as int;
    if has_table(m.frames, d, p) {
        let t = table_of(m.frames, d, p);
        lemma_unmap_table_releases(m, d, asid, f, p, 1024);
        let m1 = after_unmap_table(m, d, asid, p, t, 1024);
        let s1 = m1.frames;
        assert(has_table(s1, d, p) && table_of(s1, d, p) == t);
        assert(0 <= t < s1.nframes() && t != d.0 && t != f.0);
        let sw = s1.after_write(d.0 as int, p, Pte(0));
        let s2 = sw.after_decref(t);
        assert(free_table_step(m, d, asid, p).frames == s2);
        lemma_installed_perm(0);
        assert(sw.wf()) by {
            assert forall|x: int| 0 <= x < sw.mem.len() implies (#[trigger] sw.mem[x]).len() == 1024 by {}
        }
        assert forall|x: int| sw.is_free(x) == s1.is_free(x) by {}
        lemma_decref_wf(sw, t);
        assert forall|x: int, i: int| 0 <= x < s1.nframes() && 0 <= i < 1024 implies #[trigger] s2.entry(x, i)
            == (if x == d.0 && i == p {
            Pte(0)
        } else {
            s1.entry(x, i)
        }) by {}
        assert(!has_table(s2, d, p));
        assert forall|q: int| 0 <= q < 1024 && q != p implies has_table(s2, d, q) == has_table(s1, d, q)
            && table_of(s2, d, q) == table_of(s1, d, q) by {}
        assert(single_target(s2, d, f, span)) by {
            assert forall|q: int| 0 <= q < span && #[trigger] has_table(s2, d, q) implies {
                &&& 0 <= table_of(s2, d, q) < s2.nframes()
                &&& !s2.is_free(table_of(s2, d, q))
                &&& table_of(s2, d, q) != d.0
                &&& table_of(s2, d, q) != f.0
            } by {
                assert(has_table(s1, d, q));
                assert(table_of(s1, d, q) != t);
            }
            assert forall|a: int, b: int|
                0 <= a < span && 0 <= b < span && a != b && #[trigger] has_table(s2, d, a) && #[trigger] has_table(
                    s2,
                    d,
                    b,
                ) implies table_of(s2, d, a) != table_of(s2, d, b) by {
                assert(has_table(s1, d, a));
                assert(has_table(s1, d, b));
            }
            assert forall|a: int, i: int|
                0 <= a < span && 0 <= i < 1024 && has_table(s2, d, a) && (#[trigger] s2.entry(
                    table_of(s2, d, a),
                    i,
                )).spec_valid() implies s2.entry(table_of(s2, d, a), i).spec_ppn() == f.0 by {
                assert(has_table(s1, d, a));
                assert(s1.entry(table_of(s1, d, a), i).spec_valid());
            }
        }
        assert forall|j: int| 0 <= j < span * 1024 && j != -1 implies maps_frame(s2, d, f, j) == maps_frame(
            s1,
            d,
            f,
            j,
        ) by {
            lemma_maps_frame_at(s1, d, f, j);
            lemma_maps_frame_at(s2, d, f, j);
            let a = j / 1024;
            let i = j % 1024;
            if a == p {
                assert(!s1.entry(t, i).spec_valid());
            } else if has_table(s1, d, a) {
                assert(table_of(s1, d, a) != d.0);
            }
        }
        lemma_count_change(s1, s2, d, f, -1, span * 1024);
        assert forall|q: int| 0 <= q < span && #[trigger] has_table(s2, d, q) implies s2.refs[table_of(
            s2,
            d,
            q,
        )] > 0 by {
            assert(has_table(s1, d, q));
            assert(table_of(s1, d, q) != t);
        }
    }
}

/// Giving up the first `upto` directory entries of a releasable space finds
/// what it needs at each step and leaves the space releasable: those entries
/// are invalid, each table that they named has lost one reference, and the
/// target one for each page that they mapped.
proof fn lemma_free_tables_release(m: MapState, d: PhysPageNum, asid: ASID, f: PhysPageNum, upto: nat)
    requires
        releasable(m.frames, d, f),
        upto <= USER_TABLES,
    ensures
        free_tables_ok(m, d, asid, upto),
        releasable(after_free_tables(m, d, asid, upto).frames, d, f),
        after_free_tables(m, d, asid, upto).frames.nframes() == m.frames.nframes(),
        after_free_tables(m, d, asid, upto).frames.refs[f.0 as int] - user_mappings(
            after_free_tables(m, d, asid, upto).frames,
            d,
            f,
        ) == m.frames.refs[f.0 as int] - user_mappings(m.frames, d, f),
        after_free_tables(m, d, asid, upto).frames.refs[d.0 as int] == m.frames.refs[d.0 as int],
        forall|q: int| 0 <= q < upto ==> !#[trigger] has_table(after_free_tables(m, d, asid, upto).frames, d, q),
        forall|q: int|
            upto <= q < 1024 ==> after_free_tables(m, d, asid, upto).frames.entry(d.0 as int, q)
                == m.frames.entry(d.0 as int, q),
        forall|q: int|
            0 <= q < USER_TABLES && #[trigger] has_table(m.frames, d, q) ==> after_free_tables(
                m,
                d,
                asid,
                upto,
            ).frames.refs[table_of(m.frames, d, q)] == m.frames.refs[table_of(m.frames, d, q)] - (if q
                < upto {
                1int
            } else {
                0int
            }),
    decreases upto,
{
    if upto > 0 {
        let p = upto - 1;
        lemma_free_tables_release(m, d, asid, f, p as nat);
        let m1 = after_free_tables(m, d, asid, p as nat);
        lemma_free_table_releases(m1, d, asid, f, p);
        let m2 = free_table_step(m1, d, asid, p);
        assert(m2 == after_free_tables(m, d, asid, upto));
        assert(has_table(m1.frames, d, p) == has_table(m.frames, d, p));
        assert(table_of(m1.frames, d, p) == table_of(m.frames, d, p));
        assert forall|q: int| 0 <= q < upto implies !#[trigger] has_table(m2.frames, d, q) by {
            if q < p {
                assert(!has_table(m1.frames, d, q));
            }
        }
        assert forall|q: int| 0 <= q < USER_TABLES && #[trigger] has_table(m.frames, d, q) implies m2.frames.refs[table_of(
            m.frames,
            d,
            q,
        )] == m.frames.refs[table_of(m.frames, d, q)] - (if q < upto {
            1int
        } else {
            0int
        }) by {
            let u = table_of(m.frames, d, q);
            assert(0 <= u < m.frames.nframes() && u != f.0);
            if has_table(m.frames, d, p) && q != p {
                assert(table_of(m.frames, d, p) != u);
            }
        }
    }
}

/// The teardown of a releasable address space finds what it needs. After it
/// no user entry of the directory is valid, the target has lost one
/// reference for each user page that was mapped to it, each second-level
/// table has lost one reference, and so has the directory.
pub proof fn lemma_free_space_releases(m: MapState, d: PhysPageNum, asid: ASID, f: PhysPageNum)
    requires
        releasable(m.frames, d, f),
    ensures
        free_space_ok(m, d, asid),
        after_free_space(m, d, asid).frames.wf(),
        after_free_space(m, d, asid).frames.refs[f.0 as int] == m.frames.refs[f.0 as int] - user_mappings(
            m.frames,
            d,
            f,
        ),
        after_free_space(m, d, asid).frames.refs[d.0 as int] == m.frames.refs[d.0 as int] - 1,
        forall|q: int|
            0 <= q < USER_TABLES && #[trigger] has_table(m.frames, d, q) ==> after_free_space(
                m,
                d,
                asid,
            ).frames.refs[table_of(m.frames, d, q)] == m.frames.refs[table_of(m.frames, d, q)] - 1,
        forall|q: int| 0 <= q < USER_TABLES ==> !#[trigger] has_table(after_free_space(m, d, asid).frames, d, q),
        user_mappings(after_free_space(m, d, asid).frames, d, f) == 0,
{
    let span = USER_TABLES as int;
    lemma_free_tables_release(m, d, asid, f, USER_TABLES as nat);
    let m1 = after_free_tables(m, d, asid, USER_TABLES as nat);
    let s1 = m1.frames;
    let r = after_free_space(m, d, asid).frames;
    assert(r == s1.after_decref(d.0 as int));
    lemma_decref_wf(s1, d.0 as int);
    lemma_empty_directory_count(s1, d, f, span, span * 1024);
    assert forall|q: int| 0 <= q < USER_TABLES implies !#[trigger] has_table(r, d, q) by {
        assert(!has_table(s1, d, q));
        assert(r.entry(d.0 as int, q) == s1.entry(d.0 as int, q));
    }
    lemma_empty_directory_count(r, d, f, span, span * 1024);
    assert forall|q: int| 0 <= q < USER_TABLES && #[trigger] has_table(m.frames, d, q) implies r.refs[table_of(
        m.frames,
        d,
        q,
    )] == m.frames.refs[table_of(m.frames, d, q)] - 1 by {
        assert(table_of(m.frames, d, q) != d.0);
    }
}

/// The address space of a new environment is releasable for every frame
/// other than its directory, and maps no user page.
pub proof fn lemma_new_space_releasable(s: FrameState, base: PhysPageNum, f: PhysPageNum)
    requires
        s.wf(),
        s.free.len() > 0,
        f.0 < s.nframes(),
        f.0 != s.free[0],
    ensures
        releasable(after_setup(s, base), PhysPageNum(s.free[0]), f),
        user_mappings(after_setup(s, base), PhysPageNum(s.free[0]), f) == 0,
{
    let r = after_setup(s, base);
    let d = PhysPageNum(s.free[0]);
    let span = USER_TABLES as int;
    lemma_setup_directory(s, base);
    lemma_alloc_not_free(s);
    lemma_installed_perm(0);
    assert(r.free == s.after_alloc().free);
    assert(r.refs == s.refs.update(d.0 as int, 1u16));
    assert(r.mem.len() == s.mem.len());
    assert(r.wf()) by {
        assert forall|x: int| 0 <= x < r.mem.len() implies (#[trigger] r.mem[x]).len() == 1024 by {}
        assert forall|k: int| 0 <= k < r.free.len() implies #[trigger] r.free[k] < r.refs.len() && r.refs[r.free[k] as int]
            == 0 by {
            assert(r.free[k] == s.free[k + 1]);
        }
    }
    assert forall|q: int| 0 <= q < span implies !#[trigger] has_table(r, d, q) by {
        assert(r.entry(d.0 as int, q) == Pte(0));
    }
    lemma_empty_directory_count(r, d, f, span, span * 1024);
}

/// An `insert` of the target at a user address keeps a releasable space
/// releasable.
pub proof fn lemma_insert_keeps_releasable(
    s: FrameState,
    d: PhysPageNum,
    f: PhysPageNum,
    va: VirtAddr,
    perm: usize,
)
    requires
        releasable(s, d, f),
        insert_ok(s, d, f, va),
        va.spec_pdx() < USER_TABLES,
        perm < 4096,
    ensures
        releasable(after_insert(s, d, f, va, perm), d, f),
        user_mappings(after_insert(s, d, f, va, perm), d, f) == user_mappings(s, d, f) + (if maps_same(
            s,
            d,
            f,
            va,
        ) {
            0int
        } else {
            1int
        }),
{
    let r = after_insert(s, d, f, va, perm);
    let span = USER_TABLES as int;
    let pd = va.spec_pdx() as int;
    lemma_insert_keeps_target(s, d, f, span, va, perm);
    lemma_insert_directory(s, d, f, span, va, perm, d);
    if s.free.len() > 0 {
        lemma_alloc_not_free(s);
        assert(s.is_free(s.free[0] as int));
    }
    assert forall|q: int| 0 <= q < span && #[trigger] has_table(r, d, q) implies r.refs[table_of(r, d, q)]
        > 0 by {
        if !(q == pd && !has_table(s, d, q) && s.free.len() > 0) {
            assert(has_table(s, d, q));
        }
    }
}

/// A `remove` at a user address keeps a releasable space releasable.
pub proof fn lemma_remove_keeps_releasable(s: FrameState, d: PhysPageNum, f: PhysPageNum, va: VirtAddr)
    requires
        releasable(s, d, f),
        remove_pre(s, d, va),
        va.spec_pdx() < USER_TABLES,
    ensures
        releasable(after_remove(s, d, va), d, f),
        user_mappings(after_remove(s, d, va), d, f) == user_mappings(s, d, f) - (if maps_same(s, d, f, va) {
            1int
        } else {
            0int
        }),
{
    let r = after_remove(s, d, va);
    let span = USER_TABLES as int;
    let pd = va.spec_pdx() as int;
    lemma_remove_keeps_target(s, d, f, span, va);
    lemma_remove_words(s, d, va);
    if spec_lookup(s, d, va).is_some() {
        assert(has_table(s, d, pd));
    }
    assert forall|q: int| 0 <= q < span && #[trigger] has_table(r, d, q) implies r.refs[table_of(r, d, q)]
        > 0 by {
        assert(r.entry(d.0 as int, q) == word_after_remove(s, d, va, d.0 as int, q));
        assert(has_table(s, d, q));
    }
}

} // verus!
