//! The buddy allocator of the kernel heap, as a plan of which block is handed
//! out and which blocks are free.

use vstd::prelude::*;
use vstd::arithmetic::power2::{lemma2_to64, lemma_pow2_pos, lemma_pow2_strictly_increases, lemma_pow2_unfold, pow2};
use crate::bitops::{lemma_floor_log2_bound, lemma_floor_log2_shift, spec_floor_log2};

verus! {

/// Bytes of a machine word on the target: the smallest block.
pub const WORD_BYTES: usize = 4;

/// The size class of the smallest block.
pub const WORD_CLASS: usize = 2;

/// Most size classes that a heap can have.
pub const MAX_ORDER: usize = 32;

/// A buddy allocator with blocks of `2^0` to `2^(ORDER - 1)` bytes. Each
/// size class has a list of free blocks, of which the one freed last is
/// handed out first.
pub struct Heap<const ORDER: usize> {
    free_list: Vec<Vec<usize>>,
    user: usize,
    allocated: usize,
    total: usize,
}

/// The mathematical state of a heap.
pub struct HeapState {
    /// The free blocks of each size class; the last of a list is its head.
    pub free: Seq<Seq<usize>>,
    /// Bytes that callers have asked for and not given back.
    pub user: usize,
    /// Bytes of the blocks that are handed out.
    pub allocated: usize,
    /// Bytes that the heap manages.
    pub total: usize,
}

/// The number of times that two divides `n`; zero for zero.
pub open spec fn low_zero_bits(n: nat) -> nat
    decreases n,
{
    if n == 0 || n % 2 == 1 {
        0
    } else {
        1 + low_zero_bits(n / 2)
    }
}

/// The least `k` with `n <= 2^k`.
pub open spec fn ceil_log2(n: nat) -> nat {
    if n <= 1 {
        0
    } else {
        spec_floor_log2((n - 1) as nat) + 1
    }
}

/// The smaller of two numbers.
pub open spec fn min_nat(a: nat, b: nat) -> nat {
    if a <= b {
        a
    } else {
        b
    }
}

/// The larger of two numbers.
pub open spec fn max_nat(a: nat, b: nat) -> nat {
    if a >= b {
        a
    } else {
        b
    }
}

/// The size class of the block that serves a request of `size` bytes aligned
/// to `align`, a power of two: the block holds the request, is aligned as
/// asked, and holds a machine word at least.
pub open spec fn block_class(size: usize, align: usize) -> nat {
    max_nat(ceil_log2(size as nat), max_nat(spec_floor_log2(align as nat), WORD_CLASS as nat))
}

/// The free lists with `block` put at the head of list `class`.
pub open spec fn pushed(free: Seq<Seq<usize>>, class: int, block: usize) -> Seq<Seq<usize>> {
    free.update(class, free[class].push(block))
}

/// The address `start` rounded up to a machine word.
pub open spec fn word_up(start: usize) -> int {
    (start + 3) / 4 * 4
}

/// The address `end` rounded down to a machine word.
pub open spec fn word_down(end: usize) -> int {
    end / 4 * 4
}

/// The size class of the block that is cut off at `cur` when the memory up
/// to `end` is handed to the heap: the largest block that `cur` is aligned
/// to and that ends at or before `end`.
pub open spec fn chunk_class(cur: int, end: int) -> nat {
    min_nat(low_zero_bits(cur as nat), spec_floor_log2((end - cur) as nat))
}

/// The free lists after the memory from `cur` up to `end` has been cut into
/// blocks, lowest address first.
pub open spec fn after_add(free: Seq<Seq<usize>>, cur: int, end: int) -> Seq<Seq<usize>>
    decreases
        (if end > cur {
            end - cur
        } else {
            0
        }),
{
    let c = chunk_class(cur, end);
    if cur + 4 <= end && pow2(c) > 0 {
        after_add(pushed(free, c as int, cur as usize), cur + pow2(c), end)
    } else {
        free
    }
}

/// The least size class from `from` on whose list is not empty; the number
/// of classes if there is none.
pub open spec fn first_nonempty(free: Seq<Seq<usize>>, from: int) -> int
    decreases free.len() - from,
{
    if from < 0 || from >= free.len() {
        free.len() as int
    } else if free[from].len() > 0 {
        from
    } else {
        first_nonempty(free, from + 1)
    }
}

/// The free lists while the head `b` of list `i` is split down to size
/// class `class`, when the part that starts at `b` has size class `j`: every
/// class above `j` up to `i` has kept the upper half of the part it split.
pub open spec fn split_state(free: Seq<Seq<usize>>, class: int, i: int, j: int) -> Seq<Seq<usize>> {
    let b = free[i].last();
    Seq::new(
        free.len(),
        |l: int|
            if j == i {
                free[l]
            } else if l == i {
                free[i].drop_last()
            } else if l == j {
                free[l].push((b + pow2(l as nat)) as usize).push(b)
            } else if j < l < i {
                free[l].push((b + pow2(l as nat)) as usize)
            } else {
                free[l]
            },
    )
}

/// The free lists after the head `b` of list `i` has been split down to
/// size class `class` and the part that starts at `b` has been taken: list
/// `i` has lost its head, and every class from `class` up to `i` has got the
/// upper half of the part it split.
pub open spec fn after_take(free: Seq<Seq<usize>>, class: int, i: int) -> Seq<Seq<usize>> {
    let b = free[i].last();
    Seq::new(
        free.len(),
        |l: int|
            if l == i {
                free[i].drop_last()
            } else if class <= l < i {
                free[l].push((b + pow2(l as nat)) as usize)
            } else {
                free[l]
            },
    )
}

/// Whether a request of `size` bytes aligned to `align` can be served: its
/// size class exists, and a block of that class or a larger one is free.
pub open spec fn can_serve(s: HeapState, size: usize, align: usize) -> bool {
    block_class(size, align) < s.free.len() && first_nonempty(s.free, block_class(size, align) as int)
        < s.free.len()
}

/// The block that serves a request.
pub open spec fn served_block(s: HeapState, size: usize, align: usize) -> usize {
    s.free[first_nonempty(s.free, block_class(size, align) as int)].last()
}

/// The state after a request has been served.
pub open spec fn after_heap_alloc(s: HeapState, size: usize, align: usize) -> HeapState {
    let class = block_class(size, align);
    if !can_serve(s, size, align) {
        s
    } else {
        let free = after_take(s.free, class as int, first_nonempty(s.free, class as int));
        if served_block(s, size, align) == 0 {
            HeapState { free, ..s }
        } else {
            HeapState {
                free,
                user: (s.user + size) as usize,
                allocated: (s.allocated + pow2(class)) as usize,
                ..s
            }
        }
    }
}

/// The other half of the block of size class `class` that the block at
/// `ptr` is a half of.
pub open spec fn buddy_of(ptr: usize, class: nat) -> int {
    if (ptr as int / pow2(class) as int) % 2 == 0 {
        ptr + pow2(class)
    } else {
        ptr - pow2(class)
    }
}

/// The place of `v` in `list` that is nearest to the head; -1 if `v` is not
/// in the list.
pub open spec fn nearest_to_head(list: Seq<usize>, v: int) -> int
    decreases list.len(),
{
    if list.len() == 0 {
        -1
    } else if list.last() == v {
        list.len() - 1
    } else {
        nearest_to_head(list.drop_last(), v)
    }
}

/// Where the head of a list holds `v`, the head is the place of `v` that is
/// nearest to the head; else that place lies below the head.
pub proof fn lemma_nearest_is_last(list: Seq<usize>, v: int)
    requires
        list.len() > 0,
    ensures
        list.last() == v ==> nearest_to_head(list, v) == list.len() - 1,
        list.last() != v ==> nearest_to_head(list, v) < list.len() - 1,
        nearest_to_head(list, v) >= -1,
    decreases list.len(),
{
    if list.last() != v {
        lemma_nearest_bound(list.drop_last(), v);
    }
}

/// The place of a value in a list lies within the list, or is -1.
pub proof fn lemma_nearest_bound(list: Seq<usize>, v: int)
    ensures
        -1 <= nearest_to_head(list, v) < list.len(),
        nearest_to_head(list, v) >= 0 ==> list[nearest_to_head(list, v)] == v,
    decreases list.len(),
{
    if list.len() > 0 && list.last() != v {
        lemma_nearest_bound(list.drop_last(), v);
    }
}

/// The free lists after the block at `ptr`, which heads list `class`, has
/// been joined with its buddies as far as they are free: where the buddy is
/// on the list, both leave it, the block they form heads the list of the
/// next class, and the joining goes on there.
pub open spec fn after_merge(free: Seq<Seq<usize>>, ptr: usize, class: int) -> Seq<Seq<usize>>
    decreases free.len() - class,
{
    if 0 <= class && class + 1 < free.len() {
        let k = nearest_to_head(free[class], buddy_of(ptr, class as nat));
        if 0 <= k {
            let joined = if buddy_of(ptr, class as nat) < ptr {
                buddy_of(ptr, class as nat) as usize
            } else {
                ptr
            };
            after_merge(
                pushed(free.update(class, free[class].remove(k).drop_last()), class + 1, joined),
                joined,
                class + 1,
            )
        } else {
            free
        }
    } else {
        free
    }
}

/// The state after the block at `ptr` has been given back.
pub open spec fn after_heap_dealloc(s: HeapState, ptr: usize, size: usize, align: usize) -> HeapState {
    let class = block_class(size, align);
    HeapState {
        free: after_merge(pushed(s.free, class as int, ptr), ptr, class as int),
        user: (s.user - size) as usize,
        allocated: (s.allocated - pow2(class)) as usize,
        ..s
    }
}

/// A request is well formed: its size fits 32 bits and its alignment is a
/// power of two that fits 32 bits.
pub open spec fn request_ok(size: usize, align: usize) -> bool {
    &&& size <= 0xffff_ffff
    &&& 0 < align <= 0xffff_ffff
    &&& align == pow2(spec_floor_log2(align as nat))
}

/// The block cut off at `cur`, a word address below the word address
/// `last`, is at least a word, a whole number of words, fits before `last`,
/// and has a size class below `order` where the memory handed over is less
/// than two to the power `order`.
pub proof fn lemma_chunk(cur: usize, last: usize, order: usize)
    requires
        0 < cur,
        cur + 4 <= last,
        cur % 4 == 0,
        last - cur < pow2(order as nat),
    ensures
        2 <= chunk_class(cur as int, last as int) < order,
        pow2(chunk_class(cur as int, last as int)) >= 4,
        pow2(chunk_class(cur as int, last as int)) % 4 == 0,
        cur + pow2(chunk_class(cur as int, last as int)) <= last,
        chunk_class(cur as int, last as int) <= low_zero_bits(cur as nat),
        chunk_class(cur as int, last as int) <= spec_floor_log2((last - cur) as nat),
{
    lemma2_to64();
    let c = chunk_class(cur as int, last as int);
    let n = (last - cur) as nat;
    let f = spec_floor_log2(n);
    assert(pow2(2) == 4);
    lemma_low_zero_bits(cur as nat, 2);
    lemma_floor_log2_shift(n, 2, 4);
    lemma_floor_log2_pow(n);
    lemma_pow2_order(f, order as nat);
    lemma_pow2_order(c, f);
    lemma_pow2_order(2, c);
    vstd::arithmetic::power2::lemma_pow2_adds(2, (c - 2) as nat);
    vstd::arithmetic::div_mod::lemma_mod_multiples_basic(pow2((c - 2) as nat) as int, 4);
}

/// Two to the integer part of the logarithm of a positive number does not
/// exceed the number.
pub proof fn lemma_floor_log2_pow(n: nat)
    requires
        n > 0,
    ensures
        pow2(spec_floor_log2(n)) <= n,
    decreases n,
{
    lemma2_to64();
    if n > 1 {
        lemma_floor_log2_pow(n / 2);
        lemma_pow2_unfold(spec_floor_log2(n));
    } else {
        assert(pow2(0) == 1);
    }
}

/// Every free block is aligned to its size.
pub open spec fn blocks_aligned(free: Seq<Seq<usize>>) -> bool {
    forall|j: int, k: int|
        0 <= j < free.len() && 0 <= k < free[j].len() ==> (#[trigger] free[j][k]) as int % pow2(j as nat) as int
            == 0
}

/// A multiple of a power of two is a multiple of every smaller power of two.
pub proof fn lemma_pow2_divides(n: int, a: nat, b: nat)
    requires
        0 <= n,
        a <= b,
        n % pow2(b) as int == 0,
    ensures
        n % pow2(a) as int == 0,
{
    lemma_pow2_pos(a);
    lemma_pow2_pos(b);
    lemma_pow2_pos((b - a) as nat);
    vstd::arithmetic::power2::lemma_pow2_adds(a, (b - a) as nat);
    let pa = pow2(a) as int;
    let pb = pow2(b) as int;
    let pc = pow2((b - a) as nat) as int;
    let q = n / pb;
    vstd::arithmetic::div_mod::lemma_fundamental_div_mod(n, pb);
    assert(n == pb * q);
    assert(n == (pc * q) * pa) by (nonlinear_arith)
        requires
            n == pb * q,
            pb == pa * pc,
    ;
    vstd::arithmetic::div_mod::lemma_mod_multiples_basic(pc * q, pa);
}

/// The two halves of an aligned block are aligned to half its size.
pub proof fn lemma_halves_aligned(b: int, j: nat)
    requires
        0 <= b,
        j >= 1,
        b % pow2(j) as int == 0,
    ensures
        b % pow2((j - 1) as nat) as int == 0,
        (b + pow2((j - 1) as nat)) % pow2((j - 1) as nat) as int == 0,
{
    lemma_pow2_divides(b, (j - 1) as nat, j);
    lemma_pow2_pos((j - 1) as nat);
    let h = pow2((j - 1) as nat) as int;
    vstd::arithmetic::div_mod::lemma_mod_adds(b, h, h);
    vstd::arithmetic::div_mod::lemma_mod_self_0(h);
}

/// Handing over memory that starts at a word address keeps the free blocks aligned.
pub proof fn lemma_add_keeps_aligned(free: Seq<Seq<usize>>, cur: int, end: int, order: int)
    requires
        blocks_aligned(free),
        1 <= order <= MAX_ORDER,
        free.len() == order,
        0 < cur <= end <= 0xffff_ffff,
        cur % 4 == 0,
        end % 4 == 0,
        end - cur < pow2(order as nat),
    ensures
        blocks_aligned(after_add(free, cur, end)),
        after_add(free, cur, end).len() == order,
    decreases end - cur,
{
    if cur + 4 <= end {
        lemma_chunk(cur as usize, end as usize, order as usize);
        let c = chunk_class(cur, end);
        lemma_low_zero_divides(cur as nat);
        lemma_pow2_divides(cur, c, low_zero_bits(cur as nat));
        let next = pushed(free, c as int, cur as usize);
        assert(blocks_aligned(next)) by {
            assert forall|j: int, k: int| 0 <= j < next.len() && 0 <= k < next[j].len() implies (
            #[trigger] next[j][k]) as int % pow2(j as nat) as int == 0 by {
                if j == c && k == free[j].len() {
                } else {
                    assert(next[j][k] == free[j][k]);
                }
            }
        }
        lemma_pow2_pos(c);
        lemma_add_keeps_aligned(next, cur + pow2(c), end, order);
    }
}

/// Taking a block keeps the free blocks aligned, and the block taken is
/// aligned to the size class asked for.
pub proof fn lemma_take_keeps_aligned(free: Seq<Seq<usize>>, class: int, i: int)
    requires
        blocks_aligned(free),
        0 <= class <= i < free.len(),
        free[i].len() > 0,
        free[i].last() + pow2(i as nat) <= usize::MAX,
    ensures
        blocks_aligned(after_take(free, class, i)),
        free[i].last() as int % pow2(class as nat) as int == 0,
{
    let b = free[i].last() as int;
    let r = after_take(free, class, i);
    assert(free[i][free[i].len() - 1] as int % pow2(i as nat) as int == 0);
    lemma_pow2_divides(b, class as nat, i as nat);
    assert forall|j: int, k: int| 0 <= j < r.len() && 0 <= k < r[j].len() implies (#[trigger] r[j][k]) as int
        % pow2(j as nat) as int == 0 by {
        if j == i {
            assert(r[j][k] == free[j][k]);
        } else if class <= j < i {
            if k == free[j].len() {
                lemma_pow2_divides(b, j as nat, i as nat);
                lemma_pow2_pos(j as nat);
                let h = pow2(j as nat) as int;
                vstd::arithmetic::div_mod::lemma_mod_adds(b, h, h);
                vstd::arithmetic::div_mod::lemma_mod_self_0(h);
                lemma_pow2_order(j as nat, i as nat);
                assert(((b + h) as usize) as int == b + h);
                assert(r[j][k] == (b + h) as usize);
            } else {
                assert(r[j][k] == free[j][k]);
            }
        } else {
            assert(r[j][k] == free[j][k]);
        }
    }
}

/// A block that serves a request is aligned as the request asks, while the
/// free blocks are aligned to their sizes.
pub proof fn lemma_served_block_aligned(s: HeapState, size: usize, align: usize, order: int)
    requires
        s.wf(order),
        blocks_aligned(s.free),
        request_ok(size, align),
        can_serve(s, size, align),
    ensures
        served_block(s, size, align) as int % align as int == 0,
        blocks_aligned(after_heap_alloc(s, size, align).free),
{
    let class = block_class(size, align) as int;
    lemma_first_nonempty(s.free, class);
    let i = first_nonempty(s.free, class);
    assert(s.free[i][s.free[i].len() - 1] + pow2(i as nat) <= usize::MAX);
    lemma_take_keeps_aligned(s.free, class, i);
    lemma_pow2_divides(served_block(s, size, align) as int, spec_floor_log2(align as nat), class as nat);
}

/// The first list that is not empty, from a class on, lies at or above that
/// class and is not empty.
pub proof fn lemma_first_nonempty(free: Seq<Seq<usize>>, from: int)
    requires
        0 <= from,
    ensures
        from <= first_nonempty(free, from) || first_nonempty(free, from) == free.len(),
        first_nonempty(free, from) <= free.len(),
        first_nonempty(free, from) < free.len() ==> free[first_nonempty(free, from)].len() > 0,
    decreases free.len() - from,
{
    if from < free.len() && free[from].len() == 0 {
        lemma_first_nonempty(free, from + 1);
    }
}

/// Powers of two grow with their exponents.
pub proof fn lemma_pow2_order(a: nat, b: nat)
    ensures
        pow2(a) <= pow2(b) <==> a <= b,
        pow2(a) < pow2(b) <==> a < b,
        pow2(a) > 0,
{
    lemma_pow2_pos(a);
    if a < b {
        lemma_pow2_strictly_increases(a, b);
    }
    if b < a {
        lemma_pow2_strictly_increases(b, a);
    }
}

impl HeapState {
    /// There are `order` lists, and every free block lies within the address space.
    pub open spec fn wf(self, order: int) -> bool {
        &&& 1 <= order <= MAX_ORDER
        &&& self.free.len() == order
        &&& forall|j: int, k: int|
            0 <= j < order && 0 <= k < self.free[j].len() ==> #[trigger] self.free[j][k] + pow2(j as nat)
                <= usize::MAX
    }
}

/// Two divides a number of at least `k` low zero bits `k` times.
pub proof fn lemma_low_zero_bits(n: nat, k: nat)
    requires
        n > 0,
        n % pow2(k) == 0,
    ensures
        low_zero_bits(n) >= k,
        low_zero_bits(n) == k + low_zero_bits(n / pow2(k)),
        n % pow2(low_zero_bits(n)) == 0,
        pow2(low_zero_bits(n)) <= n,
    decreases n,
{
    lemma2_to64();
    if k == 0 {
        assert(pow2(0) == 1);
        lemma_low_zero_divides(n);
    } else {
        lemma_pow2_unfold(k);
        let q = pow2((k - 1) as nat);
        lemma_pow2_pos((k - 1) as nat);
        assert(pow2(k) == 2 * q);
        assert(n % 2 == 0) by {
            vstd::arithmetic::div_mod::lemma_mod_mod(n as int, 2, q as int);
            assert(n as int % (2 * q as int) == 0);
            vstd::arithmetic::div_mod::lemma_mod_breakdown(n as int, 2, q as int);
        }
        assert((n / 2) % q == 0) by {
            vstd::arithmetic::div_mod::lemma_mod_breakdown(n as int, 2, q as int);
        }
        lemma_low_zero_bits(n / 2, (k - 1) as nat);
        assert((n / 2) / q == n / pow2(k)) by {
            vstd::arithmetic::div_mod::lemma_div_denominator(n as int, 2, q as int);
        }
        lemma_low_zero_divides(n);
    }
}

/// A positive number is a multiple of two to the number of its low zero bits.
pub proof fn lemma_low_zero_divides(n: nat)
    requires
        n > 0,
    ensures
        n % pow2(low_zero_bits(n)) == 0,
        pow2(low_zero_bits(n)) <= n,
    decreases n,
{
    lemma2_to64();
    if n % 2 == 1 {
        assert(pow2(0) == 1);
    } else {
        lemma_low_zero_divides(n / 2);
        let k = low_zero_bits(n / 2);
        lemma_pow2_unfold(k + 1);
        let q = pow2(k);
        lemma_pow2_pos(k);
        assert(n == 2 * (n / 2));
        assert((n / 2) % q == 0);
        assert(n % (2 * q) == 0) by {
            vstd::arithmetic::div_mod::lemma_mod_breakdown(n as int, 2, q as int);
        }
    }
}

/// Two to the power `k`, for `k` below 32.
pub fn pow2_of(k: usize) -> (r: usize)
    requires
        k < MAX_ORDER,
    ensures
        r == pow2(k as nat),
        1 <= r <= 0x8000_0000,
{
    proof {
        lemma2_to64();
    }
    let mut r: usize = 1;
    let mut i: usize = 0;
    while i < k
        invariant
            i <= k,
            k < MAX_ORDER,
            r == pow2(i as nat),
            r <= 0x8000_0000,
        decreases k - i,
    {
        proof {
            lemma2_to64();
            lemma_pow2_unfold((i + 1) as nat);
            lemma_pow2_strictly_increases((i + 1) as nat, 32);
            assert(pow2(32) == 0x1_0000_0000);
            if i + 1 < 31 {
                lemma_pow2_strictly_increases((i + 1) as nat, 31);
            }
            assert(pow2(31) == 0x8000_0000);
        }
        r = 2 * r;
        i += 1;
    }
    proof {
        lemma_pow2_pos(k as nat);
    }
    r
}

/// The integer part of the binary logarithm of `n`, which is positive and
/// fits 32 bits, with the greatest power of two that does not exceed `n`.
pub fn floor_log2_of(n: usize) -> (r: (usize, usize))
    requires
        0 < n <= 0xffff_ffff,
    ensures
        r.0 == spec_floor_log2(n as nat),
        r.0 < MAX_ORDER,
        r.1 == pow2(r.0 as nat),
        r.1 <= n < 2 * r.1,
{
    proof {
        lemma2_to64();
        assert(pow2(0) == 1);
        lemma_floor_log2_bound(n as nat, 32);
    }
    let mut p: usize = 1;
    let mut k: usize = 0;
    while p <= n / 2
        invariant
            0 < n <= 0xffff_ffff,
            p == pow2(k as nat),
            1 <= p <= n,
            k <= spec_floor_log2(n as nat),
            spec_floor_log2(n as nat) < 32,
        decreases n - p,
    {
        proof {
            lemma_pow2_unfold((k + 1) as nat);
            lemma_floor_log2_shift(n as nat, (k + 1) as nat, (2 * p) as nat);
        }
        p = 2 * p;
        k += 1;
    }
    proof {
        lemma_floor_log2_shift(n as nat, k as nat, p as nat);
        assert(n / p == 1) by (nonlinear_arith)
            requires
                0 < p <= n,
                n < 2 * p,
        ;
        assert(spec_floor_log2(1) == 0);
    }
    (k, p)
}

/// The greatest power of two that does not exceed `num`.
pub fn prev_power_of_two(num: usize) -> (r: usize)
    requires
        0 < num <= 0xffff_ffff,
    ensures
        r == pow2(spec_floor_log2(num as nat)),
        r <= num < 2 * r,
{
    floor_log2_of(num).1
}

/// The number of times that two divides `n`, which is positive and fits 32
/// bits, with two to that power.
pub fn low_zero_bits_of(n: usize) -> (r: (usize, usize))
    requires
        0 < n <= 0xffff_ffff,
    ensures
        r.0 == low_zero_bits(n as nat),
        r.0 < MAX_ORDER,
        r.1 == pow2(r.0 as nat),
        n % r.1 == 0,
{
    proof {
        lemma2_to64();
        assert(pow2(0) == 1);
        lemma_low_zero_bits(n as nat, 0);
    }
    let mut b: usize = 1;
    let mut k: usize = 0;
    loop
        invariant
            0 < n <= 0xffff_ffff,
            b == pow2(k as nat),
            1 <= b <= n,
            n % b == 0,
            k < MAX_ORDER,
            low_zero_bits(n as nat) == k + low_zero_bits((n / b) as nat),
        decreases n - b,
    {
        if b > n / 2 || n % (2 * b) != 0 {
            proof {
                let ni = n as int;
                let bi = b as int;
                let m = ni / bi;
                vstd::arithmetic::div_mod::lemma_fundamental_div_mod(ni, bi);
                assert(ni == bi * m);
                if m % 2 == 0 {
                    let h = m / 2;
                    assert(m == 2 * h);
                    assert(ni == h * (2 * bi)) by (nonlinear_arith)
                        requires
                            ni == bi * m,
                            m == 2 * h,
                    ;
                    vstd::arithmetic::div_mod::lemma_mod_multiples_basic(h, 2 * bi);
                    assert(ni % (2 * bi) == 0);
                    assert(h >= 1);
                    assert(ni >= 2 * bi) by (nonlinear_arith)
                        requires
                            ni == h * (2 * bi),
                            h >= 1,
                            bi >= 1,
                    ;
                    assert(false);
                }
                assert(low_zero_bits(m as nat) == 0);
            }
            return (k, b);
        }
        proof {
            lemma2_to64();
            lemma_pow2_unfold((k + 1) as nat);
            lemma_low_zero_bits(n as nat, (k + 1) as nat);
            if k + 1 >= 32 {
                lemma_pow2_strictly_increases(32, (k + 2) as nat);
                assert(pow2(32) == 0x1_0000_0000);
                lemma_pow2_unfold((k + 2) as nat);
            }
        }
        b = 2 * b;
        k += 1;
    }
}

impl<const ORDER: usize> View for Heap<ORDER> {
    type V = HeapState;

    closed spec fn view(&self) -> HeapState {
        HeapState {
            free: Seq::new(self.free_list@.len(), |j: int| self.free_list@[j]@),
            user: self.user,
            allocated: self.allocated,
            total: self.total,
        }
    }
}

impl<const ORDER: usize> Heap<ORDER> {
    /// The heap has its lists, and its free blocks lie within the address space.
    pub open spec fn wf(&self) -> bool {
        self@.wf(ORDER as int)
    }

    /// A heap that manages no memory yet.
    pub fn new() -> (r: Self)
        requires
            1 <= ORDER <= MAX_ORDER,
        ensures
            r.wf(),
            r@.user == 0,
            r@.allocated == 0,
            r@.total == 0,
            forall|j: int| 0 <= j < ORDER ==> r@.free[j] == Seq::<usize>::empty(),
    {
        let mut lists: Vec<Vec<usize>> = Vec::new();
        let mut j: usize = 0;
        while j < ORDER
            invariant
                j <= ORDER,
                lists@.len() == j,
                forall|i: int| 0 <= i < j ==> (#[trigger] lists@[i])@ == Seq::<usize>::empty(),
            decreases ORDER - j,
        {
            lists.push(Vec::new());
            j += 1;
        }
        Heap { free_list: lists, user: 0, allocated: 0, total: 0 }
    }

    /// A heap that manages no memory yet.
    pub fn empty() -> (r: Self)
        requires
            1 <= ORDER <= MAX_ORDER,
        ensures
            r.wf(),
            r@.user == 0,
            r@.allocated == 0,
            r@.total == 0,
            forall|j: int| 0 <= j < ORDER ==> r@.free[j] == Seq::<usize>::empty(),
    {
        Self::new()
    }

    /// Bytes that callers have asked for and not given back.
    pub fn stats_alloc_user(&self) -> (r: usize)
        ensures
            r == self@.user,
    {
        self.user
    }

    /// Bytes of the blocks that are handed out.
    pub fn stats_alloc_actual(&self) -> (r: usize)
        ensures
            r == self@.allocated,
    {
        self.allocated
    }

    /// Bytes that the heap manages.
    pub fn stats_total_bytes(&self) -> (r: usize)
        ensures
            r == self@.total,
    {
        self.total
    }

    /// The free blocks of size class `class`; the last is the head of the list.
    pub fn free_blocks(&self, class: usize) -> (r: &Vec<usize>)
        requires
            self.wf(),
            class < ORDER,
        ensures
            r@ == self@.free[class as int],
    {
        &self.free_list[class]
    }

    /// Takes the head of list `class`, which is not empty.
    fn pop(&mut self, class: usize) -> (r: usize)
        requires
            old(self).wf(),
            class < ORDER,
            old(self)@.free[class as int].len() > 0,
        ensures
            final(self).wf(),
            r == old(self)@.free[class as int].last(),
            r + pow2(class as nat) <= usize::MAX,
            final(self)@ == (HeapState {
                free: old(self)@.free.update(class as int, old(self)@.free[class as int].drop_last()),
                ..old(self)@
            }),
    {
        let r = match self.free_list[class].pop() {
            Some(b) => b,
            None => 0,
        };
        proof {
            let pre = old(self)@;
            let want = pre.free.update(class as int, pre.free[class as int].drop_last());
            assert(self@.free =~= want);
            assert(pre.free[class as int][pre.free[class as int].len() - 1] + pow2(class as nat) <= usize::MAX);
            assert forall|j: int, k: int| 0 <= j < ORDER && 0 <= k < self@.free[j].len() implies #[trigger] self@.free[j][k]
                + pow2(j as nat) <= usize::MAX by {
                assert(self@.free[j][k] == pre.free[j][k]);
            }
        }
        r
    }

    /// Hands the memory from `start` up to `end` to the heap: rounds both to
    /// machine words and cuts the memory between them into blocks, each the
    /// largest that its address is aligned to and that fits.
    pub fn add_to_heap(&mut self, start: usize, end: usize)
        requires
            old(self).wf(),
            start + 3 <= usize::MAX,
            word_up(start) <= word_down(end),
            word_up(start) + 4 <= word_down(end) ==> word_up(start) > 0,
            end <= 0xffff_ffff,
            word_down(end) - word_up(start) < pow2(ORDER as nat),
            old(self)@.total + (word_down(end) - word_up(start)) <= usize::MAX,
        ensures
            final(self).wf(),
            final(self)@ == (HeapState {
                free: after_add(old(self)@.free, word_up(start), word_down(end)),
                total: (old(self)@.total + (word_down(end) - word_up(start))) as usize,
                ..old(self)@
            }),
    {
        let first = (start + (WORD_BYTES - 1)) / WORD_BYTES * WORD_BYTES;
        let last = end / WORD_BYTES * WORD_BYTES;
        let mut total: usize = 0;
        let mut current_start = first;
        while last - current_start >= WORD_BYTES
            invariant
                self.wf(),
                first == word_up(start),
                last == word_down(end),
                first <= current_start <= last <= 0xffff_ffff,
                current_start % 4 == 0,
                last % 4 == 0,
                current_start > 0 || current_start == last,
                last - first < pow2(ORDER as nat),
                total == current_start - first,
                self@.user == old(self)@.user,
                self@.allocated == old(self)@.allocated,
                self@.total == old(self)@.total,
                after_add(self@.free, current_start as int, last as int) == after_add(
                    old(self)@.free,
                    first as int,
                    last as int,
                ),
            decreases last - current_start,
        {
            let (low_class, lowbit) = low_zero_bits_of(current_start);
            let (fit_class, fit) = floor_log2_of(last - current_start);
            let (class, size) = if lowbit <= fit {
                (low_class, lowbit)
            } else {
                (fit_class, fit)
            };
            proof {
                lemma_chunk(current_start, last, ORDER);
                lemma_pow2_order(low_class as nat, fit_class as nat);
            }
            total += size;
            self.push(class, current_start);
            current_start += size;
        }
        self.total += total;
        proof {
            assert(current_start == last);
        }
    }

    /// Hands the `size` bytes from `start` on to the heap.
    pub fn init(&mut self, start: usize, size: usize)
        requires
            old(self).wf(),
            start + size <= 0xffff_ffff,
            word_up(start) <= word_down((start + size) as usize),
            word_up(start) + 4 <= word_down((start + size) as usize) ==> word_up(start) > 0,
            word_down((start + size) as usize) - word_up(start) < pow2(ORDER as nat),
            old(self)@.total + (word_down((start + size) as usize) - word_up(start)) <= usize::MAX,
        ensures
            final(self).wf(),
            final(self)@ == (HeapState {
                free: after_add(old(self)@.free, word_up(start), word_down((start + size) as usize)),
                total: (old(self)@.total + (word_down((start + size) as usize) - word_up(start))) as usize,
                ..old(self)@
            }),
    {
        self.add_to_heap(start, start + size);
    }

    /// The size class of the block that serves a request.
    fn class_of(size: usize, align: usize) -> (r: usize)
        requires
            request_ok(size, align),
        ensures
            r == block_class(size, align),
    {
        let mut class = WORD_CLASS;
        if size > 1 {
            let c = floor_log2_of(size - 1).0 + 1;
            if c > class {
                class = c;
            }
        }
        let a = floor_log2_of(align).0;
        if a > class {
            class = a;
        }
        class
    }

    /// Takes a block for a request of `size` bytes aligned to `align`: the
    /// head of the first list, from the size class of the request on, that is
    /// not empty, split down to that class. Fails where no such list exists,
    /// and where the block so found lies at address zero.
    pub fn allocate(&mut self, size: usize, align: usize) -> (r: Result<usize, ()>)
        requires
            old(self).wf(),
            request_ok(size, align),
            can_serve(old(self)@, size, align) ==> old(self)@.user + size <= usize::MAX && old(
                self,
            )@.allocated + pow2(block_class(size, align)) <= usize::MAX,
        ensures
            final(self).wf(),
            final(self)@ == after_heap_alloc(old(self)@, size, align),
            r == (if can_serve(old(self)@, size, align) && served_block(old(self)@, size, align) != 0 {
                Ok::<usize, ()>(served_block(old(self)@, size, align))
            } else {
                Err::<usize, ()>(())
            }),
    {
        let class = Self::class_of(size, align);
        if class >= ORDER {
            return Err(());
        }
        let block_size = pow2_of(class);
        let mut i = class;
        while i < ORDER && self.free_list[i].len() == 0
            invariant
                class <= i <= ORDER,
                *self == *old(self),
                self.wf(),
                first_nonempty(self@.free, i as int) == first_nonempty(self@.free, class as int),
            decreases ORDER - i,
        {
            i += 1;
        }
        if i >= ORDER {
            return Err(());
        }
        let ghost start = self@.free;
        let ghost b = start[i as int].last();
        proof {
            assert(b + pow2(i as nat) <= usize::MAX);
            assert(self@.free =~~= split_state(start, class as int, i as int, i as int));
        }
        let mut j = i;
        while j > class
            invariant
                class <= j <= i < ORDER,
                self.wf(),
                b == start[i as int].last(),
                start.len() == ORDER,
                start[i as int].len() > 0,
                b + pow2(i as nat) <= usize::MAX,
                self@.free == split_state(start, class as int, i as int, j as int),
                self@.user == old(self)@.user,
                self@.allocated == old(self)@.allocated,
                self@.total == old(self)@.total,
            decreases j,
        {
            proof {
                lemma_pow2_unfold(j as nat);
                lemma_pow2_order((j - 1) as nat, i as nat);
                lemma_pow2_order(j as nat, i as nat);
            }
            let block = self.pop(j);
            let half = pow2_of(j - 1);
            self.push(j - 1, block + half);
            self.push(j - 1, block);
            proof {
                assert(self@.free =~~= split_state(start, class as int, i as int, j - 1));
            }
            j -= 1;
        }
        let block = self.pop(class);
        proof {
            assert(self@.free =~~= after_take(start, class as int, i as int));
        }
        if block == 0 {
            return Err(());
        }
        self.user += size;
        self.allocated += block_size;
        Ok(block)
    }

    /// Takes the occurrence of `buddy` nearest to the head off list `class`,
    /// if there is one, and tells whether there was.
    fn take_buddy(&mut self, class: usize, buddy: usize) -> (r: bool)
        requires
            old(self).wf(),
            class < ORDER,
        ensures
            final(self).wf(),
            r == (nearest_to_head(old(self)@.free[class as int], buddy as int) >= 0),
            r ==> 0 <= nearest_to_head(old(self)@.free[class as int], buddy as int) < old(
                self,
            )@.free[class as int].len() && old(self)@.free[class as int][nearest_to_head(
                old(self)@.free[class as int],
                buddy as int,
            )] == buddy && final(self)@ == (HeapState {
                free: old(self)@.free.update(
                    class as int,
                    old(self)@.free[class as int].remove(
                        nearest_to_head(old(self)@.free[class as int], buddy as int),
                    ),
                ),
                ..old(self)@
            }),
            !r ==> final(self)@ == old(self)@,
    {
        let ghost list = self@.free[class as int];
        let mut k = self.free_list[class].len();
        proof {
            assert(list.subrange(0, k as int) =~= list);
        }
        while k > 0
            invariant
                k <= list.len(),
                *self == *old(self),
                self.wf(),
                class < ORDER,
                list == self@.free[class as int],
                nearest_to_head(list, buddy as int) == nearest_to_head(list.subrange(0, k as int), buddy as int),
            decreases k,
        {
            k -= 1;
            proof {
                let part = list.subrange(0, k + 1);
                assert(part.drop_last() =~= list.subrange(0, k as int));
                assert(part.last() == list[k as int]);
            }
            if self.free_list[class][k] == buddy {
                self.free_list[class].remove(k);
                proof {
                    let pre = old(self)@;
                    let want = pre.free.update(class as int, list.remove(k as int));
                    assert(self@.free =~= want);
                    assert forall|j: int, x: int| 0 <= j < ORDER && 0 <= x < self@.free[j].len() implies #[trigger] self@.free[j][x]
                        + pow2(j as nat) <= usize::MAX by {
                        if j == class {
                            if x < k {
                                assert(self@.free[j][x] == pre.free[j][x]);
                            } else {
                                assert(self@.free[j][x] == pre.free[j][x + 1]);
                            }
                        } else {
                            assert(self@.free[j][x] == pre.free[j][x]);
                        }
                    }
                }
                return true;
            }
        }
        proof {
            assert(list.subrange(0, 0) =~= Seq::<usize>::empty());
        }
        false
    }

    /// Gives the block at `ptr` back, which served a request of `size` bytes
    /// aligned to `align`, and joins it with its buddies as far as they are free.
    pub fn dealloc(&mut self, ptr: usize, size: usize, align: usize)
        requires
            old(self).wf(),
            request_ok(size, align),
            block_class(size, align) < ORDER,
            ptr + pow2(block_class(size, align)) <= usize::MAX,
            old(self)@.user >= size,
            old(self)@.allocated >= pow2(block_class(size, align)),
        ensures
            final(self).wf(),
            final(self)@ == after_heap_dealloc(old(self)@, ptr, size, align),
    {
        let class = Self::class_of(size, align);
        let block_size = pow2_of(class);
        self.push(class, ptr);
        let ghost pushed_state = self@.free;
        let mut current_ptr = ptr;
        let mut current_class = class;
        let mut joining = true;
        while joining && current_class < ORDER - 1
            invariant
                class <= current_class < ORDER,
                self.wf(),
                self@.free[current_class as int].len() > 0,
                self@.free[current_class as int].last() == current_ptr,
                self@.user == old(self)@.user,
                self@.allocated == old(self)@.allocated,
                self@.total == old(self)@.total,
                !joining ==> after_merge(self@.free, current_ptr, current_class as int) == self@.free,
                after_merge(self@.free, current_ptr, current_class as int) == after_merge(
                    pushed_state,
                    ptr,
                    class as int,
                ),
            decreases ORDER - current_class, (if joining { 1int } else { 0int }),
        {
            let p = pow2_of(current_class);
            let ghost list = self@.free[current_class as int];
            let ghost before = self@.free;
            proof {
                assert(list[list.len() - 1] + pow2(current_class as nat) <= usize::MAX);
                vstd::arithmetic::div_mod::lemma_fundamental_div_mod(current_ptr as int, p as int);
                if (current_ptr / p) % 2 != 0 {
                    assert(current_ptr >= p) by (nonlinear_arith)
                        requires
                            current_ptr == p * (current_ptr / p) + current_ptr % p,
                            current_ptr / p >= 1,
                            current_ptr % p >= 0,
                            p > 0,
                    ;
                }
            }
            let buddy = if (current_ptr / p) % 2 == 0 {
                current_ptr + p
            } else {
                current_ptr - p
            };
            if self.take_buddy(current_class, buddy) {
                let ghost k = nearest_to_head(list, buddy as int);
                proof {
                    assert(list[k] + pow2(current_class as nat) <= usize::MAX);
                    lemma_nearest_is_last(list, buddy as int);
                    assert(k < list.len() - 1);
                    lemma_pow2_unfold((current_class + 1) as nat);
                }
                let head = self.pop(current_class);
                let joined = if buddy < current_ptr {
                    buddy
                } else {
                    current_ptr
                };
                current_class += 1;
                self.push(current_class, joined);
                current_ptr = joined;
                proof {
                    let want = pushed(
                        before.update(current_class - 1, list.remove(k).drop_last()),
                        current_class as int,
                        joined,
                    );
                    assert(self@.free =~~= want);
                }
            } else {
                joining = false;
            }
        }
        self.user -= size;
        self.allocated -= block_size;
    }

    /// Puts `block` at the head of list `class`.
    fn push(&mut self, class: usize, block: usize)
        requires
            old(self).wf(),
            class < ORDER,
            block + pow2(class as nat) <= usize::MAX,
        ensures
            final(self).wf(),
            final(self)@ == (HeapState { free: pushed(old(self)@.free, class as int, block), ..old(self)@ }),
    {
        self.free_list[class].push(block);
        proof {
            let want = pushed(old(self)@.free, class as int, block);
            assert(self@.free =~= want);
            assert forall|j: int, k: int| 0 <= j < ORDER && 0 <= k < self@.free[j].len() implies #[trigger] self@.free[j][k]
                + pow2(j as nat) <= usize::MAX by {
                if j == class && k == old(self)@.free[j].len() {
                } else {
                    assert(self@.free[j][k] == old(self)@.free[j][k]);
                }
            }
        }
    }
}

/// The heap in its role as the allocator of the kernel.
pub struct HeapAllocator<const ORDER: usize>(pub Heap<ORDER>);

impl<const ORDER: usize> HeapAllocator<ORDER> {
    /// An allocator that manages no memory yet.
    pub fn empty() -> (r: Self)
        requires
            1 <= ORDER <= MAX_ORDER,
        ensures
            r.0.wf(),
            r.0@.user == 0,
            r.0@.allocated == 0,
            r.0@.total == 0,
            forall|j: int| 0 <= j < ORDER ==> r.0@.free[j] == Seq::<usize>::empty(),
    {
        Self(Heap::<ORDER>::empty())
    }

    /// Hands the `size` bytes from `start` on to the allocator.
    pub fn init(&mut self, start: usize, size: usize)
        requires
            old(self).0.wf(),
            start + size <= 0xffff_ffff,
            word_up(start) <= word_down((start + size) as usize),
            word_up(start) + 4 <= word_down((start + size) as usize) ==> word_up(start) > 0,
            word_down((start + size) as usize) - word_up(start) < pow2(ORDER as nat),
            old(self).0@.total + (word_down((start + size) as usize) - word_up(start)) <= usize::MAX,
        ensures
            final(self).0.wf(),
            final(self).0@ == (HeapState {
                free: after_add(old(self).0@.free, word_up(start), word_down((start + size) as usize)),
                total: (old(self).0@.total + (word_down((start + size) as usize) - word_up(start))) as usize,
                ..old(self).0@
            }),
    {
        self.0.init(start, size);
    }
}

} // verus!
