//! A doubly linked list over slot numbers, with links held in arrays.

use vstd::prelude::*;

verus! {

/// Bytes that one link occupies on the target machine.
pub const LINK_BYTES: usize = 8;

/// A doubly linked list over the slot numbers `0..n`, with links held in two
/// arrays indexed by slot. Slot `n` is the head sentinel and slot `n + 1` the
/// tail sentinel. Each slot is on the list at most once; insertion and
/// removal take constant time.
pub struct IndexLink {
    n: usize,
    le_next: Vec<Option<usize>>,
    le_prev: Vec<Option<usize>>,
    rem: usize,
    order: Ghost<Seq<usize>>,
}

/// A cursor over an `IndexLink`, from the first element to the last.
pub struct IndexIterator<'a> {
    index_link: &'a IndexLink,
    index: usize,
}

impl View for IndexLink {
    type V = Seq<usize>;

    /// The slots on the list, first to last.
    closed spec fn view(&self) -> Seq<usize> {
        self.order@
    }
}

impl IndexLink {
    /// The number of slots that the list ranges over.
    pub closed spec fn spec_n(&self) -> usize {
        self.n
    }

    /// The slot at position `i`, where position -1 is the head sentinel and
    /// position `len` the tail sentinel.
    pub open spec fn node_at(&self, i: int) -> usize {
        if i < 0 {
            self.spec_n()
        } else if i >= self@.len() {
            (self.spec_n() + 1) as usize
        } else {
            self@[i]
        }
    }

    /// The position of slot `e`: -1 for the head sentinel, `len` for the tail
    /// sentinel, else its index among the elements.
    pub open spec fn spec_pos(&self, e: usize) -> int {
        if e == self.spec_n() {
            -1
        } else if e == self.spec_n() + 1 {
            self@.len() as int
        } else {
            self@.index_of(e)
        }
    }

    /// Whether `e` is an element of the list.
    pub open spec fn contains(&self, e: usize) -> bool {
        self@.contains(e)
    }

    /// A list before `init`: no slots and no link arrays.
    pub closed spec fn is_unset(&self) -> bool {
        &&& self.n == 0
        &&& self.le_next@.len() == 0
        &&& self.le_prev@.len() == 0
        &&& self.rem == 0
        &&& self.order@.len() == 0
    }

    /// The links describe exactly the elements of the view, each slot at most once.
    pub closed spec fn wf(&self) -> bool {
        &&& self.n + 2 <= usize::MAX
        &&& self.le_next@.len() == self.n + 2
        &&& self.le_prev@.len() == self.n + 2
        &&& self.rem == self.order@.len()
        &&& self.order@.no_duplicates()
        &&& forall|i: int| 0 <= i < self.order@.len() ==> #[trigger] self.order@[i] < self.n
        &&& forall|i: int| -1 <= i < self.order@.len() ==> #[trigger] self.link_ok(i)
        &&& self.le_prev@[self.n as int] == None::<usize>
        &&& self.le_next@[self.n + 1] == None::<usize>
        &&& forall|e: int|
            0 <= e < self.n && !self.order@.contains(e as usize) ==> (#[trigger] self.le_next@[e])
                == None::<usize> && self.le_prev@[e] == None::<usize>
    }

    /// The slots at positions `i` and `i + 1` point at each other.
    pub closed spec fn link_ok(&self, i: int) -> bool {
        &&& self.le_next@[self.node_at(i) as int] == Some(self.node_at(i + 1))
        &&& self.le_prev@[self.node_at(i + 1) as int] == Some(self.node_at(i))
    }

    /// Different positions hold different slots.
    proof fn lemma_node_distinct(&self, i: int, j: int)
        requires
            self.wf(),
            -1 <= i <= self.order@.len(),
            -1 <= j <= self.order@.len(),
            i != j,
        ensures
            self.node_at(i) != self.node_at(j),
            0 <= i < self.order@.len() ==> self.node_at(i) < self.n,
    {
        if 0 <= i < self.order@.len() {
            assert(self.order@[i] < self.n);
        }
        if 0 <= j < self.order@.len() {
            assert(self.order@[j] < self.n);
        }
    }

    /// A well-formed list holds distinct slots below `n`.
    pub proof fn lemma_wf_elements(&self)
        requires
            self.wf(),
        ensures
            self@.no_duplicates(),
            self@.len() <= self.spec_n(),
            forall|i: int| 0 <= i < self@.len() ==> #[trigger] self@[i] < self.spec_n(),
            forall|e: usize| self.contains(e) ==> e < self.spec_n(),
    {
        let s = self.order@;
        assert forall|e: usize| self.contains(e) implies e < self.spec_n() by {
            let i = choose|i: int| 0 <= i < s.len() && s[i] == e;
            assert(s[i] < self.n);
        }
        let n = self.n;
        let set = s.to_set();
        vstd::seq_lib::seq_to_set_is_finite(s);
        s.unique_seq_to_set();
        let below = Set::new(|e: usize| e < n);
        assert(set.subset_of(below)) by {
            assert forall|e: usize| set.contains(e) implies below.contains(e) by {
                assert(s.contains(e));
            }
        }
        lemma_usize_below_finite(n);
        vstd::set_lib::lemma_len_subset(set, below);
    }

    /// Creates a list that `init` has not been called on yet: it ranges over
    /// no slots and has no element.
    pub fn new() -> (r: Self)
        ensures
            r.is_unset(),
            r.spec_n() == 0,
            r@ == Seq::<usize>::empty(),
    {
        IndexLink { n: 0, le_next: Vec::new(), le_prev: Vec::new(), rem: 0, order: Ghost(Seq::empty()) }
    }

    /// Makes this an empty list over the slots `0..n`.
    pub fn init(&mut self, n: usize)
        requires
            n + 2 <= usize::MAX,
        ensures
            final(self).wf(),
            final(self).spec_n() == n,
            final(self)@ == Seq::<usize>::empty(),
    {
        self.n = n;
        let occupied = n + 2;
        let mut next: Vec<Option<usize>> = Vec::new();
        let mut prev: Vec<Option<usize>> = Vec::new();
        let mut i: usize = 0;
        while i < occupied
            invariant
                i <= occupied,
                next@.len() == i,
                prev@.len() == i,
                forall|j: int| 0 <= j < i ==> next@[j] == None::<usize>,
                forall|j: int| 0 <= j < i ==> prev@[j] == None::<usize>,
            decreases occupied - i,
        {
            next.push(None);
            prev.push(None);
            i += 1;
        }
        next.set(n, Some(n + 1));
        prev.set(n + 1, Some(n));
        self.le_next = next;
        self.le_prev = prev;
        self.rem = 0;
        self.order = Ghost(Seq::empty());
        proof {
            assert(self.node_at(-1) == n);
            assert(self.node_at(0) == n + 1);
            assert(self.link_ok(-1));
        }
    }

    /// Whether the list has no element.
    pub fn is_empty(&self) -> (r: bool)
        requires
            self.wf(),
        ensures
            r == (self@.len() == 0),
    {
        proof {
            assert(self.link_ok(-1));
            if self@.len() > 0 {
                assert(self.order@[0] < self.n);
            }
        }
        match self.le_next[self.n] {
            Some(x) => x == self.n + 1,
            None => false,
        }
    }

    /// The first element; `None` where the list is empty.
    pub fn first(&self) -> (r: Option<usize>)
        requires
            self.wf(),
        ensures
            r == (if self@.len() > 0 {
                Some(self@[0])
            } else {
                None
            }),
    {
        proof {
            assert(self.link_ok(-1));
            if self@.len() > 0 {
                assert(self.order@[0] < self.n);
            }
        }
        match self.le_next[self.n] {
            Some(x) => if x == self.n + 1 {
                None
            } else {
                Some(x)
            },
            None => None,
        }
    }

    /// Inserts `elm` right after `listelm`, which is an element or the head sentinel.
    pub fn insert_after(&mut self, listelm: usize, elm: usize)
        requires
            old(self).wf(),
            old(self).contains(listelm) || listelm == old(self).spec_n(),
            elm < old(self).spec_n(),
            !old(self).contains(elm),
        ensures
            final(self).wf(),
            final(self).spec_n() == old(self).spec_n(),
            final(self)@ == old(self)@.insert(old(self).spec_pos(listelm) + 1, elm),
    {
        let ghost pre = *self;
        let ghost k = self.spec_pos(listelm);
        proof {
            self.lemma_wf_elements();
            if listelm != self.n {
                self.order@.index_of_first_ensures(listelm);
                assert(0 <= k < self.order@.len());
                assert(self.order@[k] == listelm);
            }
            assert(self.node_at(k) == listelm);
            assert(self.link_ok(k));
        }
        let after = self.le_next[listelm];
        self.le_next.set(elm, after);
        if let Some(x) = after {
            self.le_prev.set(x, Some(elm));
        }
        self.le_next.set(listelm, Some(elm));
        self.le_prev.set(elm, Some(listelm));
        self.rem += 1;
        self.order = Ghost(pre.order@.insert(k + 1, elm));
        proof {
            pre.lemma_insert_keeps_wf(*self, k, elm);
        }
    }

    /// Inserts `elm` right before `listelm`, which is an element or the tail sentinel.
    pub fn insert_before(&mut self, listelm: usize, elm: usize)
        requires
            old(self).wf(),
            old(self).contains(listelm) || listelm == old(self).spec_n() + 1,
            elm < old(self).spec_n(),
            !old(self).contains(elm),
        ensures
            final(self).wf(),
            final(self).spec_n() == old(self).spec_n(),
            final(self)@ == old(self)@.insert(old(self).spec_pos(listelm), elm),
    {
        let ghost pre = *self;
        let ghost k = self.spec_pos(listelm);
        proof {
            self.lemma_wf_elements();
            if listelm != self.n + 1 {
                self.order@.index_of_first_ensures(listelm);
                assert(0 <= k < self.order@.len());
                assert(self.order@[k] == listelm);
            }
            assert(self.node_at(k) == listelm);
            assert(self.link_ok(k - 1));
        }
        let before = self.le_prev[listelm];
        self.le_prev.set(elm, before);
        self.le_next.set(elm, Some(listelm));
        if let Some(x) = before {
            self.le_next.set(x, Some(elm));
        }
        self.le_prev.set(listelm, Some(elm));
        self.rem += 1;
        self.order = Ghost(pre.order@.insert(k, elm));
        proof {
            pre.lemma_insert_keeps_wf(*self, k - 1, elm);
        }
    }

    /// After the four link updates of an insertion behind position `k`, the
    /// list is well formed again.
    proof fn lemma_insert_keeps_wf(self, post: Self, k: int, elm: usize)
        requires
            self.wf(),
            -1 <= k < self.order@.len(),
            elm < self.n,
            !self.order@.contains(elm),
            post.n == self.n,
            post.rem == self.rem + 1,
            post.order@ == self.order@.insert(k + 1, elm),
            post.le_next@ =~= self.le_next@.update(elm as int, Some(self.node_at(k + 1))).update(
                self.node_at(k) as int,
                Some(elm),
            ),
            post.le_prev@ =~= self.le_prev@.update(self.node_at(k + 1) as int, Some(elm)).update(
                elm as int,
                Some(self.node_at(k)),
            ),
        ensures
            post.wf(),
    {
        let s = self.order@;
        let t = post.order@;
        let n = self.n;
        assert(t.len() == s.len() + 1);
        assert forall|i: int| 0 <= i < s.len() implies #[trigger] s[i] != elm by {
            if s[i] == elm {
                assert(s.contains(elm));
            }
        }
        assert(t.no_duplicates()) by {
            assert forall|i: int, j: int| 0 <= i < t.len() && 0 <= j < t.len() && i != j implies t[i]
                != t[j] by {
                let si = if i <= k { i } else { i - 1 };
                let sj = if j <= k { j } else { j - 1 };
                if i != k + 1 && j != k + 1 {
                    assert(t[i] == s[si]);
                    assert(t[j] == s[sj]);
                    assert(si != sj);
                } else if i == k + 1 {
                    assert(t[j] == s[sj]);
                } else {
                    assert(t[i] == s[si]);
                }
            }
        }
        assert forall|i: int| 0 <= i < t.len() implies #[trigger] t[i] < post.n by {
            if i <= k {
                assert(t[i] == s[i]);
            } else if i > k + 1 {
                assert(t[i] == s[i - 1]);
            }
        }
        self.lemma_node_distinct(k, k + 1);
        assert(self.link_ok(k));
        assert forall|i: int| -1 <= i < t.len() implies #[trigger] post.link_ok(i) by {
            if i < k {
                assert(self.link_ok(i));
                self.lemma_node_distinct(i, k);
                self.lemma_node_distinct(i + 1, k + 1);
                self.lemma_node_distinct(i, k + 1);
                assert(post.node_at(i) == self.node_at(i));
                assert(post.node_at(i + 1) == self.node_at(i + 1));
                if 0 <= i {
                    assert(s[i] != elm);
                }
                if 0 <= i + 1 < s.len() {
                    assert(s[i + 1] != elm);
                }
            } else if i == k {
                assert(post.node_at(i) == self.node_at(k));
                assert(post.node_at(i + 1) == elm);
            } else if i == k + 1 {
                assert(post.node_at(i) == elm);
                assert(post.node_at(i + 1) == self.node_at(k + 1));
            } else {
                assert(self.link_ok(i - 1));
                self.lemma_node_distinct(i - 1, k);
                self.lemma_node_distinct(i, k + 1);
                assert(post.node_at(i) == self.node_at(i - 1));
                assert(post.node_at(i + 1) == self.node_at(i));
                if i - 1 < s.len() {
                    assert(s[i - 1] != elm);
                }
                if i < s.len() {
                    assert(s[i] != elm);
                }
            }
        }
        assert(self.node_at(-1) == n);
        assert(self.node_at(s.len() as int) == n + 1);
        if k + 1 < s.len() {
            assert(s[k + 1] < n);
        }
        if 0 <= k {
            assert(s[k] < n);
        }
        assert forall|e: int| 0 <= e < post.n && !t.contains(e as usize) implies (
        #[trigger] post.le_next@[e]) == None::<usize> && post.le_prev@[e] == None::<usize> by {
            assert(t[k + 1] == elm);
            assert(e != elm);
            if s.contains(e as usize) {
                let i = choose|i: int| 0 <= i < s.len() && s[i] == e as usize;
                if i <= k {
                    assert(t[i] == s[i]);
                } else {
                    assert(t[i + 1] == s[i]);
                }
                assert(false);
            }
            assert(self.le_next@[e] == None::<usize>);
            if 0 <= k {
                assert(s.contains(s[k]));
            }
            if k + 1 < s.len() {
                assert(s.contains(s[k + 1]));
            }
        }
    }

    /// Inserts `elm` as the first element.
    pub fn insert_head(&mut self, elm: usize)
        requires
            old(self).wf(),
            elm < old(self).spec_n(),
            !old(self).contains(elm),
        ensures
            final(self).wf(),
            final(self).spec_n() == old(self).spec_n(),
            final(self)@ == seq![elm] + old(self)@,
    {
        let head = self.n;
        self.insert_after(head, elm);
        proof {
            assert(old(self)@.insert(0, elm) =~= seq![elm] + old(self)@);
        }
    }

    /// Inserts `elm` as the last element.
    pub fn insert_tail(&mut self, elm: usize)
        requires
            old(self).wf(),
            elm < old(self).spec_n(),
            !old(self).contains(elm),
        ensures
            final(self).wf(),
            final(self).spec_n() == old(self).spec_n(),
            final(self)@ == old(self)@.push(elm),
    {
        let tail = self.n + 1;
        self.insert_before(tail, elm);
        proof {
            assert(old(self)@.insert(old(self)@.len() as int, elm) =~= old(self)@.push(elm));
        }
    }

    /// Takes the element `elm` off the list.
    pub fn remove(&mut self, elm: usize)
        requires
            old(self).wf(),
            old(self).contains(elm),
        ensures
            final(self).wf(),
            final(self).spec_n() == old(self).spec_n(),
            final(self)@ == old(self)@.remove(old(self)@.index_of(elm)),
            !final(self).contains(elm),
            forall|e: usize| e != elm ==> final(self).contains(e) == old(self).contains(e),
    {
        let ghost pre = *self;
        let ghost k = self.order@.index_of(elm);
        proof {
            self.lemma_wf_elements();
            self.order@.index_of_first_ensures(elm);
            assert(self.order@[k] == elm);
            assert(self.node_at(k) == elm);
            assert(self.link_ok(k));
            assert(self.link_ok(k - 1));
        }
        let after = self.le_next[elm];
        let before = self.le_prev[elm];
        if let Some(x) = after {
            self.le_prev.set(x, before);
        }
        if let Some(x) = before {
            self.le_next.set(x, after);
        }
        self.le_next.set(elm, None);
        self.le_prev.set(elm, None);
        self.rem -= 1;
        self.order = Ghost(pre.order@.remove(k));
        proof {
            pre.lemma_remove_keeps_wf(*self, k);
            let s = pre.order@;
            let t = self.order@;
            assert forall|e: usize| e != elm implies t.contains(e) == s.contains(e) by {
                if s.contains(e) {
                    let i = choose|i: int| 0 <= i < s.len() && s[i] == e;
                    if i < k {
                        assert(t[i] == e);
                    } else {
                        assert(t[i - 1] == e);
                    }
                }
                if t.contains(e) {
                    let i = choose|i: int| 0 <= i < t.len() && t[i] == e;
                    if i < k {
                        assert(s[i] == e);
                    } else {
                        assert(s[i + 1] == e);
                    }
                }
            }
            if t.contains(elm) {
                let i = choose|i: int| 0 <= i < t.len() && t[i] == elm;
                if i < k {
                    assert(s[i] == elm);
                } else {
                    assert(s[i + 1] == elm);
                }
                assert(false);
            }
        }
    }

    /// After the link updates of a removal at position `k`, the list is well
    /// formed again.
    proof fn lemma_remove_keeps_wf(self, post: Self, k: int)
        requires
            self.wf(),
            0 <= k < self.order@.len(),
            post.n == self.n,
            post.rem == self.rem - 1,
            post.order@ == self.order@.remove(k),
            post.le_next@ =~= self.le_next@.update(
                self.node_at(k - 1) as int,
                Some(self.node_at(k + 1)),
            ).update(self.node_at(k) as int, None),
            post.le_prev@ =~= self.le_prev@.update(
                self.node_at(k + 1) as int,
                Some(self.node_at(k - 1)),
            ).update(self.node_at(k) as int, None),
        ensures
            post.wf(),
    {
        let s = self.order@;
        let t = post.order@;
        let n = self.n;
        assert(t.len() == s.len() - 1);
        assert(t.no_duplicates()) by {
            assert forall|i: int, j: int| 0 <= i < t.len() && 0 <= j < t.len() && i != j implies t[i]
                != t[j] by {
                let si = if i < k { i } else { i + 1 };
                let sj = if j < k { j } else { j + 1 };
                assert(t[i] == s[si]);
                assert(t[j] == s[sj]);
            }
        }
        assert forall|i: int| 0 <= i < t.len() implies #[trigger] t[i] < post.n by {
            if i < k {
                assert(t[i] == s[i]);
            } else {
                assert(t[i] == s[i + 1]);
            }
        }
        self.lemma_node_distinct(k - 1, k);
        self.lemma_node_distinct(k + 1, k);
        self.lemma_node_distinct(k - 1, k + 1);
        assert(self.link_ok(k - 1));
        assert(self.link_ok(k));
        assert forall|i: int| -1 <= i < t.len() implies #[trigger] post.link_ok(i) by {
            if i < k - 1 {
                assert(self.link_ok(i));
                self.lemma_node_distinct(i, k - 1);
                self.lemma_node_distinct(i, k);
                self.lemma_node_distinct(i + 1, k);
                self.lemma_node_distinct(i + 1, k + 1);
                assert(post.node_at(i) == self.node_at(i));
                assert(post.node_at(i + 1) == self.node_at(i + 1));
            } else if i == k - 1 {
                assert(post.node_at(i) == self.node_at(k - 1));
                assert(post.node_at(i + 1) == self.node_at(k + 1));
            } else {
                assert(self.link_ok(i + 1));
                self.lemma_node_distinct(i + 1, k - 1);
                self.lemma_node_distinct(i + 1, k);
                self.lemma_node_distinct(i + 2, k);
                self.lemma_node_distinct(i + 2, k + 1);
                assert(post.node_at(i) == self.node_at(i + 1));
                assert(post.node_at(i + 1) == self.node_at(i + 2));
            }
        }
        assert(self.node_at(-1) == n);
        assert(self.node_at(s.len() as int) == n + 1);
        assert(s[k] < n);
        if k + 1 < s.len() {
            assert(s[k + 1] < n);
        }
        if 0 <= k - 1 {
            assert(s[k - 1] < n);
        }
        assert forall|e: int| 0 <= e < post.n && !t.contains(e as usize) implies (
        #[trigger] post.le_next@[e]) == None::<usize> && post.le_prev@[e] == None::<usize> by {
            if e != s[k] {
                if s.contains(e as usize) {
                    let i = choose|i: int| 0 <= i < s.len() && s[i] == e as usize;
                    if i < k {
                        assert(t[i] == s[i]);
                    } else {
                        assert(t[i - 1] == s[i]);
                    }
                    assert(false);
                }
                assert(self.le_next@[e] == None::<usize>);
                if 0 <= k - 1 {
                    assert(s.contains(s[k - 1]));
                }
                if k + 1 < s.len() {
                    assert(s.contains(s[k + 1]));
                }
            }
        }
    }

    /// A cursor placed before the first element.
    pub fn iter(&self) -> (it: IndexIterator<'_>)
        requires
            self.wf(),
        ensures
            it.wf(),
            it.list() == self,
            it.pos() == 0,
    {
        IndexIterator { index_link: self, index: self.n }
    }

    /// Bytes that the two link arrays of a list over `len` slots occupy on the target.
    pub fn get_size_for(len: usize) -> (r: usize)
        requires
            (len + 2) * LINK_BYTES * 2 <= usize::MAX,
        ensures
            r == (len + 2) * LINK_BYTES * 2,
    {
        (len + 2) * LINK_BYTES * 2
    }

    /// Whether slot `e` is an element of the list.
    pub fn holds(&self, e: usize) -> (r: bool)
        requires
            self.wf(),
            e < self.spec_n(),
        ensures
            r == self.contains(e),
    {
        proof {
            if self.order@.contains(e) {
                let i = choose|i: int| 0 <= i < self.order@.len() && self.order@[i] == e;
                assert(self.node_at(i) == e);
                assert(self.link_ok(i));
            }
        }
        self.le_next[e].is_some()
    }

    /// The number of elements.
    pub fn len(&self) -> (r: usize)
        requires
            self.wf(),
        ensures
            r == self@.len(),
    {
        self.rem
    }

    /// The elements, first to last.
    pub fn to_vec(&self) -> (r: Vec<usize>)
        requires
            self.wf(),
        ensures
            r@ == self@,
    {
        let mut out: Vec<usize> = Vec::new();
        let mut it = self.iter();
        let mut k: usize = 0;
        proof {
            self.lemma_wf_elements();
        }
        while k < self.rem
            invariant
                self.wf(),
                it.wf(),
                it.list() == self,
                it.pos() == k,
                k <= self@.len(),
                self.rem == self@.len(),
                out@ == self@.subrange(0, k as int),
            decreases self.rem - k,
        {
            match it.next() {
                Some(x) => {
                    out.push(x);
                    proof {
                        assert(out@ =~= self@.subrange(0, k + 1));
                    }
                },
                None => {},
            }
            k += 1;
        }
        proof {
            assert(self@.subrange(0, k as int) =~= self@);
        }
        out
    }
}

impl<'a> IndexIterator<'a> {
    /// The list that the cursor walks.
    pub closed spec fn list(&self) -> &IndexLink {
        self.index_link
    }

    /// How many elements the cursor has passed.
    pub closed spec fn pos(&self) -> int {
        self.index_link.spec_pos(self.index) + 1
    }

    /// The cursor stands on the head sentinel or on an element of a well-formed list.
    pub closed spec fn wf(&self) -> bool {
        &&& self.index_link.wf()
        &&& (self.index == self.index_link.n || self.index_link.order@.contains(self.index))
    }

    /// Steps to the next element and returns it; `None` at the end of the list.
    pub fn next(&mut self) -> (r: Option<usize>)
        requires
            old(self).wf(),
        ensures
            final(self).wf(),
            final(self).list() == old(self).list(),
            0 <= old(self).pos() <= old(self).list()@.len(),
            old(self).pos() < old(self).list()@.len() ==> r == Some(
                old(self).list()@[old(self).pos()],
            ) && final(self).pos() == old(self).pos() + 1,
            old(self).pos() >= old(self).list()@.len() ==> r.is_none() && final(self).pos() == old(
                self,
            ).pos(),
    {
        let ghost l = *self.index_link;
        let ghost k = l.spec_pos(self.index);
        proof {
            l.lemma_wf_elements();
            if self.index != l.n {
                l.order@.index_of_first_ensures(self.index);
                assert(l.order@[k] == self.index);
            }
            assert(l.node_at(k) == self.index);
            assert(l.link_ok(k));
        }
        match self.index_link.le_next[self.index] {
            Some(x) => {
                if x == self.index_link.n + 1 {
                    proof {
                        if k + 1 < l.order@.len() {
                            assert(l.order@[k + 1] < l.n);
                        }
                    }
                    None
                } else {
                    proof {
                        assert(k + 1 < l.order@.len());
                        assert(l.order@.contains(x));
                        l.order@.index_of_first_ensures(x);
                        let j = l.order@.index_of(x);
                        assert(l.order@[j] == l.order@[k + 1]);
                    }
                    self.index = x;
                    Some(x)
                }
            },
            None => None,
        }
    }
}

/// The set of machine words below `n` is finite and has `n` members.
pub proof fn lemma_usize_below_finite(n: usize)
    ensures
        Set::new(|e: usize| e < n).finite(),
        Set::new(|e: usize| e < n).len() == n,
    decreases n,
{
    let s = Set::new(|e: usize| e < n);
    if n == 0 {
        assert(s =~= Set::<usize>::empty());
    } else {
        let m = (n - 1) as usize;
        lemma_usize_below_finite(m);
        let p = Set::new(|e: usize| e < m);
        assert(s =~= p.insert(m));
    }
}

} // verus!
