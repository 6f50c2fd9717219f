//! Semaphores that never block.

use vstd::prelude::*;

verus! {

/// Number of semaphores.
pub const SEM_NUM: usize = 128;

/// The semaphores: a counter for each, and a mark that tells whether the
/// slot is free (1) or open (0).
pub struct SemManager {
    sems: Vec<isize>,
    free: [u8; SEM_NUM],
}

/// The mathematical state of the semaphores.
pub struct SemState {
    pub values: Seq<isize>,
    pub free: Seq<u8>,
}

impl View for SemManager {
    type V = SemState;

    closed spec fn view(&self) -> SemState {
        SemState { values: self.sems@, free: self.free@ }
    }
}

/// What `sem_open` leaves: a free slot takes the value and becomes open, an
/// open slot stays as it is.
pub open spec fn after_sem_open(s: SemState, ind: int, v: isize) -> SemState {
    if s.free[ind] == 1 {
        SemState { values: s.values.update(ind, v), free: s.free.update(ind, 0) }
    } else {
        s
    }
}

/// What a non-blocking wait leaves: a counter other than zero goes down by one.
pub open spec fn after_sem_wait(s: SemState, ind: int) -> SemState {
    if s.values[ind] == 0 {
        s
    } else {
        SemState { values: s.values.update(ind, (s.values[ind] - 1) as isize), ..s }
    }
}

/// What a post leaves: the counter goes up by one.
pub open spec fn after_sem_post(s: SemState, ind: int) -> SemState {
    SemState { values: s.values.update(ind, (s.values[ind] + 1) as isize), ..s }
}

impl SemManager {
    /// All 128 counters exist.
    pub open spec fn wf(&self) -> bool {
        &&& self@.values.len() == SEM_NUM
        &&& self@.free.len() == SEM_NUM
    }

    /// Creates the manager with every slot marked free and no counter yet.
    pub fn new() -> (r: Self)
        ensures
            r@.values.len() == 0,
            r@.free.len() == SEM_NUM,
            forall|i: int| 0 <= i < SEM_NUM ==> r@.free[i] == 1,
    {
        SemManager { sems: Vec::new(), free: [1; SEM_NUM] }
    }

    /// Makes the counters 128 in number: those that exist stay as they are,
    /// those that are missing start at zero.
    pub fn init(&mut self)
        ensures
            final(self).wf(),
            final(self)@.free == old(self)@.free,
            forall|i: int|
                0 <= i < SEM_NUM && i < old(self)@.values.len() ==> final(self)@.values[i] == old(
                    self,
                )@.values[i],
            forall|i: int| old(self)@.values.len() <= i < SEM_NUM ==> final(self)@.values[i] == 0,
    {
        self.sems.truncate(SEM_NUM);
        while self.sems.len() < SEM_NUM
            invariant
                self.sems@.len() <= SEM_NUM,
                self.free == old(self).free,
                self.sems@.len() >= old(self)@.values.len() || self.sems@.len() == SEM_NUM,
                forall|i: int|
                    0 <= i < self.sems@.len() && i < old(self)@.values.len() ==> self.sems@[i] == old(
                        self,
                    )@.values[i],
                forall|i: int| old(self)@.values.len() <= i < self.sems@.len() ==> self.sems@[i] == 0,
            decreases SEM_NUM - self.sems@.len(),
        {
            self.sems.push(0);
        }
    }

    /// The counter of semaphore `ind`.
    pub fn get(&self, ind: usize) -> (r: isize)
        requires
            self.wf(),
            ind < SEM_NUM,
        ensures
            r == self@.values[ind as int],
    {
        self.sems[ind]
    }

    /// Whether slot `ind` is free.
    pub fn is_free(&self, ind: usize) -> (r: bool)
        requires
            self.wf(),
            ind < SEM_NUM,
        ensures
            r == (self@.free[ind as int] == 1),
    {
        self.free[ind] == 1
    }

    /// Opens semaphore `ind` with value `v` if the slot is free.
    pub fn sem_open(&mut self, ind: usize, v: isize)
        requires
            old(self).wf(),
            ind < SEM_NUM,
        ensures
            final(self).wf(),
            final(self)@ == after_sem_open(old(self)@, ind as int, v),
    {
        if self.free[ind] == 1 {
            self.sems.set(ind, v);
            self.free[ind] = 0;
        }
    }

    /// Marks slot `ind` free.
    pub fn sem_free(&mut self, ind: usize)
        requires
            old(self).wf(),
            ind < SEM_NUM,
        ensures
            final(self).wf(),
            final(self)@ == (SemState { free: old(self)@.free.update(ind as int, 1), ..old(self)@ }),
    {
        self.free[ind] = 1;
    }

    /// Takes one unit of semaphore `ind` without waiting: returns 1 and
    /// changes nothing where the counter is zero, else lowers it and returns 0.
    pub fn sem_wait(&mut self, ind: usize) -> (r: i32)
        requires
            old(self).wf(),
            ind < SEM_NUM,
            old(self)@.values[ind as int] > isize::MIN,
        ensures
            final(self).wf(),
            final(self)@ == after_sem_wait(old(self)@, ind as int),
            r == (if old(self)@.values[ind as int] == 0 {
                1i32
            } else {
                0i32
            }),
    {
        let current = self.sems[ind];
        if current == 0 {
            1
        } else {
            self.sems.set(ind, current - 1);
            0
        }
    }

    /// Adds one unit to semaphore `ind`.
    pub fn sem_post(&mut self, ind: usize)
        requires
            old(self).wf(),
            ind < SEM_NUM,
            old(self)@.values[ind as int] < isize::MAX,
        ensures
            final(self).wf(),
            final(self)@ == after_sem_post(old(self)@, ind as int),
    {
        let current = self.sems[ind];
        self.sems.set(ind, current + 1);
    }
}

/// Sets the semaphores up: makes the counters 128 in number.
pub fn init(sm: &mut SemManager)
    ensures
        final(sm).wf(),
        final(sm)@.free == old(sm)@.free,
        forall|i: int|
            0 <= i < SEM_NUM && i < old(sm)@.values.len() ==> final(sm)@.values[i] == old(sm)@.values[i],
        forall|i: int| old(sm)@.values.len() <= i < SEM_NUM ==> final(sm)@.values[i] == 0,
{
    sm.init();
}

} // verus!
