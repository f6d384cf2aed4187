//! The pool of workers that connections are handed to.
//!
//! A worker takes one job and is never handed another: once all workers
//! have been claimed, later jobs find no worker.

use vstd::prelude::*;

verus! {

/// The number of workers a pool starts with.
pub const POOL_SIZE: usize = 10;

/// One worker, free or busy.
struct Worker {
    is_available: bool,
}

impl Worker {
    /// Whether the worker is free.
    fn can_work(&self) -> (r: bool)
        ensures
            r == self.is_available,
    {
        self.is_available
    }

    /// Marks the worker busy.
    fn do_work(&mut self)
        ensures
            !final(self).is_available,
    {
        self.is_available = false;
    }
}

/// A fixed set of workers.
pub struct Pool {
    capacity: usize,
    workers: Vec<Worker>,
}

/// The first free worker.
pub open spec fn first_free(free: Seq<bool>) -> Option<nat>
    decreases free.len(),
{
    if free.len() == 0 {
        None
    } else if free[0] {
        Some(0)
    } else {
        match first_free(free.drop_first()) {
            Some(i) => Some(i + 1),
            None => None,
        }
    }
}

/// An index counted from a later start.
pub open spec fn shifted(o: Option<nat>, by: nat) -> Option<nat> {
    match o {
        Some(k) => Some(k + by),
        None => None,
    }
}

/// The number of free workers.
pub open spec fn free_count(free: Seq<bool>) -> nat
    decreases free.len(),
{
    if free.len() == 0 {
        0
    } else {
        (if free[0] { 1nat } else { 0nat }) + free_count(free.drop_first())
    }
}

impl Pool {
    /// The pool knows how many workers it has.
    pub closed spec fn well_formed(&self) -> bool {
        self.capacity == self.workers@.len()
    }

    /// Which workers are free, in order.
    pub closed spec fn free(&self) -> Seq<bool> {
        Seq::new(self.workers@.len(), |i: int| self.workers@[i].is_available)
    }
}

impl View for Pool {
    type V = Seq<bool>;

    open spec fn view(&self) -> Seq<bool> {
        self.free()
    }
}

impl Pool {
    /// A pool of `POOL_SIZE` free workers.
    pub fn new() -> (r: Pool)
        ensures
            r.well_formed(),
            r@.len() == POOL_SIZE,
            forall|i: int| 0 <= i < r@.len() ==> #[trigger] r@[i],
    {
        let mut w: Vec<Worker> = Vec::with_capacity(POOL_SIZE);
        let mut i: usize = 0;
        while i < POOL_SIZE
            invariant
                i <= POOL_SIZE,
                w@.len() == i,
                forall|j: int| 0 <= j < i ==> (#[trigger] w@[j]).is_available,
            decreases POOL_SIZE - i,
        {
            w.push(Worker { is_available: true });
            i = i + 1;
        }
        Pool { capacity: POOL_SIZE, workers: w }
    }

    /// Hands a job to the first free worker, which becomes busy, and says
    /// which one it was; with no free worker, nothing changes and no worker
    /// takes the job.
    pub fn execute(&mut self) -> (r: Option<usize>)
        requires
            old(self).well_formed(),
        ensures
            final(self).well_formed(),
            r == match first_free(old(self)@) {
                Some(i) => Some(i as usize),
                None => None,
            },
            final(self)@ == match first_free(old(self)@) {
                Some(i) => old(self)@.update(i as int, false),
                None => old(self)@,
            },
    {
        let mut i: usize = 0;
        assert(self@.skip(0) =~= self@);
        while i < self.capacity
            invariant
                self.capacity == self.workers@.len(),
                self@ == old(self)@,
                i <= self.capacity,
                forall|j: int| 0 <= j < i ==> !(#[trigger] self@[j]),
                first_free(self@) == shifted(first_free(self@.skip(i as int)), i as nat),
            decreases self.capacity - i,
        {
            if self.workers[i].can_work() {
                let mut w = Worker { is_available: true };
                w.do_work();
                self.workers.set(i, w);
                proof {
                    let s = old(self)@.skip(i as int);
                    assert(s[0]);
                    assert(self@ =~= old(self)@.update(i as int, false));
                }
                return Some(i);
            }
            proof {
                let s = self@.skip(i as int);
                assert(s.drop_first() =~= self@.skip(i + 1));
            }
            i = i + 1;
        }
        assert(self@.skip(i as int) =~= Seq::<bool>::empty());
        None
    }
}

/// A job is handed to a free worker, which is then busy, and the number of
/// free workers drops by one; when no worker is free, none is handed a job.
pub proof fn lemma_claim_takes_one(free: Seq<bool>)
    ensures
        first_free(free) matches Some(i) ==> {
            &&& i < free.len()
            &&& free[i as int]
            &&& !free.update(i as int, false)[i as int]
            &&& free_count(free.update(i as int, false)) + 1 == free_count(free)
        },
        first_free(free) is None <==> free_count(free) == 0,
    decreases free.len(),
{
    if free.len() > 0 {
        lemma_claim_takes_one(free.drop_first());
        match first_free(free) {
            Some(i) => {
                let u = free.update(i as int, false);
                if i == 0 {
                    assert(u.drop_first() =~= free.drop_first());
                } else {
                    assert(u.drop_first() =~= free.drop_first().update(i - 1, false));
                }
            },
            None => {},
        }
    }
}

} // verus!
