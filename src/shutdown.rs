use vstd::prelude::*;

verus! {

/// How the join of one worker went.
#[derive(PartialEq, Eq, Structural, Clone, Copy, Debug)]
pub struct JoinRecord {
    /// The worker's ordinal, counted from 1 in spawn order.
    pub ordinal: usize,
    /// Whether the worker returned normally (`false`: it panicked).
    pub ok: bool,
}

/// The stop signal and the drain of the workers that it starts.
pub struct Shutdown {
    workers: usize,
    stop: bool,
    joined: Vec<JoinRecord>,
}

impl Shutdown {
    /// How many workers were spawned.
    pub closed spec fn workers_view(&self) -> nat {
        self.workers as nat
    }

    /// The stop signal: set once, never reset.
    pub closed spec fn stop_view(&self) -> bool {
        self.stop
    }

    /// The joins made so far, in spawn order.
    pub closed spec fn joined_view(&self) -> Seq<JoinRecord> {
        self.joined@
    }

    /// Joins happen only after the stop signal, one per worker, in spawn order.
    pub closed spec fn wf(&self) -> bool {
        &&& self.joined@.len() <= self.workers
        &&& self.joined@.len() > 0 ==> self.stop
        &&& forall|i: int| 0 <= i < self.joined@.len() ==> #[trigger] self.joined@[i].ordinal == i + 1
    }

    /// No signal yet, nothing joined.
    pub fn new(workers: usize) -> (r: Shutdown)
        ensures
            r.wf(),
            r.workers_view() == workers,
            !r.stop_view(),
            r.joined_view().len() == 0,
    {
        Shutdown { workers, stop: false, joined: Vec::new() }
    }

    /// A termination signal came: sets the stop signal. Returns `true` for the
    /// first signal only, which is the one that runs the drain.
    pub fn signal(&mut self) -> (first: bool)
        requires
            old(self).wf(),
        ensures
            final(self).wf(),
            final(self).stop_view(),
            first == !old(self).stop_view(),
            final(self).workers_view() == old(self).workers_view(),
            final(self).joined_view() == old(self).joined_view(),
    {
        let first = !self.stop;
        self.stop = true;
        first
    }

    /// Whether the stop signal is set.
    pub fn is_stopped(&self) -> (r: bool)
        ensures
            r == self.stop_view(),
    {
        self.stop
    }

    /// How many workers were spawned.
    pub fn workers(&self) -> (r: usize)
        ensures
            r == self.workers_view(),
    {
        self.workers
    }

    /// The joins made so far, in spawn order.
    pub fn joined(&self) -> (r: &Vec<JoinRecord>)
        ensures
            r@ == self.joined_view(),
    {
        &self.joined
    }

    /// The position, in spawn order, of the next worker to join; `None` before
    /// the stop signal and once every worker has been joined.
    pub fn next_join(&self) -> (r: Option<usize>)
        requires
            self.wf(),
        ensures
            r == (if self.stop_view() && self.joined_view().len() < self.workers_view() {
                Some(self.joined_view().len() as usize)
            } else {
                None
            }),
    {
        if self.stop && self.joined.len() < self.workers {
            Some(self.joined.len())
        } else {
            None
        }
    }

    /// Records how the join of the next worker went, whether it returned or
    /// failed: either way the drain goes on with the next one.
    pub fn record_join(&mut self, ok: bool) -> (r: JoinRecord)
        requires
            old(self).wf(),
            old(self).stop_view(),
            old(self).joined_view().len() < old(self).workers_view(),
        ensures
            final(self).wf(),
            final(self).stop_view(),
            final(self).workers_view() == old(self).workers_view(),
            r == (JoinRecord { ordinal: (old(self).joined_view().len() + 1) as usize, ok }),
            final(self).joined_view() == old(self).joined_view().push(r),
    {
        let r = JoinRecord { ordinal: self.joined.len() + 1, ok };
        self.joined.push(r);
        r
    }

    /// Every worker has been joined.
    pub fn is_drained(&self) -> (r: bool)
        requires
            self.wf(),
        ensures
            r == (self.joined_view().len() == self.workers_view()),
    {
        self.joined.len() == self.workers
    }
}

/// Exactly one record of `joined` names the worker `o`.
pub open spec fn accounted_once(joined: Seq<JoinRecord>, o: usize) -> bool {
    exists|i: int|
        0 <= i < joined.len() && joined[i].ordinal == o && forall|j: int|
            0 <= j < joined.len() && joined[j].ordinal == o ==> j == i
}

/// A finished drain accounts for every spawned worker exactly once, whatever
/// the outcome of each join: each ordinal from 1 to the number of workers
/// stands in exactly one record, and no record names another.
pub proof fn lemma_drain_accounts_once(s: Shutdown)
    requires
        s.wf(),
        s.joined_view().len() == s.workers_view(),
    ensures
        forall|i: int|
            0 <= i < s.joined_view().len() ==> 1 <= #[trigger] s.joined_view()[i].ordinal
                <= s.workers_view(),
        forall|o: usize| 1 <= o <= s.workers_view() ==> #[trigger] accounted_once(s.joined_view(), o),
{
    assert forall|o: usize| 1 <= o <= s.workers_view() implies #[trigger] accounted_once(
        s.joined_view(),
        o,
    ) by {
        let i = o - 1;
        assert(s.joined@[i].ordinal == o);
    }
}

} // verus!
