use crate::config::ProcessConfig;
use crate::topology::targets_view;
use vstd::prelude::*;

verus! {

/// What one blocking pop against the broker gave.
#[derive(PartialEq, Eq, Structural, Clone, Copy, Debug)]
pub enum PollOutcome {
    /// An item was popped.
    Value,
    /// The queue stayed empty for the whole timeout.
    Empty,
    /// The call failed (connection or protocol error).
    Error,
}

/// Where a worker stands in its polling loop.
#[derive(PartialEq, Eq, Structural, Clone, Copy, Debug)]
pub enum Phase {
    /// Between two passes: the stop signal is read next.
    Idle,
    /// Waiting for the outcome of the pop at this position of the schedule.
    Polling(usize),
    /// The worker has seen the stop signal and polls no more.
    Stopped,
}

/// Whether the pass goes on after the pop at position `k` gave `o`: only an
/// empty queue or a failed call, and only while targets are left.
pub open spec fn pass_continues(k: nat, len: nat, o: PollOutcome) -> bool {
    o != PollOutcome::Value && k + 1 < len
}

/// The phase that a pass begins in, given the stop signal.
pub open spec fn begin_step(stop: bool) -> Phase {
    if stop {
        Phase::Stopped
    } else {
        Phase::Polling(0)
    }
}

/// The phase after the pop at position `k` of a schedule of `len` targets gave `o`.
pub open spec fn record_step(k: nat, len: nat, o: PollOutcome) -> Phase {
    if pass_continues(k, len, o) {
        Phase::Polling((k + 1) as usize)
    } else {
        Phase::Idle
    }
}

/// The positions polled in a pass from position `k` on, when the pop at each
/// position `i` would give `outcomes[i]`.
pub open spec fn pass_from(k: nat, len: nat, outcomes: Seq<PollOutcome>) -> Seq<nat>
    decreases len - k,
{
    if k >= len {
        seq![]
    } else if pass_continues(k, len, outcomes[k as int]) {
        seq![k] + pass_from(k + 1, len, outcomes)
    } else {
        seq![k]
    }
}

/// One worker: its ordinal, its schedule and the phase of its polling loop.
pub struct Worker {
    ordinal: usize,
    schedule: Vec<ProcessConfig>,
    phase: Phase,
}

impl Worker {
    /// The worker's ordinal, counted from 1.
    pub closed spec fn ordinal_view(&self) -> usize {
        self.ordinal
    }

    /// The worker's schedule, as (logical name, is priority) pairs.
    pub closed spec fn targets(&self) -> Seq<(Seq<char>, bool)> {
        targets_view(self.schedule@)
    }

    pub closed spec fn phase_view(&self) -> Phase {
        self.phase
    }

    /// The schedule is not empty and a pending pop is at one of its positions.
    pub closed spec fn wf(&self) -> bool {
        &&& self.schedule@.len() >= 1
        &&& match self.phase {
            Phase::Polling(k) => k < self.schedule@.len(),
            _ => true,
        }
    }

    /// A worker at the top of its first pass.
    pub fn new(ordinal: usize, schedule: Vec<ProcessConfig>) -> (r: Worker)
        requires
            schedule@.len() >= 1,
        ensures
            r.wf(),
            r.ordinal_view() == ordinal,
            r.targets() == targets_view(schedule@),
            r.phase_view() == Phase::Idle,
    {
        Worker { ordinal, schedule, phase: Phase::Idle }
    }

    pub fn ordinal(&self) -> (r: usize)
        ensures
            r == self.ordinal_view(),
    {
        self.ordinal
    }

    /// How many targets the schedule holds.
    pub fn schedule_len(&self) -> (r: usize)
        ensures
            r == self.targets().len(),
    {
        self.schedule.len()
    }

    pub fn phase(&self) -> (r: Phase)
        ensures
            r == self.phase_view(),
    {
        self.phase
    }

    /// The target at position `k` of the schedule.
    pub fn target(&self, k: usize) -> (r: &ProcessConfig)
        requires
            k < self.targets().len(),
        ensures
            r@ == self.targets()[k as int],
    {
        &self.schedule[k]
    }

    /// Top of a pass: stop if the stop signal is set, else poll the first target.
    /// Returns the position to poll, or `None` once stopped.
    pub fn begin_pass(&mut self, stop: bool) -> (r: Option<usize>)
        requires
            old(self).wf(),
            old(self).phase_view() == Phase::Idle,
        ensures
            final(self).wf(),
            final(self).ordinal_view() == old(self).ordinal_view(),
            final(self).targets() == old(self).targets(),
            final(self).phase_view() == begin_step(stop),
            r == (if stop {
                None
            } else {
                Some(0usize)
            }),
    {
        if stop {
            self.phase = Phase::Stopped;
            None
        } else {
            self.phase = Phase::Polling(0);
            Some(0)
        }
    }

    /// Takes the outcome of the pending pop. An item ends the pass at once;
    /// an empty queue or a failed call moves on to the next target, and the
    /// pass ends after the last one. Returns the next position to poll in
    /// this pass, or `None` when the pass is over.
    pub fn record_outcome(&mut self, outcome: PollOutcome) -> (r: Option<usize>)
        requires
            old(self).wf(),
            old(self).phase_view() is Polling,
        ensures
            final(self).wf(),
            final(self).ordinal_view() == old(self).ordinal_view(),
            final(self).targets() == old(self).targets(),
            final(self).phase_view() == record_step(
                old(self).phase_view()->Polling_0 as nat,
                old(self).targets().len(),
                outcome,
            ),
            r == (match final(self).phase_view() {
                Phase::Polling(j) => Some(j),
                _ => None,
            }),
    {
        let k = match self.phase {
            Phase::Polling(k) => k,
            _ => 0,
        };
        if outcome != PollOutcome::Value && k < self.schedule.len() - 1 {
            self.phase = Phase::Polling(k + 1);
            Some(k + 1)
        } else {
            self.phase = Phase::Idle;
            None
        }
    }
}

/// A pass polls positions in order, one after the other, from where it starts.
proof fn lemma_pass_from_positions(k: nat, len: nat, outcomes: Seq<PollOutcome>)
    requires
        k < len,
    ensures
        pass_from(k, len, outcomes).len() >= 1,
        pass_from(k, len, outcomes).len() <= len - k,
        forall|i: int|
            0 <= i < pass_from(k, len, outcomes).len() ==> pass_from(k, len, outcomes)[i] == k + i,
        forall|i: int|
            0 <= i < pass_from(k, len, outcomes).len() - 1 ==> pass_continues(
                #[trigger] pass_from(k, len, outcomes)[i],
                len,
                outcomes[pass_from(k, len, outcomes)[i] as int],
            ),
    decreases len - k,
{
    if pass_continues(k, len, outcomes[k as int]) {
        lemma_pass_from_positions(k + 1, len, outcomes);
        let rest = pass_from(k + 1, len, outcomes);
        assert forall|i: int| 0 <= i < pass_from(k, len, outcomes).len() - 1 implies pass_continues(
            #[trigger] pass_from(k, len, outcomes)[i],
            len,
            outcomes[pass_from(k, len, outcomes)[i] as int],
        ) by {
            if i > 0 {
                assert(pass_from(k, len, outcomes)[i] == rest[i - 1]);
            }
        }
    }
}

/// A pop that yields an item at position `k` ends the pass: no position after
/// `k` is polled in that pass, and the next pass, if any, starts again at the
/// first target.
pub proof fn lemma_success_ends_pass(len: nat, outcomes: Seq<PollOutcome>, k: nat)
    requires
        k < len,
        outcomes.len() == len,
        outcomes[k as int] == PollOutcome::Value,
    ensures
        record_step(k, len, PollOutcome::Value) == Phase::Idle,
        forall|i: int|
            0 <= i < pass_from(0, len, outcomes).len() ==> pass_from(0, len, outcomes)[i] <= k,
        begin_step(false) == Phase::Polling(0),
{
    lemma_pass_from_positions(0, len, outcomes);
    let s = pass_from(0, len, outcomes);
    if s.len() > k + 1 {
        assert(s[k as int] == k);
        assert(pass_continues(k, len, outcomes[k as int]));
    }
}

/// Once the stop signal is set, a worker finishes at most the pass it is in:
/// from position `k` of a schedule of `len` targets at most `len - k` more pops
/// are made, after which the pass is over, and the top of the next pass stops
/// the worker.
pub proof fn lemma_stop_after_current_pass(len: nat, outcomes: Seq<PollOutcome>, k: nat)
    requires
        k < len,
    ensures
        begin_step(true) == Phase::Stopped,
        1 <= pass_from(k, len, outcomes).len() <= len - k,
        record_step(
            pass_from(k, len, outcomes).last(),
            len,
            outcomes[pass_from(k, len, outcomes).last() as int],
        ) == Phase::Idle,
    decreases len - k,
{
    lemma_pass_from_positions(k, len, outcomes);
    if pass_continues(k, len, outcomes[k as int]) {
        lemma_stop_after_current_pass(len, outcomes, k + 1);
        assert(pass_from(k, len, outcomes).last() == pass_from(k + 1, len, outcomes).last());
    }
}

} // verus!
