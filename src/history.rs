//! Fixed-capacity FIFO sample histories.
use std::collections::VecDeque;
use vstd::prelude::*;

verus! {

/// The last `cap` elements of `s` (all of `s` when it is shorter).
pub open spec fn keep_last(s: Seq<u64>, cap: nat) -> Seq<u64> {
    if s.len() > cap {
        s.subrange(s.len() - cap, s.len() as int)
    } else {
        s
    }
}

/// The last element of `s`, or 0 when `s` is empty.
pub open spec fn latest_of(s: Seq<u64>) -> u64 {
    if s.len() == 0 {
        0
    } else {
        s.last()
    }
}

/// The samples held after pushing each of `vals` in turn onto a history holding
/// `s` with capacity `cap`.
pub open spec fn push_all(s: Seq<u64>, cap: nat, vals: Seq<u64>) -> Seq<u64>
    decreases vals.len(),
{
    if vals.len() == 0 {
        s
    } else {
        keep_last(push_all(s, cap, vals.drop_last()).push(vals.last()), cap)
    }
}

proof fn lemma_keep_last_push(x: Seq<u64>, cap: nat, v: u64)
    ensures
        keep_last(keep_last(x, cap).push(v), cap) == keep_last(x.push(v), cap),
{
    assert(keep_last(keep_last(x, cap).push(v), cap) =~= keep_last(x.push(v), cap));
}

/// Pushing a run of samples keeps the last `cap` of the old samples followed by
/// the new ones, in order.
pub proof fn lemma_push_all(s: Seq<u64>, cap: nat, vals: Seq<u64>)
    requires
        s.len() <= cap,
    ensures
        push_all(s, cap, vals) == keep_last(s + vals, cap),
    decreases vals.len(),
{
    if vals.len() == 0 {
        assert(s + vals =~= s);
    } else {
        lemma_push_all(s, cap, vals.drop_last());
        lemma_keep_last_push(s + vals.drop_last(), cap, vals.last());
        assert((s + vals.drop_last()).push(vals.last()) =~= s + vals);
    }
}

/// FIFO eviction: once more samples than the capacity have been pushed onto an
/// empty history, it holds exactly `cap` samples, the most recent ones, in the
/// order they were pushed.
pub proof fn lemma_fifo_eviction(cap: nat, vals: Seq<u64>)
    requires
        vals.len() >= cap,
    ensures
        push_all(Seq::empty(), cap, vals).len() == cap,
        push_all(Seq::empty(), cap, vals) == vals.subrange(vals.len() - cap, vals.len() as int),
{
    lemma_push_all(Seq::empty(), cap, vals);
    assert(Seq::<u64>::empty() + vals =~= vals);
}

proof fn lemma_trace_prefix(cap: nat, vals: Seq<u64>, hs: Seq<Seq<u64>>, k: int)
    requires
        hs.len() == vals.len() + 1,
        hs[0] == Seq::<u64>::empty(),
        forall|i: int| 0 <= i < vals.len() ==> #[trigger] hs[i + 1] == keep_last(hs[i].push(vals[i]), cap),
        0 <= k <= vals.len(),
    ensures
        hs[k] == push_all(Seq::empty(), cap, vals.take(k)),
    decreases k,
{
    if k == 0 {
        assert(vals.take(0) =~= Seq::<u64>::empty());
    } else {
        lemma_trace_prefix(cap, vals, hs, k - 1);
        assert(vals.take(k).drop_last() =~= vals.take(k - 1));
        assert(hs[(k - 1) + 1] == keep_last(hs[k - 1].push(vals[k - 1]), cap));
    }
}

/// FIFO eviction over a run of calls: if `hs[i]` is a history (of capacity
/// `cap`, empty at first) after `i` pushes, and each push or engine tick
/// appends `vals[i]` as `push` and `SystemMetrics::update` state, then after
/// the run the history holds the last `cap` of `vals`, in order; when the run
/// is longer than `cap`, exactly `cap` of them.
pub proof fn lemma_run_keeps_most_recent(cap: nat, vals: Seq<u64>, hs: Seq<Seq<u64>>)
    requires
        hs.len() == vals.len() + 1,
        hs[0] == Seq::<u64>::empty(),
        forall|i: int| 0 <= i < vals.len() ==> #[trigger] hs[i + 1] == keep_last(hs[i].push(vals[i]), cap),
    ensures
        hs.last() == keep_last(vals, cap),
        vals.len() >= cap ==> hs.last().len() == cap && hs.last() == vals.subrange(
            vals.len() - cap,
            vals.len() as int,
        ),
{
    lemma_trace_prefix(cap, vals, hs, vals.len() as int);
    assert(vals.take(vals.len() as int) =~= vals);
    lemma_push_all(Seq::empty(), cap, vals);
    assert(Seq::<u64>::empty() + vals =~= vals);
}

/// A bounded, chronologically ordered series of samples.
pub struct MetricHistory {
    samples: VecDeque<u64>,
    capacity: usize,
}

impl MetricHistory {
    pub closed spec fn view(&self) -> Seq<u64> {
        self.samples@
    }

    pub closed spec fn cap(&self) -> nat {
        self.capacity as nat
    }

    pub closed spec fn wf(&self) -> bool {
        self.samples@.len() <= self.capacity
    }

    /// An empty history that keeps at most `capacity` samples.
    pub fn new(capacity: usize) -> (r: Self)
        ensures
            r.wf(),
            r.view() == Seq::<u64>::empty(),
            r.cap() == capacity,
    {
        MetricHistory { samples: VecDeque::with_capacity(capacity), capacity }
    }

    /// Appends a sample, evicting the oldest ones beyond the capacity.
    pub fn push(&mut self, value: u64)
        requires
            old(self).wf(),
        ensures
            final(self).wf(),
            final(self).cap() == old(self).cap(),
            final(self).view() == keep_last(old(self).view().push(value), old(self).cap()),
    {
        if self.capacity == 0 {
            return;
        }
        if self.samples.len() >= self.capacity {
            self.samples.pop_front();
        }
        self.samples.push_back(value);
        assert(self.samples@ =~= keep_last(old(self).view().push(value), old(self).cap()));
    }

    /// The most recent sample, or 0 when there is none.
    pub fn latest(&self) -> (r: u64)
        ensures
            r == latest_of(self.view()),
    {
        let n = self.samples.len();
        if n == 0 {
            0
        } else {
            self.samples[n - 1]
        }
    }

    /// All samples, oldest first.
    pub fn samples(&self) -> (r: &VecDeque<u64>)
        ensures
            r@ == self.view(),
    {
        &self.samples
    }

    /// Number of samples held.
    pub fn len(&self) -> (r: usize)
        ensures
            r == self.view().len(),
    {
        self.samples.len()
    }

    /// The most samples this history keeps.
    pub fn capacity(&self) -> (r: usize)
        ensures
            r == self.cap(),
    {
        self.capacity
    }
}

} // verus!
