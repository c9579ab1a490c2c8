//! Latency statistics: a fixed-capacity rolling window of round-trip times.

use vstd::prelude::*;
use std::collections::VecDeque;

verus! {

/// A single round-trip-time measurement (e.g. STUN RTT), in milliseconds.
#[derive(Debug, Clone, Copy, PartialEq, Eq, Structural)]
pub struct LatencySample {
    pub rtt_ms: u32,
}

/// Cumulative interface byte counters reported by an agent.
#[derive(Debug, Clone, Copy, PartialEq, Eq, Structural)]
pub struct ThroughputSample {
    pub tx_bytes: u64,
    pub rx_bytes: u64,
}

/// The bytes a cumulative counter advanced by between two readings; a reset
/// (a smaller current reading) counts as no progress.
pub fn counter_delta(prev: u64, curr: u64) -> (r: u64)
    ensures
        r == if curr >= prev { curr - prev } else { 0 },
{
    curr.saturating_sub(prev)
}

/// The window after pushing `x`: the oldest sample is evicted when full.
pub open spec fn after_push(s: Seq<u32>, cap: nat, x: u32) -> Seq<u32> {
    if s.len() == cap {
        s.drop_first().push(x)
    } else {
        s.push(x)
    }
}

/// The window left by pushing all of `history`, in order, into an empty window.
pub open spec fn window_after(history: Seq<u32>, cap: nat) -> Seq<u32>
    decreases history.len(),
{
    if history.len() == 0 {
        seq![]
    } else {
        after_push(window_after(history.drop_last(), cap), cap, history.last())
    }
}

/// `x` placed before the first element it does not exceed.
pub open spec fn insert_sorted(s: Seq<u32>, x: u32) -> Seq<u32>
    decreases s.len(),
{
    if s.len() == 0 {
        seq![x]
    } else if x <= s[0] {
        seq![x] + s
    } else {
        seq![s[0]] + insert_sorted(s.drop_first(), x)
    }
}

/// The elements of `s` in ascending order (insertion sort).
pub open spec fn sorted_seq(s: Seq<u32>) -> Seq<u32>
    decreases s.len(),
{
    if s.len() == 0 {
        s
    } else {
        insert_sorted(sorted_seq(s.drop_last()), s.last())
    }
}

/// The nearest-rank 95th-percentile index into a sorted window of `n`
/// samples: the ⌈95n/100⌉-th smallest sample, counted from 1.
pub open spec fn p95_index(n: nat) -> int {
    (95 * n + 99) / 100 - 1
}

/// A fixed-capacity rolling window of latency samples.
#[derive(Debug)]
pub struct LatencyWindow {
    samples: VecDeque<u32>,
    cap: usize,
}

impl LatencyWindow {
    #[verifier::type_invariant]
    spec fn wf(self) -> bool {
        1 <= self.cap && self.samples@.len() <= self.cap
    }

    /// The samples held, oldest first.
    pub closed spec fn view_samples(self) -> Seq<u32> {
        self.samples@
    }

    /// The most samples the window keeps.
    pub closed spec fn capacity(self) -> nat {
        self.cap as nat
    }

    /// A window of at most `cap` samples (at least one).
    pub fn new(cap: usize) -> (r: LatencyWindow)
        ensures
            r.view_samples() == Seq::<u32>::empty(),
            r.capacity() == if cap >= 1 { cap as nat } else { 1 },
    {
        LatencyWindow { samples: VecDeque::new(), cap: if cap >= 1 { cap } else { 1 } }
    }

    /// Add a sample, evicting the oldest when at capacity.
    pub fn push(&mut self, rtt_ms: u32)
        ensures
            final(self).view_samples() == after_push(old(self).view_samples(), old(self).capacity(), rtt_ms),
            final(self).capacity() == old(self).capacity(),
    {
        proof {
            use_type_invariant(&*self);
        }
        let mut samples: VecDeque<u32> = VecDeque::new();
        std::mem::swap(&mut samples, &mut self.samples);
        if samples.len() == self.cap {
            samples.pop_front();
        }
        samples.push_back(rtt_ms);
        self.samples = samples;
    }

    /// The number of samples held (never more than the capacity).
    pub fn len(&self) -> (r: usize)
        ensures
            r == self.view_samples().len(),
            self.view_samples().len() <= self.capacity(),
    {
        proof {
            use_type_invariant(self);
        }
        self.samples.len()
    }

    /// The newest sample.
    pub fn last(&self) -> (r: Option<u32>)
        ensures
            r == if self.view_samples().len() == 0 { None } else { Some(self.view_samples().last()) },
    {
        let n = self.samples.len();
        if n == 0 {
            None
        } else {
            Some(self.samples[n - 1])
        }
    }

    /// The smallest sample.
    pub fn min(&self) -> (r: Option<u32>)
        ensures
            r is None <==> self.view_samples().len() == 0,
            r matches Some(m) ==> self.view_samples().contains(m) && forall|i: int|
                0 <= i < self.view_samples().len() ==> m <= #[trigger] self.view_samples()[i],
    {
        let n = self.samples.len();
        if n == 0 {
            return None;
        }
        let mut best = self.samples[0];
        let mut idx: usize = 0;
        let mut i: usize = 1;
        while i < n
            invariant
                n == self.samples@.len(),
                1 <= i <= n,
                idx < n,
                best == self.samples@[idx as int],
                forall|k: int| 0 <= k < i ==> best <= #[trigger] self.samples@[k],
            decreases n - i,
        {
            if self.samples[i] < best {
                best = self.samples[i];
                idx = i;
            }
            i = i + 1;
        }
        Some(best)
    }

    /// The largest sample.
    pub fn max(&self) -> (r: Option<u32>)
        ensures
            r is None <==> self.view_samples().len() == 0,
            r matches Some(m) ==> self.view_samples().contains(m) && forall|i: int|
                0 <= i < self.view_samples().len() ==> #[trigger] self.view_samples()[i] <= m,
    {
        let n = self.samples.len();
        if n == 0 {
            return None;
        }
        let mut best = self.samples[0];
        let mut idx: usize = 0;
        let mut i: usize = 1;
        while i < n
            invariant
                n == self.samples@.len(),
                1 <= i <= n,
                idx < n,
                best == self.samples@[idx as int],
                forall|k: int| 0 <= k < i ==> #[trigger] self.samples@[k] <= best,
            decreases n - i,
        {
            if self.samples[i] > best {
                best = self.samples[i];
                idx = i;
            }
            i = i + 1;
        }
        Some(best)
    }

    /// 95th-percentile latency (nearest-rank over the sorted samples).
    pub fn p95(&self) -> (r: Option<u32>)
        requires
            95 * self.view_samples().len() + 99 <= usize::MAX,
        ensures
            r == if self.view_samples().len() == 0 {
                None
            } else {
                Some(sorted_seq(self.view_samples())[p95_index(self.view_samples().len())])
            },
    {
        let n = self.samples.len();
        if n == 0 {
            return None;
        }
        let mut sorted: Vec<u32> = Vec::new();
        let mut i: usize = 0;
        while i < n
            invariant
                n == self.samples@.len(),
                i <= n,
                sorted@ == sorted_seq(self.samples@.subrange(0, i as int)),
            decreases n - i,
        {
            let x = self.samples[i];
            let mut pos: usize = 0;
            while pos < sorted.len() && sorted[pos] < x
                invariant
                    pos <= sorted@.len(),
                    forall|k: int| 0 <= k < pos ==> #[trigger] sorted@[k] < x,
                decreases sorted.len() - pos,
            {
                pos = pos + 1;
            }
            proof {
                lemma_insert_at(sorted@, x, pos as int);
                assert(self.samples@.subrange(0, i + 1).drop_last() =~= self.samples@.subrange(0, i as int));
            }
            sorted.insert(pos, x);
            i = i + 1;
        }
        proof {
            assert(self.samples@.subrange(0, n as int) =~= self.samples@);
            lemma_sorted_len(self.samples@);
        }
        assert(1 <= (95 * n + 99) / 100 <= n) by (nonlinear_arith)
            requires
                n >= 1,
        ;
        let idx = (95 * n + 99) / 100 - 1;
        Some(sorted[idx])
    }

    /// The samples, oldest first.
    pub fn samples(&self) -> (r: Vec<u32>)
        ensures
            r@ == self.view_samples(),
    {
        let mut out: Vec<u32> = Vec::new();
        let mut i: usize = 0;
        while i < self.samples.len()
            invariant
                i <= self.samples@.len(),
                out@ == self.samples@.subrange(0, i as int),
            decreases self.samples.len() - i,
        {
            out.push(self.samples[i]);
            i = i + 1;
            assert(out@ =~= self.samples@.subrange(0, i as int));
        }
        assert(out@ =~= self.samples@);
        out
    }
}

/// Inserting before the first element not below `x` is `insert_sorted`.
proof fn lemma_insert_at(s: Seq<u32>, x: u32, pos: int)
    requires
        0 <= pos <= s.len(),
        forall|k: int| 0 <= k < pos ==> #[trigger] s[k] < x,
        pos < s.len() ==> x <= s[pos],
    ensures
        insert_sorted(s, x) == s.insert(pos, x),
    decreases s.len(),
{
    if s.len() == 0 {
        assert(s.insert(pos, x) =~= seq![x]);
    } else if pos == 0 {
        assert(s.insert(0, x) =~= seq![x] + s);
    } else {
        let t = s.drop_first();
        assert forall|k: int| 0 <= k < pos - 1 implies #[trigger] t[k] < x by {
            assert(t[k] == s[k + 1]);
        }
        lemma_insert_at(t, x, pos - 1);
        assert(s.insert(pos, x) =~= seq![s[0]] + t.insert(pos - 1, x));
    }
}

proof fn lemma_insert_len(s: Seq<u32>, x: u32)
    ensures
        insert_sorted(s, x).len() == s.len() + 1,
    decreases s.len(),
{
    if s.len() > 0 && x > s[0] {
        lemma_insert_len(s.drop_first(), x);
    }
}

proof fn lemma_sorted_len(s: Seq<u32>)
    ensures
        sorted_seq(s).len() == s.len(),
    decreases s.len(),
{
    if s.len() > 0 {
        lemma_sorted_len(s.drop_last());
        lemma_insert_len(sorted_seq(s.drop_last()), s.last());
    }
}

/// The window holds the newest `capacity` samples of everything pushed, in
/// order: pushing a history into an empty window of capacity `cap` leaves its
/// last `min(len, cap)` elements.
pub proof fn lemma_window_keeps_newest(history: Seq<u32>, cap: nat)
    requires
        cap >= 1,
    ensures
        window_after(history, cap) == history.subrange(
            if history.len() > cap { history.len() - cap } else { 0 },
            history.len() as int,
        ),
    decreases history.len(),
{
    if history.len() > 0 {
        let h = history.drop_last();
        lemma_window_keeps_newest(h, cap);
        let start = if h.len() > cap { h.len() - cap } else { 0 };
        let w = h.subrange(start, h.len() as int);
        if w.len() == cap {
            assert(w.drop_first().push(history.last()) =~= history.subrange(
                if history.len() > cap { history.len() - cap } else { 0 },
                history.len() as int,
            ));
        } else {
            assert(w.push(history.last()) =~= history.subrange(
                if history.len() > cap { history.len() - cap } else { 0 },
                history.len() as int,
            ));
        }
    }
}

} // verus!
