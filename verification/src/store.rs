//! The coordinator's in-memory per-device statistics (not persisted): a
//! rolling window of latency samples, and the two latest throughput counter
//! readings from which the dashboard derives rates.

use vstd::prelude::*;
use crate::stats::{after_push, p95_index, sorted_seq, LatencyWindow};

verus! {

/// Samples kept per device.
pub const WINDOW: usize = 60;

/// Index of the first entry of `device`.
pub open spec fn find_device<V>(entries: Seq<(u128, u128, V)>, device: u128) -> Option<int>
    decreases entries.len(),
{
    if entries.len() == 0 {
        None
    } else {
        match find_device(entries.drop_last(), device) {
            Some(k) => Some(k),
            None => if entries.last().0 == device { Some(entries.len() - 1) } else { None },
        }
    }
}

proof fn lemma_find_device<V>(entries: Seq<(u128, u128, V)>, device: u128)
    ensures
        find_device(entries, device) matches Some(k) ==> 0 <= k < entries.len() && entries[k].0 == device
            && forall|j: int| 0 <= j < k ==> entries[j].0 != device,
        find_device(entries, device) is None ==> forall|j: int| 0 <= j < entries.len() ==> entries[j].0 != device,
    decreases entries.len(),
{
    if entries.len() > 0 {
        lemma_find_device(entries.drop_last(), device);
        assert(forall|j: int| 0 <= j < entries.len() - 1 ==> entries.drop_last()[j] == entries[j]);
    }
}

fn locate<V>(entries: &Vec<(u128, u128, V)>, device: u128) -> (r: Option<usize>)
    ensures
        r matches Some(k) ==> find_device(entries@, device) == Some(k as int),
        r is None ==> find_device(entries@, device) is None,
{
    proof {
        lemma_find_device(entries@, device);
    }
    let mut i: usize = 0;
    while i < entries.len()
        invariant
            i <= entries@.len(),
            forall|j: int| 0 <= j < i ==> entries@[j].0 != device,
        decreases entries.len() - i,
    {
        if entries[i].0 == device {
            proof {
                lemma_find_device(entries@, device);
                if let Some(k) = find_device(entries@, device) {
                    assert(k == i as int);
                }
            }
            return Some(i);
        }
        i = i + 1;
    }
    None
}

/// A device's latency aggregates for the dashboard.
pub struct LatencySnapshot {
    pub device_id: u128,
    pub last: Option<u32>,
    pub p95: Option<u32>,
    pub samples: Vec<u32>,
}

/// The rows `(device, tenant, samples)` of `tenant`, in order.
pub open spec fn tenant_rows(rows: Seq<(u128, u128, Seq<u32>)>, tenant: u128) -> Seq<(u128, u128, Seq<u32>)>
    decreases rows.len(),
{
    if rows.len() == 0 {
        seq![]
    } else {
        let prev = tenant_rows(rows.drop_last(), tenant);
        if rows.last().1 == tenant {
            prev.push(rows.last())
        } else {
            prev
        }
    }
}

/// A snapshot describes a row: its device, its samples, the newest sample
/// and the nearest-rank 95th percentile.
pub open spec fn snapshot_of(s: LatencySnapshot, row: (u128, u128, Seq<u32>)) -> bool {
    &&& s.device_id == row.0
    &&& s.samples@ == row.2
    &&& s.last == if row.2.len() == 0 { None } else { Some(row.2.last()) }
    &&& s.p95 == if row.2.len() == 0 { None } else { Some(sorted_seq(row.2)[p95_index(row.2.len())]) }
}

/// Rolling latency windows per device, with the tenant of each device.
pub struct LatencyStore {
    entries: Vec<(u128, u128, LatencyWindow)>,
}

impl LatencyStore {
    #[verifier::type_invariant]
    spec fn wf(self) -> bool {
        &&& forall|i: int| 0 <= i < self.entries@.len() ==> (#[trigger] self.entries@[i]).2.capacity() == WINDOW
        &&& forall|i: int, j: int| 0 <= i < j < self.entries@.len() ==> (#[trigger] self.entries@[i]).0 != (#[trigger] self.entries@[j]).0
    }

    /// The rows `(device, tenant, samples)`, in first-report order.
    pub closed spec fn rows(self) -> Seq<(u128, u128, Seq<u32>)> {
        self.entries@.map_values(|e: (u128, u128, LatencyWindow)| (e.0, e.1, e.2.view_samples()))
    }

    /// The `(tenant, samples)` recorded for `device`.
    pub open spec fn recorded(self, device: u128) -> Option<(u128, Seq<u32>)> {
        match find_device(self.rows(), device) {
            Some(k) => Some((self.rows()[k].1, self.rows()[k].2)),
            None => None,
        }
    }

    /// An empty store.
    pub fn new() -> (r: LatencyStore)
        ensures
            r.rows() == Seq::<(u128, u128, Seq<u32>)>::empty(),
    {
        let r = LatencyStore { entries: Vec::new() };
        assert(r.rows() =~= Seq::<(u128, u128, Seq<u32>)>::empty());
        r
    }

    /// Record a sample for a device (updating the device's tenant).
    pub fn push(&mut self, tenant_id: u128, device_id: u128, rtt_ms: u32)
        ensures
            final(self).recorded(device_id) == Some((tenant_id, match old(self).recorded(device_id) {
                Some((_, s)) => after_push(s, WINDOW as nat, rtt_ms),
                None => after_push(seq![], WINDOW as nat, rtt_ms),
            })),
            forall|d: u128| d != device_id ==> final(self).recorded(d) == old(self).recorded(d),
    {
        proof {
            use_type_invariant(&*self);
        }
        let ghost old_rows = self.rows();
        let ghost old_entries = self.entries@;
        proof {
            lemma_find_device(old_rows, device_id);
        }
        let mut entries: Vec<(u128, u128, LatencyWindow)> = Vec::new();
        std::mem::swap(&mut entries, &mut self.entries);
        match locate(&entries, device_id) {
            Some(k) => {
                proof {
                    lemma_find_device(old_entries, device_id);
                    assert(find_device(old_rows, device_id) == Some(k as int)) by {
                        lemma_find_device(old_rows, device_id);
                        if let Some(a) = find_device(old_rows, device_id) {
                            assert(old_rows[a].0 == old_entries[a].0);
                            if a < k { assert(old_entries[a].0 == device_id); }
                            if k < a { assert(old_rows[k as int].0 == device_id); }
                        } else {
                            assert(old_rows[k as int].0 == device_id);
                        }
                    }
                }
                let (_, _, mut w) = entries.remove(k);
                w.push(rtt_ms);
                entries.insert(k, (device_id, tenant_id, w));
                proof {
                    assert forall|i: int, j: int| 0 <= i < j < entries@.len() implies (#[trigger] entries@[i]).0 != (#[trigger] entries@[j]).0 by {
                        assert(entries@[i].0 == old_entries[i].0);
                        assert(entries@[j].0 == old_entries[j].0);
                    }
                    assert forall|i: int| 0 <= i < entries@.len() implies (#[trigger] entries@[i]).2.capacity() == WINDOW by {
                        if i != k {
                            assert(entries@[i] == old_entries[i]);
                        }
                    }
                }
                self.entries = entries;
                proof {
                    assert(self.entries@ =~= old_entries.update(k as int, self.entries@[k as int]));
                    assert(forall|j: int| 0 <= j < old_rows.len() ==> old_rows[j].0 == old_entries[j].0);
                    assert(forall|j: int| 0 <= j < old_rows.len() ==> self.rows()[j].0 == old_rows[j].0);
                    assert forall|d: u128| find_device(self.rows(), d) == find_device(old_rows, d) by {
                        lemma_find_device(self.rows(), d);
                        lemma_find_device(old_rows, d);
                        if let Some(a) = find_device(self.rows(), d) {
                            if let Some(b) = find_device(old_rows, d) {
                                if a < b { assert(old_rows[a].0 == d); }
                                if b < a { assert(self.rows()[b].0 == d); }
                            } else {
                                assert(old_rows[a].0 == d);
                            }
                        } else if let Some(b) = find_device(old_rows, d) {
                            assert(self.rows()[b].0 == d);
                        }
                    }
                    assert forall|i: int| 0 <= i < self.entries@.len() && i != k implies self.rows()[i] == old_rows[i] by {}
                    assert forall|d: u128| d != device_id implies self.recorded(d) == old(self).recorded(d) by {
                        lemma_find_device(old_rows, d);
                        if let Some(a) = find_device(old_rows, d) {
                            assert(a != k);
                            assert(self.rows()[a] == old_rows[a]);
                        }
                    }
                }
            },
            None => {
                let mut w = LatencyWindow::new(WINDOW);
                w.push(rtt_ms);
                entries.push((device_id, tenant_id, w));
                proof {
                    lemma_find_device(old_entries, device_id);
                    assert forall|i: int, j: int| 0 <= i < j < entries@.len() implies (#[trigger] entries@[i]).0 != (#[trigger] entries@[j]).0 by {
                        if j == old_entries.len() {
                            assert(entries@[i] == old_entries[i]);
                        } else {
                            assert(entries@[i] == old_entries[i]);
                            assert(entries@[j] == old_entries[j]);
                        }
                    }
                    assert forall|i: int| 0 <= i < entries@.len() implies (#[trigger] entries@[i]).2.capacity() == WINDOW by {
                        if i < old_entries.len() {
                            assert(entries@[i] == old_entries[i]);
                        }
                    }
                }
                self.entries = entries;
                proof {
                    lemma_find_device(old_entries, device_id);
                    assert(self.rows().drop_last() =~= old_rows);
                    assert(forall|j: int| 0 <= j < old_rows.len() ==> old_rows[j].0 == old_entries[j].0);
                    assert forall|d: u128| d != device_id implies self.recorded(d) == old(self).recorded(d) by {
                        lemma_find_device(old_rows, d);
                        if let Some(a) = find_device(old_rows, d) {
                            assert(self.rows()[a] == old_rows[a]);
                        }
                    }
                }
            },
        }
    }

    /// Aggregates of every device of `tenant`, in first-report order.
    pub fn snapshot(&self, tenant_id: u128) -> (r: Vec<LatencySnapshot>)
        ensures
            r@.len() == tenant_rows(self.rows(), tenant_id).len(),
            forall|i: int| 0 <= i < r@.len() ==> snapshot_of(#[trigger] r@[i], tenant_rows(self.rows(), tenant_id)[i]),
    {
        proof {
            use_type_invariant(self);
        }
        let ghost rows = self.rows();
        let mut out: Vec<LatencySnapshot> = Vec::new();
        let mut i: usize = 0;
        while i < self.entries.len()
            invariant
                i <= self.entries@.len(),
                rows == self.rows(),
                forall|j: int| 0 <= j < self.entries@.len() ==> (#[trigger] self.entries@[j]).2.capacity() == WINDOW,
                out@.len() == tenant_rows(rows.take(i as int), tenant_id).len(),
                forall|j: int| 0 <= j < out@.len() ==> snapshot_of(#[trigger] out@[j], tenant_rows(rows.take(i as int), tenant_id)[j]),
            decreases self.entries.len() - i,
        {
            let e = &self.entries[i];
            assert(rows.take(i + 1).drop_last() =~= rows.take(i as int));
            assert(rows.take(i + 1).last() == (e.0, e.1, e.2.view_samples()));
            if e.1 == tenant_id {
                let n = e.2.len();
                assert(self.entries@[i as int].2.capacity() == WINDOW);
                let snap = LatencySnapshot { device_id: e.0, last: e.2.last(), p95: e.2.p95(), samples: e.2.samples() };
                out.push(snap);
            }
            i = i + 1;
        }
        assert(rows.take(rows.len() as int) =~= rows);
        out
    }
}

/// A cumulative counter reading: bytes sent and received, and when
/// (milliseconds since the Unix epoch).
#[derive(Debug, Clone, Copy, PartialEq, Eq, Structural)]
pub struct Reading {
    pub tx: u64,
    pub rx: u64,
    pub at: i64,
}

/// The two latest readings of a device; rates are derived from them.
#[derive(Debug, Clone, Copy, PartialEq, Eq, Structural)]
pub struct Readings {
    pub previous: Option<Reading>,
    pub latest: Reading,
}

/// The readings after a new one arrives.
pub open spec fn readings_after(old: Option<Readings>, r: Reading) -> Readings {
    Readings {
        previous: match old {
            Some(o) => Some(o.latest),
            None => None,
        },
        latest: r,
    }
}

/// The rows `(device, tenant, readings)` of `tenant`, in order.
pub open spec fn tenant_readings(rows: Seq<(u128, u128, Readings)>, tenant: u128) -> Seq<(u128, Readings)>
    decreases rows.len(),
{
    if rows.len() == 0 {
        seq![]
    } else {
        let prev = tenant_readings(rows.drop_last(), tenant);
        if rows.last().1 == tenant {
            prev.push((rows.last().0, rows.last().2))
        } else {
            prev
        }
    }
}

/// The latest throughput counters per device, with the tenant of each device.
pub struct ThroughputStore {
    entries: Vec<(u128, u128, Readings)>,
}

impl ThroughputStore {
    #[verifier::type_invariant]
    spec fn wf(self) -> bool {
        forall|i: int, j: int| 0 <= i < j < self.entries@.len() ==> (#[trigger] self.entries@[i]).0 != (#[trigger] self.entries@[j]).0
    }

    /// The rows `(device, tenant, readings)`, in first-report order.
    pub closed spec fn rows(self) -> Seq<(u128, u128, Readings)> {
        self.entries@
    }

    /// The `(tenant, readings)` recorded for `device`.
    pub open spec fn recorded(self, device: u128) -> Option<(u128, Readings)> {
        match find_device(self.rows(), device) {
            Some(k) => Some((self.rows()[k].1, self.rows()[k].2)),
            None => None,
        }
    }

    /// An empty store.
    pub fn new() -> (r: ThroughputStore)
        ensures
            r.rows() == Seq::<(u128, u128, Readings)>::empty(),
    {
        ThroughputStore { entries: Vec::new() }
    }

    /// Record cumulative `(tx, rx)` counters of a device read at `now`; the
    /// reading it replaces becomes the previous one.
    pub fn push(&mut self, tenant_id: u128, device_id: u128, tx: u64, rx: u64, now: i64)
        ensures
            final(self).recorded(device_id) == Some((tenant_id, readings_after(
                match old(self).recorded(device_id) {
                    Some((_, r)) => Some(r),
                    None => None,
                },
                Reading { tx, rx, at: now },
            ))),
            forall|d: u128| d != device_id ==> final(self).recorded(d) == old(self).recorded(d),
    {
        proof {
            use_type_invariant(&*self);
        }
        let ghost old_rows = self.rows();
        let reading = Reading { tx, rx, at: now };
        let mut entries: Vec<(u128, u128, Readings)> = Vec::new();
        std::mem::swap(&mut entries, &mut self.entries);
        proof {
            lemma_find_device(old_rows, device_id);
        }
        match locate(&entries, device_id) {
            Some(k) => {
                let old_latest = entries[k].2.latest;
                entries.set(k, (device_id, tenant_id, Readings { previous: Some(old_latest), latest: reading }));
                proof {
                    assert forall|i: int, j: int| 0 <= i < j < entries@.len() implies (#[trigger] entries@[i]).0 != (#[trigger] entries@[j]).0 by {
                        assert(entries@[i].0 == old_rows[i].0);
                        assert(entries@[j].0 == old_rows[j].0);
                    }
                }
                self.entries = entries;
                proof {
                    assert forall|d: u128| find_device(self.rows(), d) == find_device(old_rows, d) by {
                        lemma_find_device(self.rows(), d);
                        lemma_find_device(old_rows, d);
                        assert(forall|j: int| 0 <= j < old_rows.len() ==> self.rows()[j].0 == old_rows[j].0);
                        if let Some(a) = find_device(self.rows(), d) {
                            if let Some(b) = find_device(old_rows, d) {
                                if a < b { assert(old_rows[a].0 == d); }
                                if b < a { assert(self.rows()[b].0 == d); }
                            } else {
                                assert(old_rows[a].0 == d);
                            }
                        } else if let Some(b) = find_device(old_rows, d) {
                            assert(self.rows()[b].0 == d);
                        }
                    }
                    assert forall|d: u128| d != device_id implies self.recorded(d) == old(self).recorded(d) by {
                        lemma_find_device(old_rows, d);
                        if let Some(a) = find_device(old_rows, d) {
                            assert(a != k);
                        }
                    }
                }
            },
            None => {
                entries.push((device_id, tenant_id, Readings { previous: None, latest: reading }));
                proof {
                    assert forall|i: int, j: int| 0 <= i < j < entries@.len() implies (#[trigger] entries@[i]).0 != (#[trigger] entries@[j]).0 by {
                        assert(entries@[i] == old_rows[i]);
                        if j < old_rows.len() {
                            assert(entries@[j] == old_rows[j]);
                        }
                    }
                }
                self.entries = entries;
                proof {
                    assert(self.rows().drop_last() =~= old_rows);
                    assert forall|d: u128| d != device_id implies self.recorded(d) == old(self).recorded(d) by {
                        lemma_find_device(old_rows, d);
                        if let Some(a) = find_device(old_rows, d) {
                            assert(self.rows()[a] == old_rows[a]);
                        }
                    }
                }
            },
        }
    }

    /// The readings of every device of `tenant`, in first-report order.
    pub fn snapshot(&self, tenant_id: u128) -> (r: Vec<(u128, Readings)>)
        ensures
            r@ == tenant_readings(self.rows(), tenant_id),
    {
        let mut out: Vec<(u128, Readings)> = Vec::new();
        let mut i: usize = 0;
        while i < self.entries.len()
            invariant
                i <= self.entries@.len(),
                out@ == tenant_readings(self.entries@.take(i as int), tenant_id),
            decreases self.entries.len() - i,
        {
            assert(self.entries@.take(i + 1).drop_last() =~= self.entries@.take(i as int));
            let e = self.entries[i];
            if e.1 == tenant_id {
                out.push((e.0, e.2));
            }
            i = i + 1;
        }
        assert(self.entries@.take(self.entries@.len() as int) =~= self.entries@);
        out
    }
}

} // verus!
