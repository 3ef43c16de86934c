//! The time-bounded retention window of snapshots.
use vstd::prelude::*;
use std::collections::VecDeque;
use crate::stats::{ConnectionStats, ValModel};

verus! {

broadcast use vstd::std_specs::vecdeque::group_vec_dequeue_axioms;

/// Mathematical model of one snapshot: its arrival time and the statistics
/// of every monitored connection at that instant.
pub struct SnapModel {
    pub timestamp: u64,
    pub connections: Seq<Seq<(Seq<char>, ValModel)>>,
}

/// One arrival of statistics for all monitored connections, stamped with
/// its arrival time on the monotonic clock, in milliseconds.
pub struct HistoryItem {
    pub timestamp: u64,
    pub connections: Vec<ConnectionStats>,
}

impl View for HistoryItem {
    type V = SnapModel;

    open spec fn view(&self) -> SnapModel {
        SnapModel {
            timestamp: self.timestamp,
            connections: self.connections@.map_values(|c: ConnectionStats| c@),
        }
    }
}

/// Whether a snapshot taken at `ts` is still inside the retention period
/// `ret` when the instant `now` is reached.
pub open spec fn is_fresh(ts: int, now: int, ret: int) -> bool {
    now - ts < ret
}

/// How many snapshots a lazy eviction pass removes: the length of the
/// longest stale prefix, stopping at the first still-fresh entry.
pub open spec fn stale_prefix_len(s: Seq<SnapModel>, now: int, ret: int) -> int
    decreases s.len(),
{
    if s.len() == 0 {
        0
    } else if is_fresh(s[0].timestamp as int, now, ret) {
        0
    } else {
        1 + stale_prefix_len(s.drop_first(), now, ret)
    }
}

proof fn lemma_stale_prefix_len_bounds(s: Seq<SnapModel>, now: int, ret: int)
    ensures
        0 <= stale_prefix_len(s, now, ret) <= s.len(),
    decreases s.len(),
{
    if s.len() > 0 && !is_fresh(s[0].timestamp as int, now, ret) {
        lemma_stale_prefix_len_bounds(s.drop_first(), now, ret);
    }
}

/// The eviction pass stops exactly at the first fresh entry.
proof fn lemma_stale_prefix_char(s: Seq<SnapModel>, now: int, ret: int, k: int)
    requires
        0 <= k <= s.len(),
        forall|i: int| 0 <= i < k ==> !is_fresh(s[i].timestamp as int, now, ret),
        k < s.len() ==> is_fresh(s[k].timestamp as int, now, ret),
    ensures
        stale_prefix_len(s, now, ret) == k,
    decreases k,
{
    if k == 0 {
    } else {
        let t = s.drop_first();
        assert(forall|i: int| 0 <= i < k - 1 ==> t[i] == s[i + 1]);
        lemma_stale_prefix_char(t, now, ret, k - 1);
    }
}

/// The time-ordered buffer of retained snapshots, oldest first. A new
/// arrival is appended at the tail; entries whose age, measured against the
/// new arrival's timestamp, has reached the retention period are then
/// evicted from the head, stopping at the first still-fresh entry.
pub struct Window {
    retention_period: u64,
    history: VecDeque<HistoryItem>,
}

impl Window {
    /// The models of the retained snapshots, oldest first.
    pub closed spec fn snaps(&self) -> Seq<SnapModel> {
        Seq::new(self.history@.len(), |i: int| self.history@[i]@)
    }

    /// The configured retention period, in milliseconds.
    pub closed spec fn retention(&self) -> u64 {
        self.retention_period
    }

    /// Timestamps never decrease along the buffer.
    pub open spec fn time_ordered(s: Seq<SnapModel>) -> bool {
        forall|i: int, j: int| 0 <= i <= j < s.len() ==> s[i].timestamp <= s[j].timestamp
    }

    /// An empty window with the given retention period, in milliseconds.
    pub fn new(retention_period: u64) -> (w: Window)
        ensures
            w.snaps() == Seq::<SnapModel>::empty(),
            w.retention() == retention_period,
    {
        let w = Window { retention_period, history: VecDeque::new() };
        proof {
            assert(w.snaps() =~= Seq::<SnapModel>::empty());
        }
        w
    }

    /// The most recently ingested, still-retained snapshot, or none while
    /// no snapshot has arrived yet.
    pub fn latest(&self) -> (r: Option<&HistoryItem>)
        ensures
            match r {
                Some(h) => self.snaps().len() > 0 && h@ == self.snaps().last(),
                None => self.snaps().len() == 0,
            },
    {
        let n = self.history.len();
        if n == 0 {
            None
        } else {
            Some(&self.history[n - 1])
        }
    }

    /// How many snapshots are retained.
    pub fn len(&self) -> (n: usize)
        ensures
            n as int == self.snaps().len(),
    {
        self.history.len()
    }

    /// The retained snapshot at position `i`, oldest first.
    pub fn get(&self, i: usize) -> (h: &HistoryItem)
        requires
            0 <= i < self.snaps().len(),
        ensures
            h@ == self.snaps()[i as int],
    {
        &self.history[i]
    }

    /// Appends the new snapshot at the tail, then evicts from the head
    /// every entry whose age has reached the retention period, the age
    /// measured against the new snapshot's own arrival time, stopping at
    /// the first still-fresh entry.
    pub fn ingest(&mut self, item: HistoryItem)
        ensures
            final(self).retention() == old(self).retention(),
            final(self).snaps() == old(self).snaps().push(item@).skip(
                stale_prefix_len(
                    old(self).snaps().push(item@),
                    item@.timestamp as int,
                    old(self).retention() as int,
                ),
            ),
            old(self).retention() > 0 ==> {
                &&& final(self).snaps().len() > 0
                &&& final(self).snaps().last() == item@
            },
    {
        let now = item.timestamp;
        let ghost all: Seq<SnapModel> = old(self).snaps().push(item@);
        let ghost ret = self.retention_period as int;
        self.history.push_back(item);
        proof {
            assert(self.snaps() =~= all);
        }
        let ghost mut k: int = 0;
        while self.history.len() > 0 && self.history[0].timestamp <= now && now - self.history[0].timestamp
            >= self.retention_period
            invariant
                self.retention_period as int == ret,
                0 <= k <= all.len(),
                self.snaps() =~= all.skip(k),
                forall|i: int| 0 <= i < k ==> !is_fresh(all[i].timestamp as int, now as int, ret),
            decreases self.history@.len(),
        {
            proof {
                assert(self.history@.len() > 0);
                assert(self.snaps().len() == self.history@.len());
                assert(all.skip(k).len() == all.len() - k);
                assert(k < all.len());
                assert(all.skip(k) =~= all.subrange(k, all.len() as int));
                assert(all.skip(k)[0] == all[k]);
                assert(self.snaps()[0] == self.history@[0]@);
                assert(!is_fresh(all[k].timestamp as int, now as int, ret));
            }
            let _evicted = self.history.pop_front();
            proof {
                k = k + 1;
                assert(self.snaps() =~= all.skip(k)) by {
                    assert(forall|i: int|
                        0 <= i < self.history@.len() ==> self.snaps()[i] == self.history@[i]@);
                    assert(all.skip(k - 1).drop_first() =~= all.skip(k));
                }
            }
        }
        proof {
            if k < all.len() {
                assert(all.skip(k)[0] == all[k]);
                assert(is_fresh(all[k].timestamp as int, now as int, ret));
            }
            lemma_stale_prefix_char(all, now as int, ret, k);
            if ret > 0 {
                // The new arrival's own age is zero, so it is never evicted.
                assert(all.last() == item@);
                assert(is_fresh(item@.timestamp as int, now as int, ret));
                assert(k < all.len());
                assert(self.snaps().last() == all.skip(k).last());
                assert(all.skip(k).last() == all.last());
            }
        }
    }
}

/// Eviction is exact for time-ordered arrivals: after the pass for an
/// arrival at `now`, a snapshot is retained if and only if it is still
/// fresh, i.e. `now - timestamp < retention`; no fresh snapshot is evicted
/// and no stale one is kept.
pub proof fn lemma_retention_exact(s: Seq<SnapModel>, now: int, ret: int)
    requires
        Window::time_ordered(s),
    ensures
        forall|i: int| 0 <= i < stale_prefix_len(s, now, ret) ==> !is_fresh(
            s[i].timestamp as int,
            now,
            ret,
        ),
        forall|i: int| stale_prefix_len(s, now, ret) <= i < s.len() ==> is_fresh(
            s[i].timestamp as int,
            now,
            ret,
        ),
    decreases s.len(),
{
    lemma_stale_prefix_len_bounds(s, now, ret);
    let m = stale_prefix_len(s, now, ret);
    if s.len() == 0 {
    } else if is_fresh(s[0].timestamp as int, now, ret) {
        assert(m == 0);
        assert forall|i: int| 0 <= i < s.len() implies is_fresh(
            s[i].timestamp as int,
            now,
            ret,
        ) by {
            assert(s[0].timestamp <= s[i].timestamp);
        }
    } else {
        let t = s.drop_first();
        assert(forall|i: int| 0 <= i < t.len() ==> t[i] == s[i + 1]);
        assert(Window::time_ordered(t)) by {
            assert forall|i: int, j: int|
                0 <= i <= j < t.len() implies t[i].timestamp <= t[j].timestamp by {
                assert(s[i + 1].timestamp <= s[j + 1].timestamp);
            }
        }
        lemma_retention_exact(t, now, ret);
        assert(m == 1 + stale_prefix_len(t, now, ret));
        assert forall|i: int| 0 <= i < m implies !is_fresh(s[i].timestamp as int, now, ret) by {
            if i > 0 {
                assert(s[i] == t[i - 1]);
            }
        }
        assert forall|i: int| m <= i < s.len() implies is_fresh(s[i].timestamp as int, now, ret) by {
            assert(s[i] == t[i - 1]);
        }
    }
}

} // verus!
