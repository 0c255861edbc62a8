//! The frame reaper's bookkeeping: consumer release signals are gathered
//! per producer release point into buckets, and a bucket is flushed once it
//! has heard from every consumer of its frame or once it is too old.

use std::collections::HashMap;

use vstd::prelude::*;
use vstd::std_specs::iter::IteratorSpec;

verus! {

broadcast use vstd::std_specs::hash::group_hash_axioms;

/// How long a bucket may wait for lagging consumers, in milliseconds of the
/// monotonic clock, before it is force-flushed.
pub const BUCKET_TIMEOUT_MS: u64 = 500;

/// How long the flush waits for consumer signals, in nanoseconds.
pub const WAIT_TIMEOUT_NS: i64 = 500_000_000;

/// One frame's release work: which producer point it releases, the
/// consumer's release handle (none when the frame had no recipients), and
/// the frame's total fan-out width.
pub struct FrameRecord<H> {
    pub release_point: u64,
    pub consumer_handle: Option<H>,
    pub expected_count: u32,
}

/// The consumer handles gathered so far for one release point.
pub struct Bucket<H> {
    pub handles: Vec<H>,
    /// The widest fan-out any record for this point reported.
    pub expected: u32,
    /// When the bucket is force-flushed, in milliseconds of the monotonic
    /// clock.
    pub deadline: u64,
}

/// The content of a bucket.
pub struct BucketView<H> {
    pub handles: Seq<H>,
    pub expected: u32,
    pub deadline: u64,
}

impl<H> View for Bucket<H> {
    type V = BucketView<H>;

    open spec fn view(&self) -> BucketView<H> {
        BucketView { handles: self.handles@, expected: self.expected, deadline: self.deadline }
    }
}

/// The content of a frame record, with the time it was taken in.
pub struct RecordView<H> {
    pub point: u64,
    pub handle: Option<H>,
    pub expected: u32,
    pub now: u64,
}

impl<H> FrameRecord<H> {
    /// This record taken in at time `now`.
    pub open spec fn at(&self, now: u64) -> RecordView<H> {
        RecordView {
            point: self.release_point,
            handle: self.consumer_handle,
            expected: self.expected_count,
            now: now,
        }
    }
}

/// The bucket of the record's point once the record's handle `h` is added:
/// the handle goes last, the expected count widens to the record's if
/// larger, and a new bucket's deadline is the record's time plus the
/// bucket timeout.
pub open spec fn grown_bucket<H>(m: Map<u64, BucketView<H>>, r: RecordView<H>, h: H) -> BucketView<H> {
    let had = m.contains_key(r.point);
    let prior = if had { m[r.point].expected } else { r.expected };
    BucketView {
        handles: if had { m[r.point].handles.push(h) } else { seq![h] },
        expected: if r.expected > prior { r.expected } else { prior },
        deadline: if had { m[r.point].deadline } else { (r.now + BUCKET_TIMEOUT_MS) as u64 },
    }
}

/// A bucket is complete once it holds as many handles as its fan-out.
pub open spec fn complete<H>(b: BucketView<H>) -> bool {
    (b.handles.len() as u32) >= b.expected
}

/// The bucket a record hands out for flushing, if any.
pub open spec fn record_flush<H>(m: Map<u64, BucketView<H>>, r: RecordView<H>) -> Option<BucketView<H>> {
    match r.handle {
        None => None,
        Some(h) => if complete(grown_bucket(m, r, h)) {
            Some(grown_bucket(m, r, h))
        } else {
            None
        },
    }
}

/// The pending buckets after a record is taken in.
pub open spec fn after_record<H>(m: Map<u64, BucketView<H>>, r: RecordView<H>) -> Map<u64, BucketView<H>> {
    match r.handle {
        None => m,
        Some(h) => if complete(grown_bucket(m, r, h)) {
            m.remove(r.point)
        } else {
            m.insert(r.point, grown_bucket(m, r, h))
        },
    }
}

/// The pending buckets after a run of records, in order.
pub open spec fn run_state<H>(m: Map<u64, BucketView<H>>, rs: Seq<RecordView<H>>) -> Map<u64, BucketView<H>>
    decreases rs.len(),
{
    if rs.len() == 0 {
        m
    } else {
        after_record(run_state(m, rs.drop_last()), rs.last())
    }
}

/// What each record of a run hands out for flushing, in order.
pub open spec fn run_flushes<H>(m: Map<u64, BucketView<H>>, rs: Seq<RecordView<H>>) -> Seq<Option<BucketView<H>>>
    decreases rs.len(),
{
    if rs.len() == 0 {
        Seq::empty()
    } else {
        run_flushes(m, rs.drop_last()).push(record_flush(run_state(m, rs.drop_last()), rs.last()))
    }
}

/// A pending bucket is force-flushed at `now` when its deadline has passed.
pub open spec fn expires<H>(m: Map<u64, BucketView<H>>, p: u64, now: u64) -> bool {
    m.contains_key(p) && m[p].deadline <= now
}

/// The widest expected count among the first `j` records.
pub open spec fn widest_expected<H>(rs: Seq<RecordView<H>>, j: int) -> u32
    decreases j,
{
    if j <= 0 {
        0
    } else {
        let w = widest_expected(rs, j - 1);
        if rs[j - 1].expected > w { rs[j - 1].expected } else { w }
    }
}

/// The handles a run of records carries, in arrival order.
pub open spec fn run_handles<H>(rs: Seq<RecordView<H>>) -> Seq<H> {
    rs.map_values(|r: RecordView<H>| r.handle->0)
}

/// The pending buckets of one renderer, keyed by release point.
pub struct ReaperState<H> {
    buckets: HashMap<u64, Bucket<H>>,
}

/// What to do after a frame record was taken in.
pub enum RecordAction<H> {
    /// The frame had no recipients: advance the producer's release point
    /// directly.
    AdvanceReleasePoint(u64),
    /// The bucket still waits for consumers.
    Pending,
    /// Every expected consumer has signalled: flush this bucket.
    Flush(u64, Bucket<H>),
}

impl<H> ReaperState<H> {
    /// The pending buckets by release point.
    pub closed spec fn pending(&self) -> Map<u64, Bucket<H>> {
        self.buckets@
    }

    /// The content of the pending buckets by release point.
    pub open spec fn buckets_view(&self) -> Map<u64, BucketView<H>> {
        Map::new(|p: u64| self.pending().contains_key(p), |p: u64| self.pending()[p]@)
    }

    /// Every pending bucket holds at least one handle and fewer handles
    /// than its frame's fan-out.
    pub open spec fn wf(&self) -> bool {
        forall|p: u64|
            #[trigger] self.pending().contains_key(p) ==> {
                &&& self.pending()[p].handles@.len() > 0
                &&& (self.pending()[p].handles@.len() as u32) < self.pending()[p].expected
            }
    }

    /// A reaper with no pending bucket.
    pub fn new() -> (r: ReaperState<H>)
        ensures
            r.pending() == Map::<u64, Bucket<H>>::empty(),
            r.wf(),
    {
        ReaperState { buckets: HashMap::new() }
    }

    /// The number of pending buckets.
    pub fn pending_count(&self) -> (n: usize)
        ensures
            n == self.pending().len(),
    {
        self.buckets.len()
    }

    /// Takes in one frame record at time `now`. A record without a consumer
    /// handle asks to advance its release point and changes nothing. A
    /// record with a handle adds it to its point's bucket (made with a
    /// deadline of `now` plus the bucket timeout if the point had none),
    /// widening the bucket's expected count to the record's if larger; once
    /// the bucket holds at least that many handles it leaves the table and
    /// is handed out for flushing.
    pub fn on_record(&mut self, record: FrameRecord<H>, now: u64) -> (act: RecordAction<H>)
        requires
            old(self).wf(),
            record.consumer_handle is Some && !old(self).pending().contains_key(record.release_point)
                ==> now + BUCKET_TIMEOUT_MS <= u64::MAX,
        ensures
            final(self).wf(),
            final(self).buckets_view() == after_record(old(self).buckets_view(), record.at(now)),
            match act {
                RecordAction::Flush(q, b) => q == record.release_point
                    && record_flush(old(self).buckets_view(), record.at(now)) == Some(b@),
                RecordAction::Pending => record.consumer_handle is Some
                    && record_flush(old(self).buckets_view(), record.at(now)) is None,
                RecordAction::AdvanceReleasePoint(q) => q == record.release_point
                    && record.consumer_handle is None,
            },
            match record.consumer_handle {
                None => {
                    &&& act == RecordAction::<H>::AdvanceReleasePoint(record.release_point)
                    &&& final(self).pending() == old(self).pending()
                },
                Some(h) => {
                    let p = record.release_point;
                    let had = old(self).pending().contains_key(p);
                    let handles = if had {
                        old(self).pending()[p].handles@.push(h)
                    } else {
                        seq![h]
                    };
                    let prior_expected = if had { old(self).pending()[p].expected } else { record.expected_count };
                    let expected = if record.expected_count > prior_expected { record.expected_count } else { prior_expected };
                    let deadline = if had { old(self).pending()[p].deadline } else { (now + BUCKET_TIMEOUT_MS) as u64 };
                    if (handles.len() as u32) >= expected {
                        &&& act matches RecordAction::Flush(q, b) && q == p && b.handles@ == handles
                            && b.expected == expected && b.deadline == deadline
                        &&& final(self).pending() == old(self).pending().remove(p)
                    } else {
                        &&& act is Pending
                        &&& final(self).pending().dom() == old(self).pending().dom().insert(p)
                        &&& final(self).pending()[p].handles@ == handles
                        &&& final(self).pending()[p].expected == expected
                        &&& final(self).pending()[p].deadline == deadline
                        &&& forall|q: u64| q != p && #[trigger] old(self).pending().contains_key(q)
                            ==> final(self).pending()[q] == old(self).pending()[q]
                    }
                },
            },
    {
        let point = record.release_point;
        match record.consumer_handle {
            None => RecordAction::AdvanceReleasePoint(point),
            Some(h) => {
                let mut bucket = match self.buckets.remove(&point) {
                    Some(b) => b,
                    None => Bucket {
                        handles: Vec::new(),
                        expected: record.expected_count,
                        deadline: now + BUCKET_TIMEOUT_MS,
                    },
                };
                if record.expected_count > bucket.expected {
                    bucket.expected = record.expected_count;
                }
                bucket.handles.push(h);
                let ghost grown = grown_bucket(old(self).buckets_view(), record.at(now), h);
                assert(bucket@ == grown);
                if bucket.handles.len() as u32 >= bucket.expected {
                    proof {
                        assert(self.buckets_view() =~= old(self).buckets_view().remove(point));
                    }
                    RecordAction::Flush(point, bucket)
                } else {
                    self.buckets.insert(point, bucket);
                    proof {
                        assert(self.buckets_view() =~= old(self).buckets_view().insert(point, grown));
                    }
                    RecordAction::Pending
                }
            },
        }
    }

    /// The release points of all pending buckets.
    fn pending_points(&self) -> (r: Vec<u64>)
        ensures
            forall|p: u64| #[trigger] self.pending().contains_key(p) <==> r@.contains(p),
            r@.no_duplicates(),
    {
        let ghost ks = vstd::std_specs::hash::spec_keys_iter(&self.buckets).remaining();
        let mut points: Vec<u64> = Vec::new();
        for p in it: self.buckets.keys()
            invariant
                it.seq() == ks,
                points@.len() == it.index(),
                forall|i: int| 0 <= i < it.index() ==> points@[i] == *ks[i],
        {
            points.push(*p);
        }
        assert(points@.len() == ks.len());
        assert(points@ =~= ks.unref());
        assert(ks.unref().to_set() == self.buckets@.dom());
        assert forall|p: u64| #[trigger] self.pending().contains_key(p) <==> points@.contains(p) by {
            assert(ks.unref().to_set().contains(p) <==> ks.unref().contains(p));
        }
        points
    }

    /// The earliest deadline among the pending buckets; `None` when no
    /// bucket is pending.
    pub fn next_deadline(&self) -> (r: Option<u64>)
        ensures
            match r {
                None => forall|p: u64| !(#[trigger] self.pending().contains_key(p)),
                Some(d) => {
                    &&& exists|p: u64| #[trigger] self.pending().contains_key(p) && self.pending()[p].deadline == d
                    &&& forall|p: u64| #[trigger] self.pending().contains_key(p) ==> d <= self.pending()[p].deadline
                },
            },
    {
        let points = self.pending_points();
        let mut best: Option<u64> = None;
        let mut k: usize = 0;
        while k < points.len()
            invariant
                k <= points@.len(),
                forall|p: u64| #[trigger] self.pending().contains_key(p) <==> points@.contains(p),
                match best {
                    None => k == 0,
                    Some(d) => {
                        &&& exists|i: int| 0 <= i < k && self.pending()[#[trigger] points@[i]].deadline == d
                        &&& forall|i: int| 0 <= i < k ==> d <= self.pending()[#[trigger] points@[i]].deadline
                    },
                },
            decreases points@.len() - k,
        {
            let p = points[k];
            assert(points@.contains(p));
            match self.buckets.get(&p) {
                Some(b) => {
                    let d = b.deadline;
                    best = match best {
                        None => Some(d),
                        Some(cur) => if d < cur { Some(d) } else { Some(cur) },
                    };
                    proof {
                        assert(self.pending()[points@[k as int]].deadline == d);
                    }
                },
                None => {
                    assert(false);
                },
            }
            k = k + 1;
        }
        proof {
            match best {
                None => {
                    assert forall|p: u64| !(#[trigger] self.pending().contains_key(p)) by {
                        if self.pending().contains_key(p) {
                            assert(points@.contains(p));
                        }
                    }
                },
                Some(d) => {
                    let i = choose|i: int| 0 <= i < k && self.pending()[#[trigger] points@[i]].deadline == d;
                    assert(self.pending().contains_key(points@[i]));
                    assert forall|p: u64| #[trigger] self.pending().contains_key(p) implies d <= self.pending()[p].deadline by {
                        assert(points@.contains(p));
                        let j = choose|j: int| 0 <= j < points@.len() && points@[j] == p;
                        assert(d <= self.pending()[points@[j]].deadline);
                    }
                },
            }
        }
        best
    }

    /// Removes and returns every pending bucket whose deadline is at or
    /// before `now`, each with its release point, in no particular order.
    pub fn take_expired(&mut self, now: u64) -> (expired: Vec<(u64, Bucket<H>)>)
        requires
            old(self).wf(),
        ensures
            final(self).wf(),
            forall|p: u64| #[trigger] final(self).pending().contains_key(p) <==> (old(self).pending().contains_key(p)
                && old(self).pending()[p].deadline > now),
            forall|p: u64| #[trigger] final(self).pending().contains_key(p) ==> final(self).pending()[p] == old(self).pending()[p],
            forall|i: int| 0 <= i < expired@.len() ==> {
                &&& old(self).pending().contains_key((#[trigger] expired@[i]).0)
                &&& old(self).pending()[expired@[i].0] == expired@[i].1
                &&& expired@[i].1.deadline <= now
                &&& expired@[i].1.handles@.len() > 0
            },
            forall|p: u64| #[trigger] old(self).pending().contains_key(p) && old(self).pending()[p].deadline <= now
                ==> exists|i: int| 0 <= i < expired@.len() && (#[trigger] expired@[i]).0 == p,
            forall|i: int, j: int| 0 <= i < j < expired@.len() ==> (#[trigger] expired@[i]).0 != (#[trigger] expired@[j]).0,
            forall|p: u64| #[trigger] expires(old(self).buckets_view(), p, now)
                <==> exists|i: int| 0 <= i < expired@.len() && (#[trigger] expired@[i]).0 == p,
            forall|i: int| 0 <= i < expired@.len() ==> (#[trigger] expired@[i]).1@ == old(self).buckets_view()[expired@[i].0],
            forall|p: u64| #[trigger] final(self).buckets_view().contains_key(p) <==> (old(self).buckets_view().contains_key(p)
                && !expires(old(self).buckets_view(), p, now)),
            forall|p: u64| #[trigger] final(self).buckets_view().contains_key(p)
                ==> final(self).buckets_view()[p] == old(self).buckets_view()[p],
    {
        let ghost before = self.buckets@;
        let points = self.pending_points();
        assert(self.pending() == before);
        let mut due: Vec<u64> = Vec::new();
        let mut k: usize = 0;
        while k < points.len()
            invariant
                self.buckets@ == before,
                k <= points@.len(),
                points@.no_duplicates(),
                forall|p: u64| #[trigger] before.contains_key(p) <==> points@.contains(p),
                forall|i: int| 0 <= i < due@.len() ==> {
                    &&& before.contains_key(#[trigger] due@[i])
                    &&& before[due@[i]].deadline <= now
                    &&& exists|j: int| 0 <= j < k && points@[j] == due@[i]
                },
                forall|j: int| 0 <= j < k && before[#[trigger] points@[j]].deadline <= now ==> due@.contains(points@[j]),
                due@.no_duplicates(),
            decreases points@.len() - k,
        {
            let p = points[k];
            assert(points@.contains(p));
            match self.buckets.get(&p) {
                Some(b) => {
                    if b.deadline <= now {
                        let ghost prev = due@;
                        proof {
                            assert forall|i: int| 0 <= i < prev.len() implies prev[i] != p by {
                                let j = choose|j: int| 0 <= j < k && points@[j] == prev[i];
                                assert(points@[j] != points@[k as int]);
                            }
                        }
                        due.push(p);
                        proof {
                            assert forall|j: int| 0 <= j < k + 1 && before[#[trigger] points@[j]].deadline <= now implies due@.contains(points@[j]) by {
                                if j < k {
                                    assert(prev.contains(points@[j]));
                                    let m = choose|m: int| 0 <= m < prev.len() && prev[m] == points@[j];
                                    assert(due@[m] == points@[j]);
                                } else {
                                    assert(due@[prev.len() as int] == p);
                                }
                            }
                            assert forall|i: int| 0 <= i < due@.len() implies {
                                &&& before.contains_key(#[trigger] due@[i])
                                &&& before[due@[i]].deadline <= now
                                &&& exists|j: int| 0 <= j < k + 1 && points@[j] == due@[i]
                            } by {
                                if i < prev.len() {
                                    assert(due@[i] == prev[i]);
                                } else {
                                    assert(points@[k as int] == due@[i]);
                                }
                            }
                        }
                    } else {
                        proof {
                            assert forall|j: int| 0 <= j < k + 1 && before[#[trigger] points@[j]].deadline <= now implies due@.contains(points@[j]) by {
                            }
                        }
                    }
                },
                None => {
                    assert(false);
                },
            }
            k = k + 1;
        }
        let mut out: Vec<(u64, Bucket<H>)> = Vec::new();
        let mut m: usize = 0;
        while m < due.len()
            invariant
                m <= due@.len(),
                due@.no_duplicates(),
                forall|i: int| 0 <= i < due@.len() ==> {
                    &&& before.contains_key(#[trigger] due@[i])
                    &&& before[due@[i]].deadline <= now
                },
                forall|p: u64| #[trigger] before.contains_key(p) && before[p].deadline <= now ==> due@.contains(p),
                forall|p: u64| #[trigger] self.buckets@.contains_key(p) <==> (before.contains_key(p) && !due@.take(m as int).contains(p)),
                forall|p: u64| #[trigger] self.buckets@.contains_key(p) ==> self.buckets@[p] == before[p],
                out@.len() == m,
                forall|i: int| 0 <= i < m ==> (#[trigger] out@[i]).0 == due@[i] && out@[i].1 == before[due@[i]],
            decreases due@.len() - m,
        {
            let p = due[m];
            let ghost prev = self.buckets@;
            proof {
                assert(!due@.take(m as int).contains(p)) by {
                    if due@.take(m as int).contains(p) {
                        let j = choose|j: int| 0 <= j < m && due@.take(m as int)[j] == p;
                        assert(due@[j] == due@[m as int]);
                    }
                }
                assert(due@.take(m + 1) =~= due@.take(m as int).push(p));
            }
            match self.buckets.remove(&p) {
                Some(b) => {
                    out.push((p, b));
                },
                None => {
                    assert(false);
                },
            }
            proof {
                assert forall|q: u64| #[trigger] self.buckets@.contains_key(q) <==> (before.contains_key(q) && !due@.take(m + 1).contains(q)) by {
                    if q == p {
                        assert(due@.take(m + 1)[m as int] == p);
                    } else {
                        if due@.take(m + 1).contains(q) {
                            let j = choose|j: int| 0 <= j < m + 1 && #[trigger] due@.take(m + 1)[j] == q;
                            assert(due@.take(m as int)[j] == q);
                        }
                        if due@.take(m as int).contains(q) {
                            let j = choose|j: int| 0 <= j < m && #[trigger] due@.take(m as int)[j] == q;
                            assert(due@.take(m + 1)[j] == q);
                        }
                    }
                }
            }
            m = m + 1;
        }
        proof {
            assert(due@.take(due@.len() as int) =~= due@);
            assert forall|p: u64| #[trigger] before.contains_key(p) && before[p].deadline <= now
                implies exists|i: int| 0 <= i < out@.len() && (#[trigger] out@[i]).0 == p by {
                assert(due@.contains(p));
                let i = choose|i: int| 0 <= i < due@.len() && due@[i] == p;
                assert(out@[i].0 == p);
            }
            assert forall|i: int, j: int| 0 <= i < j < out@.len() implies (#[trigger] out@[i]).0 != (#[trigger] out@[j]).0 by {
                assert(due@[i] != due@[j]);
            }
            assert forall|p: u64| #[trigger] expires(old(self).buckets_view(), p, now)
                implies exists|i: int| 0 <= i < out@.len() && (#[trigger] out@[i]).0 == p by {
                assert(before.contains_key(p) && before[p].deadline <= now);
            }
            assert forall|i: int| 0 <= i < out@.len() implies (#[trigger] out@[i]).1.handles@.len() > 0 by {
                assert(old(self).pending().contains_key(out@[i].0));
            }
            assert forall|q: u64| #[trigger] self.pending().contains_key(q) implies {
                &&& self.pending()[q].handles@.len() > 0
                &&& (self.pending()[q].handles@.len() as u32) < self.pending()[q].expected
            } by {
                assert(old(self).pending().contains_key(q));
            }
            assert forall|q: u64| #[trigger] self.pending().contains_key(q) <==> (old(self).pending().contains_key(q)
                && old(self).pending()[q].deadline > now) by {
                if old(self).pending().contains_key(q) && old(self).pending()[q].deadline <= now {
                    assert(due@.contains(q));
                }
                if self.pending().contains_key(q) {
                    assert(!due@.contains(q));
                    if before[q].deadline <= now {
                        assert(due@.contains(q));
                    }
                }
            }
        }
        out
    }
}

/// The bucket of point `p` after the first `j` records of a run that all
/// carry a handle for `p`.
pub open spec fn run_bucket<H>(rs: Seq<RecordView<H>>, j: int) -> BucketView<H> {
    BucketView {
        handles: run_handles(rs.take(j)),
        expected: widest_expected(rs, j),
        deadline: (rs[0].now + BUCKET_TIMEOUT_MS) as u64,
    }
}

/// While no record of such a run has completed the bucket, the bucket of
/// `p` holds the handles so far and nothing was flushed.
proof fn lemma_run_prefix<H>(m: Map<u64, BucketView<H>>, p: u64, rs: Seq<RecordView<H>>, j: int)
    requires
        !m.contains_key(p),
        forall|i: int| 0 <= i < rs.len() ==> (#[trigger] rs[i]).point == p && rs[i].handle is Some,
        0 <= j < rs.len(),
        forall|i: int| 1 <= i <= j ==> (i as u32) < #[trigger] widest_expected(rs, i),
        rs.len() <= u32::MAX,
    ensures
        j == 0 ==> run_state(m, rs.take(j)) == m,
        j > 0 ==> run_state(m, rs.take(j)) == m.insert(p, run_bucket(rs, j)),
        run_flushes(m, rs.take(j)).len() == j,
        forall|i: int| 0 <= i < j ==> (#[trigger] run_flushes(m, rs.take(j))[i]) is None,
    decreases j,
{
    if j == 0 {
        assert(rs.take(0) =~= Seq::<RecordView<H>>::empty());
    } else {
        lemma_run_prefix(m, p, rs, j - 1);
        let t = rs.take(j);
        assert(t.drop_last() =~= rs.take(j - 1));
        assert(t.last() == rs[j - 1]);
        let prev = run_state(m, rs.take(j - 1));
        let r = rs[j - 1];
        let h = r.handle->0;
        let g = grown_bucket(prev, r, h);
        assert(run_handles(t) =~= if j == 1 { seq![h] } else { run_handles(rs.take(j - 1)).push(h) });
        if j == 1 {
            assert(!prev.contains_key(p));
            assert(widest_expected(rs, 0) == 0);
        } else {
            assert(prev.contains_key(p));
        }
        assert(g == run_bucket(rs, j));
        assert(run_handles(t).len() == j);
        assert(!complete(g));
        assert(run_state(m, t) =~= m.insert(p, run_bucket(rs, j)));
        assert forall|i: int| 0 <= i < j implies (#[trigger] run_flushes(m, t)[i]) is None by {
            if i < j - 1 {
                assert(run_flushes(m, t)[i] == run_flushes(m, rs.take(j - 1))[i]);
            }
        }
    }
}

/// Over a run of records that each carry a handle for point `p`, starting
/// with no bucket for `p` pending: while the count of handles stays below
/// the widest expected count reported so far nothing is flushed; at the
/// first record that brings the count up to it, one flush hands out every
/// handle of the run in arrival order, with that widest count and the
/// deadline set by the first record; and `p` is no longer pending, so a
/// later record for `p` starts a new bucket.
pub proof fn lemma_run_flushes_once_in_order<H>(m: Map<u64, BucketView<H>>, p: u64, rs: Seq<RecordView<H>>)
    requires
        !m.contains_key(p),
        rs.len() > 0,
        rs.len() <= u32::MAX,
        forall|i: int| 0 <= i < rs.len() ==> (#[trigger] rs[i]).point == p && rs[i].handle is Some,
        forall|i: int| 1 <= i < rs.len() ==> (i as u32) < #[trigger] widest_expected(rs, i),
        (rs.len() as u32) >= widest_expected(rs, rs.len() as int),
    ensures
        run_flushes(m, rs).len() == rs.len(),
        forall|i: int| 0 <= i < rs.len() - 1 ==> (#[trigger] run_flushes(m, rs)[i]) is None,
        run_flushes(m, rs)[rs.len() - 1] == Some(BucketView {
            handles: run_handles(rs),
            expected: widest_expected(rs, rs.len() as int),
            deadline: (rs[0].now + BUCKET_TIMEOUT_MS) as u64,
        }),
        run_state(m, rs) == m,
{
    let n = rs.len() as int;
    lemma_run_prefix(m, p, rs, n - 1);
    assert(rs.take(n) =~= rs);
    assert(rs.drop_last() =~= rs.take(n - 1));
    let prev = run_state(m, rs.take(n - 1));
    let r = rs[n - 1];
    let h = r.handle->0;
    let g = grown_bucket(prev, r, h);
    assert(run_handles(rs) =~= if n == 1 { seq![h] } else { run_handles(rs.take(n - 1)).push(h) });
    if n == 1 {
        assert(widest_expected(rs, 0) == 0);
    } else {
        assert(prev.contains_key(p));
    }
    assert(g == run_bucket(rs, n));
    assert(complete(g));
    assert(run_state(m, rs) =~= m);
    assert forall|i: int| 0 <= i < n - 1 implies (#[trigger] run_flushes(m, rs)[i]) is None by {
        assert(run_flushes(m, rs)[i] == run_flushes(m, rs.take(n - 1))[i]);
    }
}

/// A record with a handle for a point that has no pending bucket, and
/// whose expected count is 0 or 1, is flushed at once with that one handle.
pub proof fn lemma_single_consumer_flushes_at_once<H>(m: Map<u64, BucketView<H>>, r: RecordView<H>)
    requires
        !m.contains_key(r.point),
        r.handle is Some,
        r.expected <= 1,
    ensures
        record_flush(m, r) == Some(BucketView {
            handles: seq![r.handle->0],
            expected: r.expected,
            deadline: (r.now + BUCKET_TIMEOUT_MS) as u64,
        }),
        after_record(m, r) == m,
{
    assert(m.remove(r.point) =~= m);
}

/// A bucket keeps the deadline its first record set: over a run that starts
/// with a handle for point `p` while `p` has no pending bucket, and after
/// which (and after each prefix of which) `p` is still pending, the bucket
/// of `p` has the first record's time plus the bucket timeout as deadline.
/// So the expiry step force-flushes it exactly when that time has passed,
/// whatever records for other points came in between.
pub proof fn lemma_deadline_set_by_first_record<H>(
    m: Map<u64, BucketView<H>>,
    p: u64,
    rs: Seq<RecordView<H>>,
    now: u64,
)
    requires
        !m.contains_key(p),
        rs.len() > 0,
        rs[0].point == p,
        rs[0].handle is Some,
        forall|j: int| 1 <= j <= rs.len() ==> #[trigger] run_state(m, rs.take(j)).contains_key(p),
    ensures
        run_state(m, rs).contains_key(p),
        run_state(m, rs)[p].deadline == (rs[0].now + BUCKET_TIMEOUT_MS) as u64,
        expires(run_state(m, rs), p, now) <==> (rs[0].now + BUCKET_TIMEOUT_MS) as u64 <= now,
{
    lemma_deadline_prefix(m, p, rs, rs.len() as int);
    assert(rs.take(rs.len() as int) =~= rs);
}

/// The deadline of `p` after each prefix of such a run.
proof fn lemma_deadline_prefix<H>(m: Map<u64, BucketView<H>>, p: u64, rs: Seq<RecordView<H>>, j: int)
    requires
        !m.contains_key(p),
        rs.len() > 0,
        rs[0].point == p,
        rs[0].handle is Some,
        forall|k: int| 1 <= k <= rs.len() ==> #[trigger] run_state(m, rs.take(k)).contains_key(p),
        1 <= j <= rs.len(),
    ensures
        run_state(m, rs.take(j)).contains_key(p),
        run_state(m, rs.take(j))[p].deadline == (rs[0].now + BUCKET_TIMEOUT_MS) as u64,
    decreases j,
{
    let t = rs.take(j);
    assert(t.drop_last() =~= rs.take(j - 1));
    assert(t.last() == rs[j - 1]);
    assert(run_state(m, rs.take(j)).contains_key(p));
    if j == 1 {
        assert(rs.take(0) =~= Seq::<RecordView<H>>::empty());
        assert(run_state(m, rs.take(0)) == m);
    } else {
        lemma_deadline_prefix(m, p, rs, j - 1);
    }
}

/// The absolute monotonic deadline, in nanoseconds, for waiting on a
/// bucket's consumer signals: the current time plus the wait timeout,
/// saturating at the largest value whenever the clock could not be read or
/// a step overflows.
pub open spec fn wait_deadline(clock_ok: bool, tv_sec: i64, tv_nsec: i64) -> i64 {
    if !clock_ok {
        i64::MAX
    } else {
        let a = tv_sec as int * 1_000_000_000;
        if a < i64::MIN || a > i64::MAX {
            i64::MAX
        } else {
            let b = a + tv_nsec;
            if b < i64::MIN || b > i64::MAX {
                i64::MAX
            } else {
                let c = b + WAIT_TIMEOUT_NS;
                if c < i64::MIN || c > i64::MAX {
                    i64::MAX
                } else {
                    c as i64
                }
            }
        }
    }
}

/// For a well-formed clock reading (whole seconds not negative, nanoseconds
/// below one second) the wait deadline is the reading in nanoseconds plus
/// half a second, or the largest value when that does not fit; without a
/// reading it is the largest value.
pub proof fn lemma_wait_deadline_is_now_plus_timeout(tv_sec: i64, tv_nsec: i64)
    requires
        0 <= tv_sec,
        0 <= tv_nsec < 1_000_000_000,
    ensures
        wait_deadline(true, tv_sec, tv_nsec) == if tv_sec * 1_000_000_000 + tv_nsec + 500_000_000 <= i64::MAX {
            (tv_sec * 1_000_000_000 + tv_nsec + 500_000_000) as i64
        } else {
            i64::MAX
        },
        wait_deadline(false, tv_sec, tv_nsec) == i64::MAX,
{
}

/// Computes the wait deadline from a reading of the monotonic clock.
pub fn wait_deadline_nsec(clock_ok: bool, tv_sec: i64, tv_nsec: i64) -> (r: i64)
    ensures
        r == wait_deadline(clock_ok, tv_sec, tv_nsec),
{
    if !clock_ok {
        return i64::MAX;
    }
    match tv_sec.checked_mul(1_000_000_000) {
        None => i64::MAX,
        Some(a) => match a.checked_add(tv_nsec) {
            None => i64::MAX,
            Some(b) => match b.checked_add(WAIT_TIMEOUT_NS) {
                None => i64::MAX,
                Some(c) => c,
            },
        },
    }
}

/// One step of flushing a bucket of consumer handles into the producer's
/// release point.
#[derive(Debug, Clone, Copy, PartialEq, Eq, Structural)]
pub enum FlushAction {
    /// Nothing done yet.
    Start,
    /// Make sure the producer's release sync object is imported.
    EnsureProducer,
    /// Wait for every consumer handle, up to the wait deadline.
    Wait,
    /// Signal every consumer handle (stragglers after a failed wait).
    ForceSignal,
    /// Transfer the only consumer's fence to the release point.
    TransferSingle,
    /// Export the sync file of consumer handle `i`.
    Export(usize),
    /// Transfer the first consumer's fence alone, since not every fence
    /// could be exported.
    TransferFallback,
    /// Merge exported fence `i` into the fences merged so far.
    Merge(usize),
    /// Create the temporary sync object for the merged fence.
    CreateTemp,
    /// Import the merged fence into the temporary sync object.
    Import,
    /// Transfer the merged fence to the release point.
    TransferMerged,
    /// The flush is over.
    Finish,
}

/// How the previous step went.
#[derive(Debug, Clone, Copy, PartialEq, Eq, Structural)]
pub enum StepResult {
    Succeeded,
    Failed,
    /// The step's task did not complete (the blocking wait task panicked).
    Aborted,
}

/// The step after the first fences are all known to be handled: one
/// consumer transfers directly, several export their fences one by one.
pub open spec fn after_wait(n: nat) -> FlushAction {
    if n == 1 { FlushAction::TransferSingle } else { FlushAction::Export(0) }
}

/// The next step of flushing `n` consumer handles after step `last` ended
/// with `res`. A bucket without handles is not flushed; a missing producer
/// object or an aborted wait ends the flush; a failed wait force-signals
/// every handle and goes on; exporting stops at the first failure and then
/// transfers the first fence alone; a failed merge keeps the fences merged
/// so far and goes on; a failed create or import ends the flush; transfers
/// end it whatever their result.
pub open spec fn flush_next(n: nat, last: FlushAction, res: StepResult) -> FlushAction {
    match last {
        FlushAction::Start => if n == 0 { FlushAction::Finish } else { FlushAction::EnsureProducer },
        FlushAction::EnsureProducer => if res == StepResult::Succeeded { FlushAction::Wait } else { FlushAction::Finish },
        FlushAction::Wait => match res {
            StepResult::Succeeded => after_wait(n),
            StepResult::Failed => FlushAction::ForceSignal,
            StepResult::Aborted => FlushAction::Finish,
        },
        FlushAction::ForceSignal => after_wait(n),
        FlushAction::TransferSingle => FlushAction::Finish,
        FlushAction::Export(i) => if res == StepResult::Succeeded {
            if i + 1 < n { FlushAction::Export((i + 1) as usize) } else { FlushAction::Merge(1) }
        } else {
            FlushAction::TransferFallback
        },
        FlushAction::TransferFallback => FlushAction::Finish,
        FlushAction::Merge(i) => if i + 1 < n { FlushAction::Merge((i + 1) as usize) } else { FlushAction::CreateTemp },
        FlushAction::CreateTemp => if res == StepResult::Succeeded { FlushAction::Import } else { FlushAction::Finish },
        FlushAction::Import => if res == StepResult::Succeeded { FlushAction::TransferMerged } else { FlushAction::Finish },
        FlushAction::TransferMerged => FlushAction::Finish,
        FlushAction::Finish => FlushAction::Finish,
    }
}

/// The next step of flushing `handle_count` consumer handles after step
/// `last` ended with `res`.
pub fn next_flush_action(handle_count: usize, last: FlushAction, res: StepResult) -> (r: FlushAction)
    ensures
        r == flush_next(handle_count as nat, last, res),
{
    match last {
        FlushAction::Start => if handle_count == 0 { FlushAction::Finish } else { FlushAction::EnsureProducer },
        FlushAction::EnsureProducer => if res == StepResult::Succeeded { FlushAction::Wait } else { FlushAction::Finish },
        FlushAction::Wait => match res {
            StepResult::Succeeded => if handle_count == 1 { FlushAction::TransferSingle } else { FlushAction::Export(0) },
            StepResult::Failed => FlushAction::ForceSignal,
            StepResult::Aborted => FlushAction::Finish,
        },
        FlushAction::ForceSignal => if handle_count == 1 { FlushAction::TransferSingle } else { FlushAction::Export(0) },
        FlushAction::TransferSingle => FlushAction::Finish,
        FlushAction::Export(i) => if res == StepResult::Succeeded {
            if handle_count > 0 && i < handle_count - 1 { FlushAction::Export(i + 1) } else { FlushAction::Merge(1) }
        } else {
            FlushAction::TransferFallback
        },
        FlushAction::TransferFallback => FlushAction::Finish,
        FlushAction::Merge(i) => if handle_count > 0 && i < handle_count - 1 { FlushAction::Merge(i + 1) } else { FlushAction::CreateTemp },
        FlushAction::CreateTemp => if res == StepResult::Succeeded { FlushAction::Import } else { FlushAction::Finish },
        FlushAction::Import => if res == StepResult::Succeeded { FlushAction::TransferMerged } else { FlushAction::Finish },
        FlushAction::TransferMerged => FlushAction::Finish,
        FlushAction::Finish => FlushAction::Finish,
    }
}

/// The fences merged so far after merging one more: the merge when it
/// succeeded, else the fences merged before.
pub fn merge_result<F>(so_far: F, merged: Option<F>) -> (r: F)
    ensures
        r == match merged {
            Some(m) => m,
            None => so_far,
        },
{
    match merged {
        Some(m) => m,
        None => so_far,
    }
}

/// The steps that can occur while flushing `n` consumer handles: exports
/// and merges name existing handles, and merging starts at the second.
pub open spec fn flush_action_valid(n: nat, a: FlushAction) -> bool {
    match a {
        FlushAction::TransferSingle => n == 1,
        FlushAction::Export(i) => n >= 2 && i < n,
        FlushAction::TransferFallback => n >= 2,
        FlushAction::Merge(i) => n >= 2 && 1 <= i < n,
        FlushAction::CreateTemp | FlushAction::Import | FlushAction::TransferMerged => n >= 2,
        FlushAction::Wait | FlushAction::ForceSignal | FlushAction::EnsureProducer => n >= 1,
        _ => true,
    }
}

/// How many steps at most are left from step `a`.
pub open spec fn flush_steps_left(n: nat, a: FlushAction) -> nat {
    match a {
        FlushAction::Start => 3 * n + 9,
        FlushAction::EnsureProducer => 3 * n + 8,
        FlushAction::Wait => 3 * n + 7,
        FlushAction::ForceSignal => 3 * n + 6,
        FlushAction::Export(i) => (3 * n + 5 - i) as nat,
        FlushAction::Merge(i) => (n + 4 - i) as nat,
        FlushAction::CreateTemp => 3,
        FlushAction::Import => 2,
        FlushAction::TransferMerged | FlushAction::TransferSingle | FlushAction::TransferFallback => 1,
        FlushAction::Finish => 0,
    }
}

/// Every flush ends: each step leads to a valid step with fewer steps left,
/// so a bucket of `n` handles is flushed in at most 3n + 9 steps, whatever
/// the steps' results.
pub proof fn lemma_flush_terminates(n: nat, a: FlushAction, res: StepResult)
    requires
        n <= usize::MAX,
        flush_action_valid(n, a),
        a != FlushAction::Finish,
    ensures
        flush_action_valid(n, flush_next(n, a, res)),
        flush_steps_left(n, flush_next(n, a, res)) < flush_steps_left(n, a),
{
}

/// Stragglers are signalled before any fence reaches the producer: after a
/// failed wait the next step signals every handle, and both the single
/// transfer and the first export come only after a wait or that signalling.
pub proof fn lemma_failed_wait_signals_first(n: nat, a: FlushAction, res: StepResult)
    requires
        n <= usize::MAX,
        flush_action_valid(n, a),
        flush_next(n, a, res) == FlushAction::TransferSingle || flush_next(n, a, res) == FlushAction::Export(0),
    ensures
        (a == FlushAction::Wait && res == StepResult::Succeeded) || a == FlushAction::ForceSignal,
{
}

/// The producer's release sync object is ensured first: a bucket with at
/// least one handle, a single one included, begins its flush by ensuring
/// it, whatever came before; an empty bucket is not flushed.
pub proof fn lemma_flush_begins_with_producer(n: nat, res: StepResult)
    requires
        n <= usize::MAX,
    ensures
        n >= 1 ==> flush_next(n, FlushAction::Start, res) == FlushAction::EnsureProducer,
        n == 0 ==> flush_next(n, FlushAction::Start, res) == FlushAction::Finish,
{
}

/// The steps a flush of `n` handles takes when its steps end with the
/// results `rs` in turn: it starts at `Start`, and the step after each one
/// is the one `flush_next` picks from that step's result.
pub open spec fn flush_trace(n: nat, rs: Seq<StepResult>) -> Seq<FlushAction>
    decreases rs.len(),
{
    if rs.len() == 0 {
        seq![FlushAction::Start]
    } else {
        let t = flush_trace(n, rs.drop_last());
        t.push(flush_next(n, t.last(), rs.last()))
    }
}

/// No fence is waited on, signalled, exported, merged or transferred before
/// the producer's release sync object has been ensured: in every run of a
/// flush, each step other than `Start`, `EnsureProducer` and `Finish` comes
/// after an `EnsureProducer` step that succeeded, whatever the number of
/// handles (one included) and whatever the results.
pub proof fn lemma_transfer_needs_producer(n: nat, rs: Seq<StepResult>)
    ensures
        flush_trace(n, rs).len() == rs.len() + 1,
        flush_trace(n, rs)[0] == FlushAction::Start,
        forall|k: int| #![trigger flush_trace(n, rs)[k]]
            0 <= k < flush_trace(n, rs).len() && flush_trace(n, rs)[k] != FlushAction::Start
                && flush_trace(n, rs)[k] != FlushAction::EnsureProducer && flush_trace(n, rs)[k] != FlushAction::Finish
                ==> exists|j: int| #![trigger flush_trace(n, rs)[j]]
                    0 <= j < k && flush_trace(n, rs)[j] == FlushAction::EnsureProducer && rs[j] == StepResult::Succeeded,
    decreases rs.len(),
{
    if rs.len() > 0 {
        let front = rs.drop_last();
        lemma_transfer_needs_producer(n, front);
        let t = flush_trace(n, front);
        let tr = flush_trace(n, rs);
        let last = t.len() - 1;
        assert(tr == t.push(flush_next(n, t[last], rs[rs.len() - 1])));
        assert forall|k: int| #![trigger tr[k]]
            0 <= k < tr.len() && tr[k] != FlushAction::Start && tr[k] != FlushAction::EnsureProducer
                && tr[k] != FlushAction::Finish implies exists|j: int| #![trigger tr[j]]
                0 <= j < k && tr[j] == FlushAction::EnsureProducer && rs[j] == StepResult::Succeeded by {
            if k < t.len() {
                assert(tr[k] == t[k]);
                let j = choose|j: int| #![trigger t[j]]
                    0 <= j < k && t[j] == FlushAction::EnsureProducer && front[j] == StepResult::Succeeded;
                assert(tr[j] == t[j]);
                assert(rs[j] == front[j]);
            } else {
                assert(k == last + 1);
                assert(tr[last] == t[last]);
                if t[last] == FlushAction::EnsureProducer {
                    assert(rs[last] == StepResult::Succeeded);
                } else {
                    assert(t[last] != FlushAction::Start);
                    assert(t[last] != FlushAction::Finish);
                    let j = choose|j: int| #![trigger t[j]]
                        0 <= j < last && t[j] == FlushAction::EnsureProducer && front[j] == StepResult::Succeeded;
                    assert(tr[j] == t[j]);
                    assert(rs[j] == front[j]);
                }
            }
        }
    }
}

/// A flush with every step succeeding, for two or more handles, waits,
/// exports each fence in order, merges the second to the last into the
/// first, and transfers the merge.
pub proof fn lemma_flush_all_succeed(n: nat, i: nat)
    requires
        n <= usize::MAX,
        n >= 2,
        i < n,
    ensures
        flush_next(n, FlushAction::Start, StepResult::Succeeded) == FlushAction::EnsureProducer,
        flush_next(n, FlushAction::EnsureProducer, StepResult::Succeeded) == FlushAction::Wait,
        flush_next(n, FlushAction::Wait, StepResult::Succeeded) == FlushAction::Export(0),
        flush_next(n, FlushAction::Export(i as usize), StepResult::Succeeded)
            == if i + 1 < n { FlushAction::Export((i + 1) as usize) } else { FlushAction::Merge(1) },
        i >= 1 ==> flush_next(n, FlushAction::Merge(i as usize), StepResult::Succeeded)
            == if i + 1 < n { FlushAction::Merge((i + 1) as usize) } else { FlushAction::CreateTemp },
        flush_next(n, FlushAction::CreateTemp, StepResult::Succeeded) == FlushAction::Import,
        flush_next(n, FlushAction::Import, StepResult::Succeeded) == FlushAction::TransferMerged,
        flush_next(n, FlushAction::TransferMerged, StepResult::Succeeded) == FlushAction::Finish,
{
}

} // verus!
