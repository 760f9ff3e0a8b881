//! Grouping records into interval buckets and the per-bucket statistics:
//! count, sum, average, rounded sum and sum of rounded durations.

use vstd::prelude::*;

use crate::record::{duration_seconds_at, Record};
use crate::round::{round_spec, lemma_round_aligned, RoundingOptions};
use crate::seqs::{lemma_filter_empty, lemma_filter_push};
use crate::time::{
    div_toward_zero, lemma_sum_seconds_bound, sum_seconds, Duration, Interval, Timestamp,
};

verus! {

/// An ephemeral grouping of the records sharing one interval key, built
/// fresh on every display request. All records in a bucket share the same
/// key by construction; `precise` controls display precision downstream.
#[derive(Debug)]
pub struct RecordBucket {
    pub records: Vec<Record>,
    pub interval: Interval,
    pub precise: bool,
}

/// The predicate selecting records whose start falls in the bucket keyed
/// `k` for `interval`, as a function value for `filter`.
pub open spec fn key_pred(interval: Interval, k: int) -> spec_fn(Record) -> bool {
    |r: Record| r.start.interval_key(interval) == k
}

/// The key of a bucket: the key of its first record, which every record
/// in the bucket shares.
pub open spec fn bucket_key_spec(b: RecordBucket) -> int
    recommends
        b.records@.len() > 0,
{
    b.records@[0].start.interval_key(b.interval)
}

impl RecordBucket {
    /// A fresh, empty bucket.
    pub fn new(interval: Interval, precise: bool) -> (b: RecordBucket)
        ensures
            b.records@.len() == 0,
            b.interval == interval,
            b.precise == precise,
    {
        RecordBucket { records: Vec::new(), interval, precise }
    }

    /// Append one record; the caller guarantees it shares the bucket's key.
    pub fn add(&mut self, record: Record)
        ensures
            final(self).records@ == old(self).records@.push(record),
            final(self).interval == old(self).interval,
            final(self).precise == old(self).precise,
    {
        self.records.push(record);
    }

    /// How many records the bucket holds.
    pub fn size(&self) -> (n: usize)
        ensures
            n == self.records@.len(),
    {
        self.records.len()
    }

    /// The bucket's interval key.
    pub fn key(&self) -> (k: u32)
        requires
            self.records@.len() > 0,
        ensures
            k == bucket_key_spec(*self),
    {
        self.records[0].bucket_key(self.interval)
    }
}

/// `buckets` is exactly the grouping of `records` by interval key: each
/// bucket holds, in encounter order, the records of one key; keys are
/// strictly ascending across buckets; and every record's key has a bucket.
pub open spec fn grouped_by(
    records: Seq<Record>,
    interval: Interval,
    precise: bool,
    buckets: Seq<RecordBucket>,
) -> bool {
    &&& forall|j: int|
        0 <= j < buckets.len() ==> (#[trigger] buckets[j]).interval == interval && buckets[j].precise
            == precise && buckets[j].records@.len() > 0
    &&& forall|j: int|
        0 <= j < buckets.len() ==> (#[trigger] buckets[j]).records@ == records.filter(
            key_pred(interval, bucket_key_spec(buckets[j])),
        )
    &&& forall|j1: int, j2: int|
        0 <= j1 < j2 < buckets.len() ==> bucket_key_spec(#[trigger] buckets[j1]) < bucket_key_spec(
            #[trigger] buckets[j2],
        )
    &&& forall|i: int|
        0 <= i < records.len() ==> exists|j: int|
            0 <= j < buckets.len() && bucket_key_spec(#[trigger] buckets[j]) == (
            #[trigger] records[i]).start.interval_key(interval)
}

/// One grouping step, into an existing bucket: if `bs2` is `bs` with `r`
/// appended to the bucket whose key is `r`'s, it groups `pre.push(r)`.
proof fn lemma_group_step_existing(
    pre: Seq<Record>,
    r: Record,
    interval: Interval,
    precise: bool,
    bs: Seq<RecordBucket>,
    bs2: Seq<RecordBucket>,
    j: int,
)
    requires
        grouped_by(pre, interval, precise, bs),
        0 <= j < bs.len(),
        bucket_key_spec(bs[j]) == r.start.interval_key(interval),
        bs2.len() == bs.len(),
        forall|x: int| 0 <= x < bs.len() && x != j ==> bs2[x] == bs[x],
        bs2[j].records@ == bs[j].records@.push(r),
        bs2[j].interval == bs[j].interval,
        bs2[j].precise == bs[j].precise,
    ensures
        grouped_by(pre.push(r), interval, precise, bs2),
{
    let k = r.start.interval_key(interval);
    assert(bs[j].records@.len() > 0);
    assert(bs2[j].records@[0] == bs[j].records@[0]);
    assert forall|x: int| 0 <= x < bs2.len() implies bucket_key_spec(#[trigger] bs2[x])
        == bucket_key_spec(bs[x]) by {
        if x != j {
            assert(bs2[x] == bs[x]);
        }
    }
    assert forall|x: int| 0 <= x < bs2.len() implies (#[trigger] bs2[x]).records@ == pre.push(
        r,
    ).filter(key_pred(interval, bucket_key_spec(bs2[x]))) by {
        let kx = bucket_key_spec(bs[x]);
        lemma_filter_push(pre, key_pred(interval, kx), r);
        if x == j {
            assert(key_pred(interval, kx)(r));
        } else {
            if x < j {
                assert(kx < bucket_key_spec(bs[j]));
            } else {
                assert(bucket_key_spec(bs[j]) < kx);
            }
            assert(!key_pred(interval, kx)(r));
            assert(bs2[x] == bs[x]);
        }
    }
    assert forall|i: int| 0 <= i < pre.push(r).len() implies exists|x: int|
        0 <= x < bs2.len() && bucket_key_spec(#[trigger] bs2[x]) == (
        #[trigger] pre.push(r)[i]).start.interval_key(interval) by {
        if i < pre.len() {
            assert(pre.push(r)[i] == pre[i]);
            let x = choose|x: int|
                0 <= x < bs.len() && bucket_key_spec(#[trigger] bs[x]) == pre[i].start.interval_key(
                    interval,
                );
            assert(bucket_key_spec(bs2[x]) == bucket_key_spec(bs[x]));
        } else {
            assert(pre.push(r)[i] == r);
            assert(bucket_key_spec(bs2[j]) == k);
        }
    }
}

/// One grouping step, opening a new bucket at position `j`: legal when no
/// existing bucket has `r`'s key and `j` is its sorted position.
proof fn lemma_group_step_new(
    pre: Seq<Record>,
    r: Record,
    interval: Interval,
    precise: bool,
    bs: Seq<RecordBucket>,
    bs2: Seq<RecordBucket>,
    j: int,
)
    requires
        grouped_by(pre, interval, precise, bs),
        0 <= j <= bs.len(),
        forall|x: int| 0 <= x < j ==> bucket_key_spec(#[trigger] bs[x]) < r.start.interval_key(
            interval,
        ),
        j < bs.len() ==> bucket_key_spec(bs[j]) > r.start.interval_key(interval),
        bs2 == bs.insert(j, bs2[j]),
        bs2[j].records@ == Seq::<Record>::empty().push(r),
        bs2[j].interval == interval,
        bs2[j].precise == precise,
    ensures
        grouped_by(pre.push(r), interval, precise, bs2),
{
    let k = r.start.interval_key(interval);
    assert(bucket_key_spec(bs2[j]) == k);
    // Every existing bucket's key differs from k.
    assert forall|x: int| 0 <= x < bs.len() implies bucket_key_spec(#[trigger] bs[x]) != k by {
        if x >= j {
            if x > j {
                assert(bucket_key_spec(bs[j]) < bucket_key_spec(bs[x]));
            }
        }
    }
    // So no record of `pre` has key k.
    assert forall|i: int| 0 <= i < pre.len() implies (#[trigger] pre[i]).start.interval_key(
        interval,
    ) != k by {
        if pre[i].start.interval_key(interval) == k {
            let x = choose|x: int|
                0 <= x < bs.len() && bucket_key_spec(#[trigger] bs[x]) == pre[i].start.interval_key(
                    interval,
                );
        }
    }
    lemma_filter_empty(pre, key_pred(interval, k));
    // Relate positions of bs2 to bs.
    assert(bs2.len() == bs.len() + 1);
    assert forall|x: int| 0 <= x < j implies bs2[x] == bs[x] by {}
    assert forall|x: int| j < x < bs2.len() implies bs2[x] == bs[x - 1] by {}
    assert forall|x: int| 0 <= x < bs2.len() implies (#[trigger] bs2[x]).records@ == pre.push(
        r,
    ).filter(key_pred(interval, bucket_key_spec(bs2[x]))) by {
        let kx = bucket_key_spec(bs2[x]);
        lemma_filter_push(pre, key_pred(interval, kx), r);
        if x == j {
            assert(key_pred(interval, k)(r));
            assert(pre.filter(key_pred(interval, k)) == Seq::<Record>::empty());
        } else {
            let xo: int = if x < j {
                x
            } else {
                x - 1
            };
            assert(bs2[x] == bs[xo]);
            assert(kx != k);
            assert(!key_pred(interval, kx)(r));
        }
    }
    assert forall|j1: int, j2: int| 0 <= j1 < j2 < bs2.len() implies bucket_key_spec(
        #[trigger] bs2[j1],
    ) < bucket_key_spec(#[trigger] bs2[j2]) by {
        if j1 == j {
            assert(bs2[j2] == bs[j2 - 1]);
            assert(bucket_key_spec(bs[j2 - 1]) > k) by {
                if j2 - 1 > j {
                    assert(bucket_key_spec(bs[j]) < bucket_key_spec(bs[j2 - 1]));
                }
            }
        } else if j2 == j {
            assert(bs2[j1] == bs[j1]);
        } else {
            let o1: int = if j1 < j {
                j1
            } else {
                j1 - 1
            };
            let o2: int = if j2 < j {
                j2
            } else {
                j2 - 1
            };
            assert(bs2[j1] == bs[o1]);
            assert(bs2[j2] == bs[o2]);
        }
    }
    assert forall|i: int| 0 <= i < pre.push(r).len() implies exists|x: int|
        0 <= x < bs2.len() && bucket_key_spec(#[trigger] bs2[x]) == (
        #[trigger] pre.push(r)[i]).start.interval_key(interval) by {
        if i < pre.len() {
            assert(pre.push(r)[i] == pre[i]);
            let x = choose|x: int|
                0 <= x < bs.len() && bucket_key_spec(#[trigger] bs[x]) == pre[i].start.interval_key(
                    interval,
                );
            let x2: int = if x < j {
                x
            } else {
                x + 1
            };
            assert(bs2[x2] == bs[x]);
            assert(bucket_key_spec(bs2[x2]) == bucket_key_spec(bs[x]));
        } else {
            assert(pre.push(r)[i] == r);
            assert(bucket_key_spec(bs2[j]) == k);
        }
    }
}

/// The sum, in seconds, of the records' spans at instant `now`.
pub open spec fn sum_durations(s: Seq<Record>, now: Timestamp) -> int
    decreases s.len(),
{
    if s.len() == 0 {
        0
    } else {
        sum_durations(s.drop_last(), now) + duration_seconds_at(s.last(), now)
    }
}

/// The sum, in seconds, of the records' individually rounded spans.
pub open spec fn sum_rounded(s: Seq<Record>, now: Timestamp, opt: RoundingOptions) -> int
    decreases s.len(),
{
    if s.len() == 0 {
        0
    } else {
        sum_rounded(s.drop_last(), now, opt) + round_spec(
            duration_seconds_at(s.last(), now),
            opt.direction,
            opt.granularity.0 as int,
        )
    }
}

/// The aggregate figures of one bucket. The rounded sum and the sum of
/// rounded durations are computed independently and are generally unequal:
/// rounding does not distribute over addition, and that divergence is a
/// user-visible property.
#[derive(Clone, Copy, Debug, PartialEq, Eq, Structural)]
pub struct BucketStatistics {
    pub count: usize,
    pub sum: Duration,
    pub avg: Duration,
    pub rounded_sum: Duration,
    pub sum_of_rounded: Duration,
}

/// What a statistics result states about the records at instant `now`.
pub open spec fn stats_spec(
    st: BucketStatistics,
    s: Seq<Record>,
    now: Timestamp,
    opt: RoundingOptions,
) -> bool {
    &&& st.count == s.len()
    &&& st.sum.0 == sum_durations(s, now)
    &&& st.avg.0 == div_toward_zero(sum_durations(s, now), s.len() as int)
    &&& st.rounded_sum.0 == round_spec(
        sum_durations(s, now),
        opt.direction,
        opt.granularity.0 as int,
    )
    &&& st.sum_of_rounded.0 == sum_rounded(s, now, opt)
}

/// A duration vector that mirrors the records' spans pointwise sums to the
/// records' total span.
proof fn lemma_sum_durations_bridge(recs: Seq<Record>, now: Timestamp, v: Seq<Duration>)
    requires
        v.len() == recs.len(),
        forall|i: int| 0 <= i < v.len() ==> (#[trigger] v[i]).0 == duration_seconds_at(
            recs[i],
            now,
        ),
    ensures
        sum_seconds(v) == sum_durations(recs, now),
    decreases v.len(),
{
    if v.len() > 0 {
        lemma_sum_durations_bridge(recs.drop_last(), now, v.drop_last());
    }
}

/// A duration vector that mirrors the records' rounded spans pointwise
/// sums to the records' total rounded span.
proof fn lemma_sum_rounded_bridge(
    recs: Seq<Record>,
    now: Timestamp,
    opt: RoundingOptions,
    v: Seq<Duration>,
)
    requires
        v.len() == recs.len(),
        forall|i: int| 0 <= i < v.len() ==> (#[trigger] v[i]).0 == round_spec(
            duration_seconds_at(recs[i], now),
            opt.direction,
            opt.granularity.0 as int,
        ),
    ensures
        sum_seconds(v) == sum_rounded(recs, now, opt),
    decreases v.len(),
{
    if v.len() > 0 {
        lemma_sum_rounded_bridge(recs.drop_last(), now, opt, v.drop_last());
    }
}

impl RecordBucket {
    /// The bucket's statistics with `now` standing in for open ends: the
    /// count, the raw sum and truncated mean, the rounded sum, and the sum
    /// of the individually rounded spans. The product bound keeps every
    /// intermediate sum within `i64`; a bucket is only ever built with at
    /// least one record, so the mean is defined.
    pub fn statistics_at(&self, now: Timestamp, opt: &RoundingOptions) -> (st: BucketStatistics)
        requires
            1 <= self.records@.len(),
            1 <= opt.granularity.0,
            (self.records@.len() as int) * (opt.granularity.0 as int + 0x1_0000_0000)
                <= 0x7FFF_FFFF_FFFF_FFFF,
        ensures
            stats_spec(st, self.records@, now, *opt),
    {
        let n: usize = self.records.len();
        let ghost nn = self.records@.len() as int;
        let ghost g = opt.granularity.0 as int;
        proof {
            assert(nn * (g + 0x1_0000_0000) >= 1 * (g + 0x1_0000_0000)) by (nonlinear_arith)
                requires
                    nn >= 1,
                    g >= 1,
            ;
        }
        let mut durs: Vec<Duration> = Vec::new();
        let mut x: usize = 0;
        while x < n
            invariant
                0 <= x <= n,
                n == self.records@.len(),
                durs@.len() == x,
                forall|y: int| 0 <= y < x ==> (#[trigger] durs@[y]).0 == duration_seconds_at(
                    self.records@[y],
                    now,
                ) && -0xFFFF_FFFF <= durs@[y].0 <= 0xFFFF_FFFF,
            decreases n - x,
        {
            let d: Duration = self.records[x].duration_at(now);
            durs.push(d);
            x += 1;
        }
        proof {
            assert forall|jj: int| 0 <= jj <= durs@.len() implies -0x7FFF_FFFF_FFFF_FFFF
                <= sum_seconds(#[trigger] durs@.take(jj)) <= 0x7FFF_FFFF_FFFF_FFFF by {
                lemma_sum_seconds_bound(durs@.take(jj), 0xFFFF_FFFF);
                assert(jj * 0xFFFF_FFFF <= nn * 0xFFFF_FFFF) by (nonlinear_arith)
                    requires
                        0 <= jj <= nn,
                ;
                assert(nn * 0xFFFF_FFFF <= nn * (g + 0x1_0000_0000)) by (nonlinear_arith)
                    requires
                        nn >= 0,
                        g >= 1,
                ;
            }
        }
        let sum: Duration = Duration::sum(&durs);
        let avg: Duration = Duration::mean(&durs);
        proof {
            lemma_sum_durations_bridge(self.records@, now, durs@);
        }
        let mut rounded: Vec<Duration> = Vec::new();
        x = 0;
        while x < n
            invariant
                0 <= x <= n,
                n == self.records@.len(),
                nn == n as int,
                g == opt.granularity.0 as int,
                1 <= g,
                g + 0x1_0000_0000 <= 0x7FFF_FFFF_FFFF_FFFF,
                durs@.len() == n,
                forall|y: int| 0 <= y < n ==> (#[trigger] durs@[y]).0 == duration_seconds_at(
                    self.records@[y],
                    now,
                ) && -0xFFFF_FFFF <= durs@[y].0 <= 0xFFFF_FFFF,
                rounded@.len() == x,
                forall|y: int| 0 <= y < x ==> (#[trigger] rounded@[y]).0 == round_spec(
                    duration_seconds_at(self.records@[y], now),
                    opt.direction,
                    g,
                ) && -(0xFFFF_FFFF + g) <= rounded@[y].0 <= 0xFFFF_FFFF + g,
            decreases n - x,
        {
            proof {
                lemma_round_aligned(durs@[x as int].0 as int, opt.direction, g);
            }
            let rd: Duration = durs[x].round(opt);
            rounded.push(rd);
            x += 1;
        }
        proof {
            assert forall|jj: int| 0 <= jj <= rounded@.len() implies -0x7FFF_FFFF_FFFF_FFFF
                <= sum_seconds(#[trigger] rounded@.take(jj)) <= 0x7FFF_FFFF_FFFF_FFFF by {
                lemma_sum_seconds_bound(rounded@.take(jj), 0xFFFF_FFFF + g);
                assert(jj * (0xFFFF_FFFF + g) <= nn * (0xFFFF_FFFF + g)) by (nonlinear_arith)
                    requires
                        0 <= jj <= nn,
                        g >= 1,
                ;
                assert(nn * (0xFFFF_FFFF + g) <= nn * (g + 0x1_0000_0000)) by (nonlinear_arith)
                    requires
                        nn >= 0,
                ;
                assert((-jj) * (0xFFFF_FFFF + g) == -(jj * (0xFFFF_FFFF + g)))
                    by (nonlinear_arith);
            }
        }
        let sum_of_rounded: Duration = Duration::sum(&rounded);
        proof {
            lemma_sum_rounded_bridge(self.records@, now, *opt, rounded@);
            assert(durs@.take(durs@.len() as int) =~= durs@);
            lemma_sum_seconds_bound(durs@, 0xFFFF_FFFF);
            assert(nn * 0xFFFF_FFFF + g <= nn * (g + 0x1_0000_0000)) by (nonlinear_arith)
                requires
                    nn >= 1,
                    g >= 1,
            ;
        }
        let rounded_sum: Duration = sum.round(opt);
        BucketStatistics { count: n, sum, avg, rounded_sum, sum_of_rounded }
    }

    /// The bucket's statistics, with the current wall clock standing in
    /// for open ends: there is an instant the figures are exact for.
    pub fn statistics(&self, opt: &RoundingOptions) -> (st: BucketStatistics)
        requires
            1 <= self.records@.len(),
            1 <= opt.granularity.0,
            (self.records@.len() as int) * (opt.granularity.0 as int + 0x1_0000_0000)
                <= 0x7FFF_FFFF_FFFF_FFFF,
        ensures
            exists|t: Timestamp| stats_spec(st, self.records@, t, *opt),
    {
        let now = Timestamp::now();
        let st = self.statistics_at(now, opt);
        proof {
            assert(stats_spec(st, self.records@, now, *opt));
        }
        st
    }
}

/// Group `records` (most recent first) into buckets by interval key,
/// creating each bucket lazily on first encounter. The resulting buckets
/// are ordered ascending by key, which fixes the display order; within a
/// bucket, records keep their encounter order.
pub fn group_by_interval(records: Vec<Record>, interval: Interval, precise: bool) -> (buckets: Vec<
    RecordBucket,
>)
    ensures
        grouped_by(records@, interval, precise, buckets@),
{
    let ghost orig = records@;
    let mut rest = records;
    let mut buckets: Vec<RecordBucket> = Vec::new();
    let ghost mut i: int = 0;
    proof {
        assert(orig.take(0) =~= Seq::<Record>::empty());
        assert(rest@ =~= orig.skip(0));
    }
    while rest.len() > 0
        invariant
            0 <= i,
            i + rest@.len() == orig.len(),
            rest@ == orig.skip(i),
            grouped_by(orig.take(i), interval, precise, buckets@),
        decreases rest@.len(),
    {
        let ghost pre = orig.take(i);
        let ghost bs = buckets@;
        let r: Record = rest.remove(0);
        proof {
            assert(r == orig.skip(i)[0]);
            assert(orig.skip(i)[0] == orig[i]);
            assert(rest@ =~= orig.skip(i + 1));
            assert(orig.take(i + 1) =~= pre.push(orig[i]));
        }
        let k: u32 = r.bucket_key(interval);
        let mut j: usize = 0;
        while j < buckets.len() && buckets[j].key() < k
            invariant
                0 <= j <= buckets@.len(),
                buckets@ == bs,
                grouped_by(pre, interval, precise, buckets@),
                k == r.start.interval_key(interval),
                forall|x: int| 0 <= x < j ==> bucket_key_spec(#[trigger] buckets@[x]) < k,
            decreases buckets@.len() - j,
        {
            j += 1;
        }
        let hit: bool = if j < buckets.len() {
            buckets[j].key() == k
        } else {
            false
        };
        if hit {
            let mut b: RecordBucket = buckets.remove(j);
            b.add(r);
            buckets.insert(j, b);
            proof {
                assert forall|x: int| 0 <= x < bs.len() && x != j implies buckets@[x] == bs[x] by {
                    if x < j {
                        assert(bs.remove(j as int)[x] == bs[x]);
                    } else {
                        assert(bs.remove(j as int)[x - 1] == bs[x]);
                    }
                }
                assert(buckets@[j as int].records@ == bs[j as int].records@.push(r));
                lemma_group_step_existing(
                    pre,
                    r,
                    interval,
                    precise,
                    bs,
                    buckets@,
                    j as int,
                );
            }
        } else {
            let mut nb: RecordBucket = RecordBucket::new(interval, precise);
            nb.add(r);
            buckets.insert(j, nb);
            proof {
                assert(buckets@ == bs.insert(j as int, buckets@[j as int]));
                assert(buckets@[j as int].records@ =~= Seq::<Record>::empty().push(r));
                lemma_group_step_new(pre, r, interval, precise, bs, buckets@, j as int);
            }
        }
        proof {
            i = i + 1;
        }
    }
    proof {
        assert(orig.take(i) =~= orig);
    }
    buckets
}

} // verus!

