//! What it means to compact a series: buckets, summaries, and the rewrite
//! of one window of a series, with the facts that the retention engine and its
//! users rely on.

use vstd::prelude::*;
use crate::database_sync::StoreView;
use crate::model::Sample;
use crate::series::{ascending, between, lemma_rank, lemma_rank_is, lemma_rank_monotone, rank};

verus! {


/// The number of the bucket of width `width` that second `t` falls into:
/// `floor(t / width)`. The bucket starts at `slot(t, width) * width`.
pub open spec fn slot(t: int, width: int) -> int {
    t / width
}

/// The samples of `s` that fall into bucket number `q`.
pub open spec fn in_slot(s: Seq<Sample>, q: int, width: int) -> Seq<Sample> {
    between(s, q * width, q * width + width - 1)
}

/// The place of a single-precision bit pattern in the order of the values:
/// the magnitude bits, negated where the sign bit is set. Both zeros share a
/// place, and a NaN pattern lies beyond the infinity of its sign.
pub open spec fn order_key(bits: u32) -> int {
    if bits >= 0x8000_0000 {
        -(bits - 0x8000_0000)
    } else {
        bits as int
    }
}

/// The greatest energy counter of a non-empty bucket; of several that share
/// the greatest place in the order, the last.
pub open spec fn max_kwh(bucket: Seq<Sample>) -> u32
    decreases bucket.len(),
{
    if bucket.len() <= 1 {
        bucket[0].total_kwh
    } else {
        let rest = max_kwh(bucket.drop_last());
        if order_key(bucket.last().total_kwh) >= order_key(rest) {
            bucket.last().total_kwh
        } else {
            rest
        }
    }
}

/// The greatest counter is one of the bucket's, and none is placed above it.
pub proof fn lemma_max_kwh(bucket: Seq<Sample>)
    requires
        bucket.len() > 0,
    ensures
        exists|i: int| 0 <= i < bucket.len() && bucket[i].total_kwh == max_kwh(bucket),
        forall|i: int|
            0 <= i < bucket.len() ==> order_key((#[trigger] bucket[i]).total_kwh) <= order_key(
                max_kwh(bucket),
            ),
    decreases bucket.len(),
{
    if bucket.len() > 1 {
        let front = bucket.drop_last();
        lemma_max_kwh(front);
        let w = choose|i: int| 0 <= i < front.len() && front[i].total_kwh == max_kwh(front);
        assert(bucket[w] == front[w]);
        if order_key(bucket.last().total_kwh) >= order_key(max_kwh(front)) {
            assert(bucket[bucket.len() - 1].total_kwh == max_kwh(bucket));
        } else {
            assert(bucket[w].total_kwh == max_kwh(bucket));
        }
        assert forall|i: int| 0 <= i < bucket.len() implies order_key(
            (#[trigger] bucket[i]).total_kwh,
        ) <= order_key(max_kwh(bucket)) by {
            if i < front.len() {
                assert(bucket[i] == front[i]);
            }
        }
    } else {
        assert(bucket[0].total_kwh == max_kwh(bucket));
    }
}

pub open spec fn total_powers(bucket: Seq<Sample>) -> Seq<i16> {
    bucket.map_values(|x: Sample| x.total_power)
}

pub open spec fn import_powers(bucket: Seq<Sample>) -> Seq<i16> {
    bucket.map_values(|x: Sample| x.import_power)
}

pub open spec fn export_powers(bucket: Seq<Sample>) -> Seq<i16> {
    bucket.map_values(|x: Sample| x.export_power)
}

/// `mean` is a result of the averaging function for the half-precision
/// values `column`.
pub open spec fn averaged<A: Fn(&Vec<i16>) -> i16>(average: A, column: Seq<i16>, mean: i16) -> bool {
    exists|v: Vec<i16>| #[trigger] v@ == column && average.ensures((&v,), mean)
}

/// `out` summarizes the samples of one bucket. The summary of a single
/// sample is that sample. The summary of several carries the averages of the
/// three power columns, the greatest energy counter, and the timestamp of the
/// middle sample.
pub open spec fn summarizes<A: Fn(&Vec<i16>) -> i16>(
    average: A,
    bucket: Seq<Sample>,
    out: Sample,
) -> bool {
    &&& bucket.len() > 0
    &&& if bucket.len() == 1 {
        out == bucket[0]
    } else {
        &&& out.timestamp == bucket[bucket.len() as int / 2].timestamp
        &&& out.total_kwh == max_kwh(bucket)
        &&& averaged(average, total_powers(bucket), out.total_power)
        &&& averaged(average, import_powers(bucket), out.import_power)
        &&& averaged(average, export_powers(bucket), out.export_power)
    }
}

/// Some sample of `dst` lies in the bucket of second `t`.
pub open spec fn covers(dst: Seq<Sample>, t: int, width: int) -> bool {
    exists|j: int|
        0 <= j < dst.len() && slot((#[trigger] dst[j]).timestamp as int, width) == slot(t, width)
}

/// `dst` is a compaction of `src` into buckets of `width` seconds: one
/// summary for each bucket that `src` touches, in ascending order of time.
pub open spec fn compacted<A: Fn(&Vec<i16>) -> i16>(
    average: A,
    src: Seq<Sample>,
    dst: Seq<Sample>,
    width: int,
) -> bool {
    &&& forall|i: int| 0 <= i < src.len() ==> covers(dst, (#[trigger] src[i]).timestamp as int, width)
    &&& forall|j: int, k: int|
        0 <= j < k < dst.len() ==> slot((#[trigger] dst[j]).timestamp as int, width) < slot(
            (#[trigger] dst[k]).timestamp as int,
            width,
        )
    &&& forall|j: int|
        0 <= j < dst.len() ==> summarizes(
            average,
            in_slot(src, slot((#[trigger] dst[j]).timestamp as int, width), width),
            dst[j],
        )
}

/// `after` is `before` with the samples of `lo <= timestamp <= hi` compacted
/// and every other sample untouched.
pub open spec fn rewritten<A: Fn(&Vec<i16>) -> i16>(
    average: A,
    before: Seq<Sample>,
    after: Seq<Sample>,
    lo: int,
    hi: int,
    width: int,
) -> bool {
    &&& ascending(after)
    &&& between(after, i64::MIN as int, lo - 1) == between(before, i64::MIN as int, lo - 1)
    &&& between(after, hi + 1, i64::MAX as int) == between(before, hi + 1, i64::MAX as int)
    &&& compacted(average, between(before, lo, hi), between(after, lo, hi), width)
}

/// A second lies in an earlier bucket than `q` exactly if it lies before the
/// start of bucket `q`.
pub proof fn lemma_slot_order(t: int, width: int, q: int)
    requires
        width > 0,
    ensures
        slot(t, width) < q <==> t < q * width,
{
    assert(slot(t, width) < q <==> t < q * width) by (nonlinear_arith)
        requires
            width > 0,
    ;
}

/// A later second lies in the same bucket or a later one.
pub proof fn lemma_slot_monotone(t: int, u: int, width: int)
    requires
        width > 0,
        t <= u,
    ensures
        slot(t, width) <= slot(u, width),
{
    lemma_slot_order(t, width, slot(u, width) + 1);
    lemma_slot_order(u, width, slot(u, width) + 1);
}

/// The samples of bucket `q` in an ascending series are those between the
/// first sample of the bucket and the first sample of a later bucket.
pub proof fn lemma_in_slot(s: Seq<Sample>, q: int, width: int, from: int, to: int)
    requires
        ascending(s),
        width > 0,
        0 <= from <= to <= s.len(),
        forall|k: int| 0 <= k < from ==> slot((#[trigger] s[k]).timestamp as int, width) < q,
        forall|k: int| from <= k < to ==> slot((#[trigger] s[k]).timestamp as int, width) == q,
        forall|k: int| to <= k < s.len() ==> slot((#[trigger] s[k]).timestamp as int, width) > q,
    ensures
        in_slot(s, q, width) == s.subrange(from, to),
{
    assert forall|k: int| 0 <= k < from implies (#[trigger] s[k]).timestamp < q * width by {
        lemma_slot_order(s[k].timestamp as int, width, q);
    }
    assert forall|k: int| from <= k < s.len() implies (#[trigger] s[k]).timestamp >= q * width by {
        lemma_slot_order(s[k].timestamp as int, width, q);
    }
    lemma_rank_is(s, q * width, from);
    assert((q + 1) * width == q * width + width) by (nonlinear_arith);
    assert forall|k: int| 0 <= k < to implies (#[trigger] s[k]).timestamp < q * width + width by {
        lemma_slot_order(s[k].timestamp as int, width, q + 1);
    }
    assert forall|k: int| to <= k < s.len() implies (#[trigger] s[k]).timestamp >= q * width
        + width by {
        lemma_slot_order(s[k].timestamp as int, width, q + 1);
    }
    lemma_rank_is(s, q * width + width, to);
    assert(q * width <= q * width + width - 1);
}

/// The lower end of a window whose samples are later than `end`; without
/// `end` the window reaches back without limit.
pub open spec fn window_start(end: Option<i64>) -> int {
    match end {
        Some(e) => e + 1,
        None => i64::MIN as int,
    }
}

/// An interval in minutes that is positive and whose seconds fit in 64 bits.
pub open spec fn valid_interval(minutes: i64) -> bool {
    0 < minutes && minutes * 60 <= i64::MAX
}

/// Replacing the part of an ascending series that lies in `lo..=hi` by an
/// ascending `dst` within the same bounds changes nothing outside them.
pub proof fn lemma_splice(s: Seq<Sample>, dst: Seq<Sample>, lo: int, hi: int, out: Seq<Sample>)
    requires
        ascending(s),
        ascending(dst),
        i64::MIN <= lo <= hi <= i64::MAX,
        forall|j: int| 0 <= j < dst.len() ==> lo <= (#[trigger] dst[j]).timestamp <= hi,
        out == s.take(rank(s, lo)) + dst + s.skip(rank(s, hi + 1)),
    ensures
        ascending(out),
        between(s, lo, hi) == s.subrange(rank(s, lo), rank(s, hi + 1)),
        between(out, lo, hi) == dst,
        between(out, i64::MIN as int, lo - 1) == between(s, i64::MIN as int, lo - 1),
        between(out, hi + 1, i64::MAX as int) == between(s, hi + 1, i64::MAX as int),
{
    let a = rank(s, lo);
    let b = rank(s, hi + 1);
    let n = dst.len() as int;
    lemma_rank(s, lo);
    lemma_rank(s, hi + 1);
    lemma_rank_monotone(s, lo, hi + 1);
    assert(out.len() == a + n + (s.len() - b));
    assert(forall|i: int| 0 <= i < a ==> out[i] == s[i]);
    assert(forall|i: int| a <= i < a + n ==> out[i] == dst[i - a]);
    assert(forall|i: int| a + n <= i < out.len() ==> out[i] == s[i - a - n + b]);
    assert(ascending(out)) by {
        assert forall|i: int, j: int| 0 <= i < j < out.len() implies out[i].timestamp
            < out[j].timestamp by {
            if j < a {
            } else if j < a + n {
                if i < a {
                    assert(s[i].timestamp < lo);
                    assert(dst[j - a].timestamp >= lo);
                }
            } else {
                assert(s[j - a - n + b].timestamp >= hi + 1);
                if i < a {
                    assert(s[i].timestamp < lo);
                } else if i < a + n {
                    assert(dst[i - a].timestamp <= hi);
                }
            }
        }
    }
    assert forall|i: int| 0 <= i < a implies (#[trigger] out[i]).timestamp < lo by {
        assert(s[i].timestamp < lo);
    }
    assert forall|i: int| a <= i < out.len() implies (#[trigger] out[i]).timestamp >= lo by {
        if i < a + n {
            assert(dst[i - a].timestamp >= lo);
        } else {
            assert(s[i - a - n + b].timestamp >= hi + 1);
        }
    }
    lemma_rank_is(out, lo, a);
    assert forall|i: int| 0 <= i < a + n implies (#[trigger] out[i]).timestamp < hi + 1 by {
        if i < a {
            assert(s[i].timestamp < lo);
        } else {
            assert(dst[i - a].timestamp <= hi);
        }
    }
    assert forall|i: int| a + n <= i < out.len() implies (#[trigger] out[i]).timestamp >= hi
        + 1 by {
        assert(s[i - a - n + b].timestamp >= hi + 1);
    }
    lemma_rank_is(out, hi + 1, a + n);
    assert(between(out, lo, hi) =~= dst);
    lemma_rank_is(s, i64::MIN as int, 0);
    lemma_rank_is(out, i64::MIN as int, 0);
    lemma_rank_is(s, i64::MAX + 1, s.len() as int);
    lemma_rank_is(out, i64::MAX + 1, out.len() as int);
    if i64::MIN <= lo - 1 {
        assert(between(out, i64::MIN as int, lo - 1) =~= between(s, i64::MIN as int, lo - 1));
    }
    if hi + 1 <= i64::MAX {
        assert(between(out, hi + 1, i64::MAX as int) =~= between(s, hi + 1, i64::MAX as int));
    }
}

/// Every meter's series was rewritten for the window `lo..=hi`; the registry
/// is as before.
pub open spec fn window_applied<A: Fn(&Vec<i16>) -> i16>(
    average: A,
    before: StoreView,
    after: StoreView,
    lo: int,
    hi: int,
    width: int,
) -> bool {
    &&& after.names == before.names
    &&& after.series.len() == before.series.len()
    &&& forall|id: int|
        0 <= id < before.series.len() ==> rewritten(
            average,
            #[trigger] before.series[id],
            after.series[id],
            lo,
            hi,
            width,
        )
}

/// The second that lies `age` seconds before `now`, if the clock can express it.
pub open spec fn age_limit(now: i64, age: int) -> Option<i64> {
    if now - age >= i64::MIN {
        Some((now - age) as i64)
    } else {
        None
    }
}

/// One retention window was applied: the samples later than `end` and not
/// later than `start` were compacted into buckets of `minutes`. A window
/// without a `start` holds no second at all, and nothing changes.
pub open spec fn window_pass<A: Fn(&Vec<i16>) -> i16>(
    average: A,
    before: StoreView,
    after: StoreView,
    end: Option<i64>,
    start: Option<i64>,
    minutes: i64,
) -> bool {
    match start {
        Some(h) => window_applied(average, before, after, window_start(end), h as int, minutes * 60),
        None => after == before,
    }
}

/// Samples that are not in any window of a rewrite stay as they are, and so
/// do all samples later than any second past the window.
pub proof fn lemma_later_untouched(a: Seq<Sample>, b: Seq<Sample>, p: int, q: int)
    requires
        ascending(a),
        ascending(b),
        p <= q,
        between(a, p, i64::MAX as int) == between(b, p, i64::MAX as int),
    ensures
        between(a, q, i64::MAX as int) == between(b, q, i64::MAX as int),
{
    let top = i64::MAX as int;
    if q <= top {
        lemma_rank(a, p);
        lemma_rank(b, p);
        lemma_rank(a, q);
        lemma_rank(b, q);
        lemma_rank_monotone(a, p, q);
        lemma_rank_monotone(b, p, q);
        lemma_rank_is(a, top + 1, a.len() as int);
        lemma_rank_is(b, top + 1, b.len() as int);
        let ta = between(a, p, top);
        let tb = between(b, p, top);
        let ra = rank(a, p);
        let rb = rank(b, p);
        assert(ta.len() == a.len() - ra);
        assert(tb.len() == b.len() - rb);
        let ka = rank(a, q) - ra;
        let kb = rank(b, q) - rb;
        assert(ka == kb) by {
            if ka < kb {
                assert(ta[ka] == a[ka + ra]);
                assert(tb[ka] == b[ka + rb]);
                assert(a[ka + ra].timestamp >= q);
                assert(b[ka + rb].timestamp < q);
            }
            if kb < ka {
                assert(ta[kb] == a[kb + ra]);
                assert(tb[kb] == b[kb + rb]);
                assert(b[kb + rb].timestamp >= q);
                assert(a[kb + ra].timestamp < q);
            }
        }
        assert(between(a, q, top) =~= ta.skip(ka));
        assert(between(b, q, top) =~= tb.skip(kb));
    }
}

/// Two ascending series that hold the same samples are the same series.
pub proof fn lemma_same_samples(a: Seq<Sample>, b: Seq<Sample>)
    requires
        ascending(a),
        ascending(b),
        forall|i: int| 0 <= i < a.len() ==> b.contains(#[trigger] a[i]),
        forall|j: int| 0 <= j < b.len() ==> a.contains(#[trigger] b[j]),
    ensures
        a == b,
    decreases a.len(),
{
    if a.len() == 0 {
        if b.len() > 0 {
            assert(a.contains(b[0]));
        }
        assert(a =~= b);
    } else {
        let x = a.last();
        assert(b.contains(a[a.len() - 1]));
        let j = choose|j: int| 0 <= j < b.len() && b[j] == x;
        let y = b.last();
        assert(a.contains(b[b.len() - 1]));
        let i = choose|i: int| 0 <= i < a.len() && a[i] == y;
        assert(i == a.len() - 1) by {
            if i < a.len() - 1 {
                assert(a[i].timestamp < x.timestamp);
                if j < b.len() - 1 {
                    assert(b[j].timestamp < y.timestamp);
                }
            }
        }
        assert(j == b.len() - 1) by {
            if j < b.len() - 1 {
                assert(b[j].timestamp < y.timestamp);
            }
        }
        let fa = a.drop_last();
        let fb = b.drop_last();
        assert forall|k: int| 0 <= k < fa.len() implies fb.contains(#[trigger] fa[k]) by {
            assert(fa[k] == a[k]);
            assert(b.contains(a[k]));
            let m = choose|m: int| 0 <= m < b.len() && b[m] == a[k];
            assert(a[k].timestamp < x.timestamp);
            assert(m < b.len() - 1);
            assert(fb[m] == a[k]);
        }
        assert forall|k: int| 0 <= k < fb.len() implies fa.contains(#[trigger] fb[k]) by {
            assert(fb[k] == b[k]);
            assert(a.contains(b[k]));
            let m = choose|m: int| 0 <= m < a.len() && a[m] == b[k];
            assert(b[k].timestamp < y.timestamp);
            assert(m < a.len() - 1);
            assert(fa[m] == b[k]);
        }
        lemma_same_samples(fa, fb);
        assert(a =~= fa.push(x));
        assert(b =~= fb.push(y));
    }
}

/// In a series that holds one sample per bucket, the summary of a bucket is
/// the sample of that bucket itself.
pub proof fn lemma_summary_of_one<A: Fn(&Vec<i16>) -> i16>(
    average: A,
    dst: Seq<Sample>,
    x: Sample,
    width: int,
)
    requires
        width > 0,
        ascending(dst),
        forall|j: int, k: int|
            0 <= j < k < dst.len() ==> slot((#[trigger] dst[j]).timestamp as int, width) < slot(
                (#[trigger] dst[k]).timestamp as int,
                width,
            ),
        summarizes(average, in_slot(dst, slot(x.timestamp as int, width), width), x),
    ensures
        dst.contains(x),
{
    let q = slot(x.timestamp as int, width);
    let bucket = in_slot(dst, q, width);
    let lo = q * width;
    lemma_rank(dst, lo);
    lemma_rank(dst, lo + width);
    lemma_rank_monotone(dst, lo, lo + width);
    let j = rank(dst, lo);
    assert(bucket.len() > 0);
    assert(lo + width - 1 + 1 == lo + width);
    assert(bucket == dst.subrange(j, rank(dst, lo + width)));
    assert(j < rank(dst, lo + width));
    assert(dst[j].timestamp >= lo);
    assert(dst[j].timestamp < lo + width);
    assert((q + 1) * width == q * width + width) by (nonlinear_arith);
    lemma_slot_order(dst[j].timestamp as int, width, q);
    lemma_slot_order(dst[j].timestamp as int, width, q + 1);
    assert(slot(dst[j].timestamp as int, width) == q);
    lemma_in_slot(dst, q, width, j, j + 1);
    assert(bucket =~= seq![dst[j]]);
    assert(bucket[0] == dst[j]);
    assert(x == dst[j]);
}

/// Compacting a compaction once more gives the same samples.
pub proof fn lemma_compaction_idempotent<A: Fn(&Vec<i16>) -> i16>(
    average: A,
    src: Seq<Sample>,
    dst: Seq<Sample>,
    again: Seq<Sample>,
    width: int,
)
    requires
        width > 0,
        ascending(dst),
        ascending(again),
        compacted(average, src, dst, width),
        compacted(average, dst, again, width),
    ensures
        again == dst,
{
    assert forall|k: int| 0 <= k < again.len() implies dst.contains(#[trigger] again[k]) by {
        lemma_summary_of_one(average, dst, again[k], width);
    }
    assert forall|j: int| 0 <= j < dst.len() implies again.contains(#[trigger] dst[j]) by {
        assert(covers(again, dst[j].timestamp as int, width));
        let k = choose|k: int|
            0 <= k < again.len() && slot((#[trigger] again[k]).timestamp as int, width) == slot(
                dst[j].timestamp as int,
                width,
            );
        assert(dst.contains(again[k]));
        let m = choose|m: int| 0 <= m < dst.len() && dst[m] == again[k];
        if m < j {
            assert(slot(dst[m].timestamp as int, width) < slot(dst[j].timestamp as int, width));
        }
        if j < m {
            assert(slot(dst[j].timestamp as int, width) < slot(dst[m].timestamp as int, width));
        }
        assert(again[k] == dst[j]);
    }
    lemma_same_samples(again, dst);
}

/// An ascending series is its part before a window, its part in the window
/// and its part after the window, in this order.
pub proof fn lemma_three_parts(s: Seq<Sample>, lo: int, hi: int)
    requires
        ascending(s),
        lo <= hi + 1,
    ensures
        s == between(s, i64::MIN as int, lo - 1) + between(s, lo, hi) + between(
            s,
            hi + 1,
            i64::MAX as int,
        ),
{
    lemma_rank(s, lo);
    lemma_rank(s, hi + 1);
    lemma_rank_monotone(s, lo, hi + 1);
    lemma_rank_is(s, i64::MIN as int, 0);
    lemma_rank_is(s, i64::MAX + 1, s.len() as int);
    if lo <= i64::MIN {
        lemma_rank_monotone(s, lo, i64::MIN as int);
    }
    if hi + 1 > i64::MAX {
        lemma_rank_monotone(s, i64::MAX + 1, hi + 1);
    }
    assert(between(s, i64::MIN as int, lo - 1) =~= s.subrange(0, rank(s, lo)));
    assert(between(s, lo, hi) =~= s.subrange(rank(s, lo), rank(s, hi + 1)));
    assert(between(s, hi + 1, i64::MAX as int) =~= s.subrange(rank(s, hi + 1), s.len() as int));
    assert(s =~= s.subrange(0, rank(s, lo)) + s.subrange(rank(s, lo), rank(s, hi + 1))
        + s.subrange(rank(s, hi + 1), s.len() as int));
}

/// The part of an ascending series in a window is ascending.
pub proof fn lemma_between_ascending(s: Seq<Sample>, lo: int, hi: int)
    requires
        ascending(s),
    ensures
        ascending(between(s, lo, hi)),
{
    if lo <= hi {
        lemma_rank(s, lo);
        lemma_rank(s, hi + 1);
        lemma_rank_monotone(s, lo, hi + 1);
        let a = rank(s, lo);
        let part = between(s, lo, hi);
        assert forall|i: int, j: int| 0 <= i < j < part.len() implies part[i].timestamp
            < part[j].timestamp by {
            assert(part[i] == s[a + i]);
            assert(part[j] == s[a + j]);
        }
    }
}

/// Where two ascending series agree on all samples up to a second, they agree
/// on all samples up to any earlier second.
pub proof fn lemma_earlier_untouched(a: Seq<Sample>, b: Seq<Sample>, p: int, q: int)
    requires
        ascending(a),
        ascending(b),
        p <= q,
        between(a, i64::MIN as int, q) == between(b, i64::MIN as int, q),
    ensures
        between(a, i64::MIN as int, p) == between(b, i64::MIN as int, p),
{
    let bottom = i64::MIN as int;
    if bottom <= p {
        lemma_rank(a, p + 1);
        lemma_rank(b, p + 1);
        lemma_rank(a, q + 1);
        lemma_rank(b, q + 1);
        lemma_rank_monotone(a, p + 1, q + 1);
        lemma_rank_monotone(b, p + 1, q + 1);
        lemma_rank_is(a, bottom, 0);
        lemma_rank_is(b, bottom, 0);
        let ta = between(a, bottom, q);
        let tb = between(b, bottom, q);
        assert(ta.len() == rank(a, q + 1));
        assert(tb.len() == rank(b, q + 1));
        let ka = rank(a, p + 1);
        let kb = rank(b, p + 1);
        assert(ka == kb) by {
            if ka < kb {
                assert(ta[ka] == a[ka]);
                assert(tb[ka] == b[ka]);
                assert(a[ka].timestamp >= p + 1);
                assert(b[ka].timestamp < p + 1);
            }
            if kb < ka {
                assert(ta[kb] == a[kb]);
                assert(tb[kb] == b[kb]);
                assert(b[kb].timestamp >= p + 1);
                assert(a[kb].timestamp < p + 1);
            }
        }
        assert(between(a, bottom, p) =~= ta.take(ka));
        assert(between(b, bottom, p) =~= tb.take(kb));
    }
}

/// Rewriting a window that was just rewritten changes nothing.
pub proof fn lemma_rewrite_idempotent<A: Fn(&Vec<i16>) -> i16>(
    average: A,
    initial: Seq<Sample>,
    once: Seq<Sample>,
    twice: Seq<Sample>,
    lo: int,
    hi: int,
    width: int,
)
    requires
        width > 0,
        rewritten(average, initial, once, lo, hi, width),
        rewritten(average, once, twice, lo, hi, width),
    ensures
        twice == once,
{
    if lo <= hi + 1 {
        lemma_between_ascending(once, lo, hi);
        lemma_between_ascending(twice, lo, hi);
        lemma_compaction_idempotent(
            average,
            between(initial, lo, hi),
            between(once, lo, hi),
            between(twice, lo, hi),
            width,
        );
        lemma_three_parts(once, lo, hi);
        lemma_three_parts(twice, lo, hi);
    } else {
        lemma_earlier_untouched(twice, once, hi, lo - 1);
        lemma_three_parts(once, hi + 1, hi);
        lemma_three_parts(twice, hi + 1, hi);
    }
}

/// Applying the same window to the same store twice in a row leaves, after
/// the second time, exactly the rows that the first time left.
pub proof fn lemma_window_idempotent<A: Fn(&Vec<i16>) -> i16>(
    average: A,
    initial: StoreView,
    once: StoreView,
    twice: StoreView,
    end: Option<i64>,
    start: Option<i64>,
    minutes: i64,
)
    requires
        valid_interval(minutes),
        window_pass(average, initial, once, end, start, minutes),
        window_pass(average, once, twice, end, start, minutes),
    ensures
        twice == once,
{
    match start {
        Some(h) => {
            let lo = window_start(end);
            let width = minutes * 60;
            assert forall|id: int| 0 <= id < once.series.len() implies twice.series[id]
                == once.series[id] by {
                lemma_rewrite_idempotent(
                    average,
                    initial.series[id],
                    once.series[id],
                    twice.series[id],
                    lo,
                    h as int,
                    width,
                );
            }
            assert(twice.series =~= once.series);
        },
        None => {},
    }
}

/// `floor(t / width)` for a positive width.
pub fn slot_of(t: i64, width: i64) -> (q: i64)
    requires
        width > 0,
    ensures
        q == slot(t as int, width as int),
{
    if t >= 0 {
        t / width
    } else {
        let q: i64 = (-(t + 1)) / width;
        assert(t as int / width as int == -((-(t + 1)) / (width as int)) - 1) by (nonlinear_arith)
            requires
                t < 0,
                width > 0,
        ;
        -q - 1
    }
}

/// Whether `a` is placed at or above `b` in the order of single-precision values.
pub fn at_least(a: u32, b: u32) -> (r: bool)
    ensures
        r == (order_key(a) >= order_key(b)),
{
    let ka: i64 = if a >= 0x8000_0000 {
        -((a - 0x8000_0000) as i64)
    } else {
        a as i64
    };
    let kb: i64 = if b >= 0x8000_0000 {
        -((b - 0x8000_0000) as i64)
    } else {
        b as i64
    };
    ka >= kb
}

} // verus!
