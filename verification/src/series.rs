//! The theory of one meter's series: its samples in strictly ascending order
//! of time, at most one per second.

use vstd::prelude::*;
use crate::model::Sample;

verus! {

/// Strictly ascending timestamps: sorted, and no second occurs twice.
pub open spec fn ascending(s: Seq<Sample>) -> bool {
    forall|i: int, j: int| 0 <= i < j < s.len() ==> s[i].timestamp < s[j].timestamp
}

/// How many samples of `s` are earlier than second `t`.
///
/// In an ascending series this is also the index of the first sample that is
/// not earlier than `t`.
pub open spec fn rank(s: Seq<Sample>, t: int) -> int {
    s.filter(|r: Sample| r.timestamp < t).len() as int
}

/// The sample stored for second `t`, if there is one.
pub open spec fn row_at(s: Seq<Sample>, t: int) -> Option<Sample> {
    if rank(s, t) < rank(s, t + 1) {
        Some(s[rank(s, t)])
    } else {
        None
    }
}

/// The samples with `lo <= timestamp <= hi`, oldest first.
pub open spec fn between(s: Seq<Sample>, lo: int, hi: int) -> Seq<Sample> {
    if lo <= hi {
        s.subrange(rank(s, lo), rank(s, hi + 1))
    } else {
        Seq::empty()
    }
}

/// The same samples, newest first.
pub open spec fn newest_first(s: Seq<Sample>) -> Seq<Sample> {
    Seq::new(s.len(), |i: int| s[s.len() - 1 - i])
}

/// `s` with `x` stored under its second: the earlier samples, `x`, the later
/// samples. A sample already stored for that second is replaced.
pub open spec fn upsert(s: Seq<Sample>, x: Sample) -> Seq<Sample> {
    s.take(rank(s, x.timestamp as int)).push(x) + s.skip(rank(s, x.timestamp + 1))
}

/// In an ascending series `rank` splits the samples into those earlier than
/// `t` and the rest.
pub proof fn lemma_rank(s: Seq<Sample>, t: int)
    requires
        ascending(s),
    ensures
        0 <= rank(s, t) <= s.len(),
        forall|i: int| 0 <= i < rank(s, t) ==> (#[trigger] s[i]).timestamp < t,
        forall|i: int| rank(s, t) <= i < s.len() ==> (#[trigger] s[i]).timestamp >= t,
    decreases s.len(),
{
    reveal(Seq::filter);
    let early = |r: Sample| r.timestamp < t;
    if s.len() > 0 {
        let front = s.drop_last();
        lemma_rank(front, t);
        if s.last().timestamp < t {
            assert(rank(front, t) == front.len()) by {
                if rank(front, t) < front.len() {
                    assert(front[rank(front, t)].timestamp >= t);
                    assert(front[rank(front, t)] == s[rank(front, t)]);
                }
            }
            assert(s.filter(early) == front.filter(early).push(s.last()));
        } else {
            assert(s.filter(early) == front.filter(early));
        }
        assert forall|i: int| 0 <= i < rank(s, t) implies (#[trigger] s[i]).timestamp < t by {
            if i < front.len() {
                assert(s[i] == front[i]);
            }
        }
        assert forall|i: int| rank(s, t) <= i < s.len() implies (#[trigger] s[i]).timestamp
            >= t by {
            if i < front.len() {
                assert(s[i] == front[i]);
            }
        }
    }
}

/// The split point of an ascending series is unique.
pub proof fn lemma_rank_is(s: Seq<Sample>, t: int, p: int)
    requires
        ascending(s),
        0 <= p <= s.len(),
        forall|i: int| 0 <= i < p ==> (#[trigger] s[i]).timestamp < t,
        forall|i: int| p <= i < s.len() ==> (#[trigger] s[i]).timestamp >= t,
    ensures
        rank(s, t) == p,
{
    lemma_rank(s, t);
    let r = rank(s, t);
    if r < p {
        assert(s[r].timestamp < t);
    }
    if p < r {
        assert(s[p].timestamp >= t);
    }
}

/// `rank` grows with the bound.
pub proof fn lemma_rank_monotone(s: Seq<Sample>, t: int, u: int)
    requires
        ascending(s),
        t <= u,
    ensures
        rank(s, t) <= rank(s, u),
{
    lemma_rank(s, t);
    lemma_rank(s, u);
    let a = rank(s, t);
    let b = rank(s, u);
    if b < a {
        assert(s[b].timestamp < t);
        assert(s[b].timestamp >= u);
    }
}

/// At most one sample is stored for a second, and `row_at` finds it.
pub proof fn lemma_row_at(s: Seq<Sample>, t: int)
    requires
        ascending(s),
    ensures
        rank(s, t) <= rank(s, t + 1) <= rank(s, t) + 1,
        match row_at(s, t) {
            Some(r) => r.timestamp == t && s.contains(r),
            None => forall|i: int| 0 <= i < s.len() ==> (#[trigger] s[i]).timestamp != t,
        },
{
    lemma_rank(s, t);
    lemma_rank(s, t + 1);
    lemma_rank_monotone(s, t, t + 1);
    let a = rank(s, t);
    let b = rank(s, t + 1);
    if a + 1 < b {
        assert(s[a].timestamp >= t);
        assert(s[a + 1].timestamp < t + 1);
    }
    if a < b {
        assert(s[a].timestamp >= t);
        assert(s[a].timestamp < t + 1);
    } else {
        assert forall|i: int| 0 <= i < s.len() implies (#[trigger] s[i]).timestamp != t by {
            if i < a {
                assert(s[i].timestamp < t);
            } else {
                assert(s[i].timestamp >= t + 1);
            }
        }
    }
}

/// Upserting keeps a series ascending, stores the sample under its second and
/// leaves every other second as it was.
pub proof fn lemma_upsert(s: Seq<Sample>, x: Sample)
    requires
        ascending(s),
    ensures
        ascending(upsert(s, x)),
        row_at(upsert(s, x), x.timestamp as int) == Some(x),
        forall|t: int| t != x.timestamp ==> #[trigger] row_at(upsert(s, x), t) == row_at(s, t),
        upsert(s, x).len() == if row_at(s, x.timestamp as int) is Some {
            s.len()
        } else {
            s.len() + 1
        },
{
    let t = x.timestamp as int;
    let a = rank(s, t);
    let b = rank(s, t + 1);
    let u = upsert(s, x);
    lemma_rank(s, t);
    lemma_rank(s, t + 1);
    lemma_row_at(s, t);
    assert(u.len() == a + 1 + (s.len() - b));
    assert(forall|i: int| 0 <= i < a ==> u[i] == s[i]);
    assert(u[a] == x);
    assert(forall|i: int| a < i < u.len() ==> u[i] == s[i - a - 1 + b]);
    assert(ascending(u)) by {
        assert forall|i: int, j: int| 0 <= i < j < u.len() implies u[i].timestamp
            < u[j].timestamp by {
            if j < a {
            } else if j == a {
                assert(s[i].timestamp < t);
            } else {
                assert(s[j - a - 1 + b].timestamp >= t + 1);
                if i < a {
                    assert(s[i].timestamp < t);
                } else if i == a {
                } else {
                }
            }
        }
    }
    assert forall|v: int| true implies rank(u, v) == (if v <= t {
        rank(s, v)
    } else {
        rank(s, v) - b + a + 1
    }) by {
        lemma_rank(s, v);
        let p = rank(s, v);
        if v <= t {
            lemma_rank_monotone(s, v, t);
            assert forall|i: int| p <= i < u.len() implies (#[trigger] u[i]).timestamp >= v by {
                if i < a {
                } else if i == a {
                } else {
                    assert(s[i - a - 1 + b].timestamp >= t + 1);
                }
            }
            lemma_rank_is(u, v, p);
        } else {
            lemma_rank_monotone(s, t + 1, v);
            let q = p - b + a + 1;
            assert forall|i: int| 0 <= i < q implies (#[trigger] u[i]).timestamp < v by {
                if i < a {
                    assert(s[i].timestamp < t);
                } else if i == a {
                } else {
                    assert(s[i - a - 1 + b].timestamp < v);
                }
            }
            assert forall|i: int| q <= i < u.len() implies (#[trigger] u[i]).timestamp >= v by {
                assert(s[i - a - 1 + b].timestamp >= v);
            }
            lemma_rank_is(u, v, q);
        }
    }
    assert(rank(u, t) == a);
    assert(rank(u, t + 1) == a + 1);
    assert forall|v: int| v != x.timestamp implies #[trigger] row_at(u, v) == row_at(s, v) by {
        assert(rank(u, v) == if v <= t { rank(s, v) } else { rank(s, v) - b + a + 1 });
        assert(rank(u, v + 1) == if v + 1 <= t { rank(s, v + 1) } else { rank(s, v + 1) - b + a + 1 });
        lemma_rank(s, v);
        lemma_rank(s, v + 1);
        lemma_rank_monotone(s, v, v + 1);
        if v < t {
            lemma_rank_monotone(s, v + 1, t);
        } else {
            lemma_rank_monotone(s, t + 1, v);
        }
    }
}

/// A second upsert under the same second replaces the first: one sample is
/// stored for that second, and it is the later one.
pub proof fn lemma_upsert_twice(s: Seq<Sample>, a: Sample, b: Sample)
    requires
        ascending(s),
        a.timestamp == b.timestamp,
    ensures
        upsert(upsert(s, a), b) == upsert(s, b),
        upsert(upsert(s, a), b).len() == upsert(s, a).len(),
        row_at(upsert(upsert(s, a), b), b.timestamp as int) == Some(b),
{
    let t = a.timestamp as int;
    let u = upsert(s, a);
    lemma_upsert(s, a);
    lemma_upsert(s, b);
    lemma_upsert(u, b);
    lemma_rank(s, t);
    lemma_rank(s, t + 1);
    lemma_rank_monotone(s, t, t + 1);
    let p = rank(s, t);
    let q = rank(s, t + 1);
    assert(u.len() == p + 1 + (s.len() - q));
    assert(forall|i: int| 0 <= i < p ==> u[i] == s[i]);
    assert(u[p] == a);
    assert(forall|i: int| p < i < u.len() ==> u[i] == s[i - p - 1 + q]);
    assert forall|i: int| p < i < u.len() implies (#[trigger] u[i]).timestamp >= t + 1 by {
        assert(s[i - p - 1 + q].timestamp >= t + 1);
    }
    assert forall|i: int| 0 <= i < p implies (#[trigger] u[i]).timestamp < t by {
        assert(s[i].timestamp < t);
    }
    lemma_rank_is(u, t, p);
    lemma_rank_is(u, t + 1, p + 1);
    assert(upsert(u, b) =~= upsert(s, b));
}

/// In an ascending series the samples of one second are the stored sample
/// alone, or none.
pub proof fn lemma_between_one(s: Seq<Sample>, t: int)
    requires
        ascending(s),
    ensures
        between(s, t, t) == match row_at(s, t) {
            Some(x) => seq![x],
            None => Seq::empty(),
        },
{
    lemma_row_at(s, t);
    lemma_rank(s, t);
    lemma_rank(s, t + 1);
    match row_at(s, t) {
        Some(x) => {
            assert(between(s, t, t) =~= seq![x]);
        },
        None => {
            assert(between(s, t, t) =~= Seq::empty());
        },
    }
}

/// Index of the first sample that is not earlier than `t`.
pub fn lower_bound(s: &Vec<Sample>, t: i64) -> (p: usize)
    requires
        ascending(s@),
    ensures
        p == rank(s@, t as int),
        p <= s.len(),
{
    let mut lo: usize = 0;
    let mut hi: usize = s.len();
    while lo < hi
        invariant
            ascending(s@),
            lo <= hi <= s.len(),
            forall|i: int| 0 <= i < lo ==> (#[trigger] s@[i]).timestamp < t,
            forall|i: int| hi <= i < s.len() ==> (#[trigger] s@[i]).timestamp >= t,
        decreases hi - lo,
    {
        let mid: usize = lo + (hi - lo) / 2;
        if s[mid].timestamp < t {
            lo = mid + 1;
        } else {
            hi = mid;
        }
    }
    proof {
        lemma_rank_is(s@, t as int, lo as int);
    }
    lo
}

/// Index of the first sample that is later than `t`.
pub fn upper_bound(s: &Vec<Sample>, t: i64) -> (p: usize)
    requires
        ascending(s@),
    ensures
        p == rank(s@, t + 1),
        p <= s.len(),
{
    let mut lo: usize = 0;
    let mut hi: usize = s.len();
    while lo < hi
        invariant
            ascending(s@),
            lo <= hi <= s.len(),
            forall|i: int| 0 <= i < lo ==> (#[trigger] s@[i]).timestamp < t + 1,
            forall|i: int| hi <= i < s.len() ==> (#[trigger] s@[i]).timestamp >= t + 1,
        decreases hi - lo,
    {
        let mid: usize = lo + (hi - lo) / 2;
        if s[mid].timestamp <= t {
            lo = mid + 1;
        } else {
            hi = mid;
        }
    }
    proof {
        lemma_rank_is(s@, t + 1, lo as int);
    }
    lo
}

} // verus!
