//! Time analysis of the stored runs: the hours of the day at which the path
//! is degraded.

use vstd::prelude::*;
use crate::report::history::first_index_of;
use crate::text::{chars_of, parse_i64, parse_i64_spec, utf8_len, utf8_len_exceeds, utf8_width};

verus! {

/// Runs and bad runs (verdict other than Healthy) seen at one hour of the day.
#[derive(Debug, Clone, Copy, PartialEq, Eq, Structural)]
pub struct HourCount {
    pub total: usize,
    pub bad: usize,
}

/// A range of consecutive peak hours.
#[derive(Debug)]
pub struct PeakGroup {
    /// The hours of the range, in order.
    pub hours: Vec<u8>,
    pub bad_count: usize,
    pub total_count: usize,
}

/// Runs per hour of the day: `(hour, bad)` for each run.
pub open spec fn count_upto(samples: Seq<(u8, bool)>, n: int) -> Seq<HourCount>
    decreases n,
{
    if n <= 0 {
        Seq::new(24, |h: int| HourCount { total: 0, bad: 0 })
    } else {
        let prev = count_upto(samples, n - 1);
        let (h, bad) = samples[n - 1];
        let c = prev[h as int];
        prev.update(
            h as int,
            HourCount { total: (c.total + 1) as usize, bad: (c.bad + if bad { 1int } else { 0int }) as usize },
        )
    }
}

/// The runs at hour `h`.
pub open spec fn at_hour(h: int) -> spec_fn((u8, bool)) -> bool {
    |x: (u8, bool)| x.0 == h
}

/// The bad runs at hour `h`.
pub open spec fn bad_at_hour(h: int) -> spec_fn((u8, bool)) -> bool {
    |x: (u8, bool)| x.0 == h && x.1
}

/// The count of each hour is the number of runs at that hour, and of the bad
/// ones among them, over all 24 hours.
pub proof fn lemma_count_by_hour_law(samples: Seq<(u8, bool)>, n: int)
    requires
        0 <= n <= samples.len() < usize::MAX,
        forall|i: int| 0 <= i < samples.len() ==> (#[trigger] samples[i]).0 < 24,
    ensures
        count_upto(samples, n).len() == 24,
        forall|h: int|
            0 <= h < 24 ==> (#[trigger] count_upto(samples, n)[h]).total == samples.subrange(0, n).filter(at_hour(h)).len()
                && count_upto(samples, n)[h].bad == samples.subrange(0, n).filter(bad_at_hour(h)).len(),
    decreases n,
{
    if n == 0 {
        assert forall|h: int| 0 <= h < 24 implies (#[trigger] count_upto(samples, n)[h]).total == samples.subrange(
            0,
            n,
        ).filter(at_hour(h)).len() && count_upto(samples, n)[h].bad == samples.subrange(0, n).filter(
            bad_at_hour(h),
        ).len() by {
            reveal(Seq::filter);
            assert(samples.subrange(0, 0).filter(at_hour(h)) =~= Seq::<(u8, bool)>::empty());
            assert(samples.subrange(0, 0).filter(bad_at_hour(h)) =~= Seq::<(u8, bool)>::empty());
        }
    } else {
        lemma_count_by_hour_law(samples, n - 1);
        let t = samples.subrange(0, n - 1);
        let x = samples[n - 1];
        assert(samples.subrange(0, n) =~= t.push(x));
        assert forall|h: int| 0 <= h < 24 implies (#[trigger] count_upto(samples, n)[h]).total == samples.subrange(
            0,
            n,
        ).filter(at_hour(h)).len() && count_upto(samples, n)[h].bad == samples.subrange(0, n).filter(
            bad_at_hour(h),
        ).len() by {
            t.lemma_filter_push(x, at_hour(h));
            t.lemma_filter_push(x, bad_at_hour(h));
            t.lemma_filter_len(at_hour(h));
            t.lemma_filter_len(bad_at_hour(h));
        }
    }
}

/// Counts the runs, and the bad ones, of each hour of the day.
pub fn count_by_hour(samples: &Vec<(u8, bool)>) -> (r: Vec<HourCount>)
    requires
        forall|i: int| 0 <= i < samples@.len() ==> (#[trigger] samples@[i]).0 < 24,
        samples@.len() < usize::MAX,
    ensures
        r@ == count_upto(samples@, samples@.len() as int),
{
    let mut r: Vec<HourCount> = Vec::new();
    let mut h: usize = 0;
    while h < 24
        invariant
            h <= 24,
            r@ == Seq::new(h as nat, |k: int| HourCount { total: 0, bad: 0 }),
        decreases 24 - h,
    {
        r.push(HourCount { total: 0, bad: 0 });
        h = h + 1;
        assert(r@ =~= Seq::new(h as nat, |k: int| HourCount { total: 0, bad: 0 }));
    }
    let mut i: usize = 0;
    while i < samples.len()
        invariant
            i <= samples@.len() < usize::MAX,
            forall|k: int| 0 <= k < samples@.len() ==> (#[trigger] samples@[k]).0 < 24,
            r@ == count_upto(samples@, i as int),
            r@.len() == 24,
            forall|k: int| 0 <= k < 24 ==> (#[trigger] r@[k]).bad <= r@[k].total <= i,
        decreases samples@.len() - i,
    {
        let (hh, bad) = samples[i];
        let c = r[hh as usize];
        let add: usize = if bad {
            1
        } else {
            0
        };
        r.set(hh as usize, HourCount { total: c.total + 1, bad: c.bad + add });
        i = i + 1;
    }
    r
}

/// The hour is a peak: at least two runs, and more than half of them bad.
pub open spec fn is_peak(c: HourCount) -> bool {
    c.total >= 2 && 2 * c.bad > c.total
}

/// The maximal ranges of consecutive peak hours among the first `n` hours, in
/// order.
pub open spec fn peak_runs(counts: Seq<HourCount>, n: int) -> Seq<Seq<u8>>
    decreases n,
{
    if n <= 0 {
        Seq::empty()
    } else {
        let prev = peak_runs(counts, n - 1);
        if !is_peak(counts[n - 1]) {
            prev
        } else if n >= 2 && is_peak(counts[n - 2]) {
            prev.update(prev.len() - 1, prev.last().push((n - 1) as u8))
        } else {
            prev.push(seq![(n - 1) as u8])
        }
    }
}

/// The ranges of consecutive peak hours on the ring of the day: the ranges of
/// `peak_runs`, except that a range ending at 23 and one starting at 0 are
/// one range across midnight (listed where the part before midnight starts).
pub open spec fn ring_runs(counts: Seq<HourCount>) -> Seq<Seq<u8>> {
    let runs = peak_runs(counts, 24);
    if runs.len() >= 2 && runs[0][0] == 0 && runs.last().last() == 23 {
        runs.subrange(1, runs.len() - 1).push(runs.last() + runs[0])
    } else {
        runs
    }
}

/// Sum of the runs of `hours`.
pub open spec fn total_of(counts: Seq<HourCount>, hours: Seq<u8>) -> int
    decreases hours.len(),
{
    if hours.len() == 0 {
        0
    } else {
        total_of(counts, hours.drop_last()) + counts[hours.last() as int].total
    }
}

/// Sum of the bad runs of `hours`.
pub open spec fn bad_of(counts: Seq<HourCount>, hours: Seq<u8>) -> int
    decreases hours.len(),
{
    if hours.len() == 0 {
        0
    } else {
        bad_of(counts, hours.drop_last()) + counts[hours.last() as int].bad
    }
}

/// The plain values of a group.
pub open spec fn group_view(g: PeakGroup) -> (Seq<u8>, int, int) {
    (g.hours@, g.bad_count as int, g.total_count as int)
}

/// `a` comes before `b`: more runs first, then the earlier range first.
pub open spec fn ranks_before(a: (Seq<u8>, int, int), b: (Seq<u8>, int, int)) -> bool {
    a.2 > b.2 || (a.2 == b.2 && a.0.len() > 0 && b.0.len() > 0 && a.0[0] < b.0[0])
}

/// Each range with its counts of bad runs and runs.
pub open spec fn with_counts(counts: Seq<HourCount>, runs: Seq<Seq<u8>>) -> Seq<(Seq<u8>, int, int)> {
    runs.map_values(|run: Seq<u8>| (run, bad_of(counts, run), total_of(counts, run)))
}

/// The ranges of peak hours with their counts, by decreasing number of runs
/// (ranges with as many runs stay in the order of the day).
pub open spec fn is_peak_report(counts: Seq<HourCount>, r: Seq<(Seq<u8>, int, int)>) -> bool {
    &&& r.to_multiset() == with_counts(counts, ring_runs(counts)).to_multiset()
    &&& forall|i: int, j: int| 0 <= i < j < r.len() ==> ranks_before(#[trigger] r[i], #[trigger] r[j])
}

proof fn lemma_sums_concat(counts: Seq<HourCount>, a: Seq<u8>, b: Seq<u8>)
    ensures
        bad_of(counts, a + b) == bad_of(counts, a) + bad_of(counts, b),
        total_of(counts, a + b) == total_of(counts, a) + total_of(counts, b),
    decreases b.len(),
{
    if b.len() == 0 {
        assert(a + b =~= a);
    } else {
        lemma_sums_concat(counts, a, b.drop_last());
        assert((a + b).drop_last() =~= a + b.drop_last());
        assert((a + b).last() == b.last());
    }
}

/// Sum of the runs of the first `k` hours.
pub open spec fn prefix_total(counts: Seq<HourCount>, k: int) -> int
    decreases k,
{
    if k <= 0 {
        0
    } else {
        prefix_total(counts, k - 1) + counts[k - 1].total
    }
}

proof fn lemma_prefix_total_monotone(counts: Seq<HourCount>, a: int, b: int)
    requires
        0 <= a <= b,
    ensures
        prefix_total(counts, a) <= prefix_total(counts, b),
    decreases b - a,
{
    if a < b {
        lemma_prefix_total_monotone(counts, a, b - 1);
    }
}

/// Facts on the ranges of the first `n` hours: each is a non-empty run of
/// consecutive peak hours below `n`, the ranges come in order, and the runs
/// of a range never exceed those of the hours up to its end.
proof fn lemma_peak_runs(counts: Seq<HourCount>, n: int)
    requires
        0 <= n <= 24,
        counts.len() == 24,
    ensures
        forall|i: int| 0 <= i < peak_runs(counts, n).len() ==> (#[trigger] peak_runs(counts, n)[i]).len() > 0,
        forall|i: int| 0 <= i < peak_runs(counts, n).len() ==> 0 <= bad_of(counts, #[trigger] peak_runs(counts, n)[i])
            <= total_of(counts, peak_runs(counts, n)[i]) <= prefix_total(counts, peak_runs(counts, n)[i].last() + 1)
            || exists|h: int| 0 <= h < 24 && counts[h].bad > counts[h].total,
        forall|i: int| 0 <= i < peak_runs(counts, n).len() ==> (#[trigger] peak_runs(counts, n)[i]).last() < n,
        forall|i: int|
            0 <= i < peak_runs(counts, n).len() ==> (#[trigger] peak_runs(counts, n)[i])[0] <= peak_runs(counts, n)[i].last(),
        forall|i: int, j: int|
            0 <= i < j < peak_runs(counts, n).len() ==> (#[trigger] peak_runs(counts, n)[i]).last() < (
            #[trigger] peak_runs(counts, n)[j])[0],
        n > 0 && is_peak(counts[n - 1]) ==> peak_runs(counts, n).len() > 0 && peak_runs(counts, n).last().last()
            == n - 1,
    decreases n,
{
    if n > 0 {
        lemma_peak_runs(counts, n - 1);
        let prev = peak_runs(counts, n - 1);
        let cur = peak_runs(counts, n);
        if is_peak(counts[n - 1]) {
            if n >= 2 && is_peak(counts[n - 2]) {
                let last = prev.last();
                let ext = last.push((n - 1) as u8);
                assert(ext.drop_last() =~= last);
                lemma_prefix_total_monotone(counts, last.last() + 1, n - 1);
                assert forall|i: int| 0 <= i < cur.len() implies 0 <= bad_of(counts, #[trigger] cur[i]) <= total_of(
                    counts,
                    cur[i],
                ) <= prefix_total(counts, cur[i].last() + 1) || exists|h: int| 0 <= h < 24 && counts[h].bad
                    > counts[h].total by {
                    if i < cur.len() - 1 {
                        assert(cur[i] == prev[i]);
                    } else {
                        if !(exists|h: int| 0 <= h < 24 && counts[h].bad > counts[h].total) {
                            assert(counts[n - 1].bad <= counts[n - 1].total);
                        }
                    }
                }
                assert forall|i: int, j: int| 0 <= i < j < cur.len() implies (#[trigger] cur[i]).last() < (
                #[trigger] cur[j])[0] by {
                    assert(cur[i] == prev[i]);
                    if j < cur.len() - 1 {
                        assert(cur[j] == prev[j]);
                    } else {
                        assert(cur[j][0] == prev[j][0]);
                    }
                }
                assert forall|i: int| 0 <= i < cur.len() implies (#[trigger] cur[i]).last() < n by {
                    if i < cur.len() - 1 {
                        assert(cur[i] == prev[i]);
                    }
                }
                assert forall|i: int| 0 <= i < cur.len() implies (#[trigger] cur[i])[0] <= cur[i].last() by {
                    if i < cur.len() - 1 {
                        assert(cur[i] == prev[i]);
                    }
                }
            } else {
                let single: Seq<u8> = seq![(n - 1) as u8];
                assert(single.drop_last() =~= Seq::<u8>::empty());
                lemma_prefix_total_monotone(counts, 0, n - 1);
                assert forall|i: int| 0 <= i < cur.len() implies 0 <= bad_of(counts, #[trigger] cur[i]) <= total_of(
                    counts,
                    cur[i],
                ) <= prefix_total(counts, cur[i].last() + 1) || exists|h: int| 0 <= h < 24 && counts[h].bad
                    > counts[h].total by {
                    if i < cur.len() - 1 {
                        assert(cur[i] == prev[i]);
                    } else {
                        assert(cur[i] == single);
                        assert(single.last() as int == n - 1);
                        assert(bad_of(counts, single.drop_last()) == 0);
                        assert(total_of(counts, single.drop_last()) == 0);
                        assert(bad_of(counts, single) == counts[n - 1].bad);
                        assert(total_of(counts, single) == counts[n - 1].total);
                        assert(prefix_total(counts, n) == prefix_total(counts, n - 1) + counts[n - 1].total);
                        if !(exists|h: int| 0 <= h < 24 && counts[h].bad > counts[h].total) {
                            assert(counts[n - 1].bad <= counts[n - 1].total);
                        }
                    }
                }
                assert forall|i: int, j: int| 0 <= i < j < cur.len() implies (#[trigger] cur[i]).last() < (
                #[trigger] cur[j])[0] by {
                    assert(cur[i] == prev[i]);
                    if j < cur.len() - 1 {
                        assert(cur[j] == prev[j]);
                    }
                }
                assert forall|i: int| 0 <= i < cur.len() implies (#[trigger] cur[i]).last() < n by {
                    if i < cur.len() - 1 {
                        assert(cur[i] == prev[i]);
                    }
                }
                assert forall|i: int| 0 <= i < cur.len() implies (#[trigger] cur[i])[0] <= cur[i].last() by {
                    if i < cur.len() - 1 {
                        assert(cur[i] == prev[i]);
                    }
                }
            }
        }
    }
}

/// Hour `h` (below 24) has at least two runs, more than half of them bad.
pub open spec fn peak_hour(counts: Seq<HourCount>, h: int) -> bool {
    counts[h].total >= 2 && 2 * counts[h].bad > counts[h].total
}

/// The hours of `run` are peak hours, each the one after the previous on the
/// ring of the day.
pub open spec fn run_of_peak_hours(counts: Seq<HourCount>, run: Seq<u8>) -> bool {
    &&& run.len() > 0
    &&& forall|k: int| 0 <= k < run.len() ==> (#[trigger] run[k]) < 24 && peak_hour(counts, run[k] as int)
    &&& forall|k: int| 0 <= k < run.len() - 1 ==> (#[trigger] run[k + 1]) == (run[k] + 1) % 24
}

proof fn lemma_peak_runs_hours(counts: Seq<HourCount>, n: int)
    requires
        0 <= n <= 24,
        counts.len() == 24,
    ensures
        forall|i: int|
            0 <= i < peak_runs(counts, n).len() ==> run_of_peak_hours(counts, #[trigger] peak_runs(counts, n)[i])
                && peak_runs(counts, n)[i].last() < n,
        forall|h: int|
            0 <= h < n && peak_hour(counts, h) ==> exists|i: int, k: int|
                0 <= i < peak_runs(counts, n).len() && 0 <= k < peak_runs(counts, n)[i].len() && #[trigger] peak_runs(
                    counts,
                    n,
                )[i][k] == h,
        n > 0 && is_peak(counts[n - 1]) ==> peak_runs(counts, n).len() > 0 && peak_runs(counts, n).last().last()
            == n - 1,
    decreases n,
{
    if n > 0 {
        lemma_peak_runs_hours(counts, n - 1);
        if is_peak(counts[n - 1]) {
            if n >= 2 && is_peak(counts[n - 2]) {
                lemma_peak_runs_extend(counts, n);
            } else {
                lemma_peak_runs_start(counts, n);
            }
        } else {
            let prev = peak_runs(counts, n - 1);
            let cur = peak_runs(counts, n);
            assert(cur == prev);
            assert forall|h: int| 0 <= h < n && peak_hour(counts, h) implies exists|i: int, k: int|
                0 <= i < cur.len() && 0 <= k < cur[i].len() && #[trigger] cur[i][k] == h by {
                assert(h != n - 1);
                let (i, k) = choose|i: int, k: int| 0 <= i < prev.len() && 0 <= k < prev[i].len() && #[trigger] prev[i][k] == h;
                assert(cur[i][k] == h);
            }
        }
    }
}

#[verifier::rlimit(40)]
proof fn lemma_peak_runs_extend(counts: Seq<HourCount>, n: int)
    requires
        2 <= n <= 24,
        counts.len() == 24,
        is_peak(counts[n - 1]),
        is_peak(counts[n - 2]),
        forall|i: int|
            0 <= i < peak_runs(counts, n - 1).len() ==> run_of_peak_hours(counts, #[trigger] peak_runs(counts, n - 1)[i])
                && peak_runs(counts, n - 1)[i].last() < n - 1,
        forall|h: int|
            0 <= h < n - 1 && peak_hour(counts, h) ==> exists|i: int, k: int|
                0 <= i < peak_runs(counts, n - 1).len() && 0 <= k < peak_runs(counts, n - 1)[i].len()
                    && #[trigger] peak_runs(counts, n - 1)[i][k] == h,
        peak_runs(counts, n - 1).len() > 0 && peak_runs(counts, n - 1).last().last() == n - 2,
    ensures
        forall|i: int|
            0 <= i < peak_runs(counts, n).len() ==> run_of_peak_hours(counts, #[trigger] peak_runs(counts, n)[i])
                && peak_runs(counts, n)[i].last() < n,
        forall|h: int|
            0 <= h < n && peak_hour(counts, h) ==> exists|i: int, k: int|
                0 <= i < peak_runs(counts, n).len() && 0 <= k < peak_runs(counts, n)[i].len() && #[trigger] peak_runs(
                    counts,
                    n,
                )[i][k] == h,
        peak_runs(counts, n).len() > 0 && peak_runs(counts, n).last().last() == n - 1,
{
    let prev = peak_runs(counts, n - 1);
    let cur = peak_runs(counts, n);
    let last = prev.last();
    let ext = last.push((n - 1) as u8);
    assert(cur == prev.update(prev.len() - 1, ext));
    assert(run_of_peak_hours(counts, prev[prev.len() - 1]));
    assert(run_of_peak_hours(counts, ext)) by {
        assert forall|k: int| 0 <= k < ext.len() - 1 implies (#[trigger] ext[k + 1]) == (ext[k] + 1) % 24 by {
            if k < last.len() - 1 {
                assert(ext[k + 1] == last[k + 1] && ext[k] == last[k]);
            } else {
                assert(ext[k] == last.last());
            }
        }
        assert forall|k: int| 0 <= k < ext.len() implies (#[trigger] ext[k]) < 24 && peak_hour(counts, ext[k] as int) by {
            if k < last.len() {
                assert(ext[k] == last[k]);
            }
        }
    }
    assert forall|i: int| 0 <= i < cur.len() implies run_of_peak_hours(counts, #[trigger] cur[i]) && cur[i].last() < n by {
        if i < cur.len() - 1 {
            assert(cur[i] == prev[i]);
        }
    }
    assert forall|h: int| 0 <= h < n && peak_hour(counts, h) implies exists|i: int, k: int|
        0 <= i < cur.len() && 0 <= k < cur[i].len() && #[trigger] cur[i][k] == h by {
        if h < n - 1 {
            let (i, k) = choose|i: int, k: int| 0 <= i < prev.len() && 0 <= k < prev[i].len() && #[trigger] prev[i][k] == h;
            if i < prev.len() - 1 {
                assert(cur[i] == prev[i]);
            } else {
                assert(cur[i][k] == ext[k]);
            }
            assert(cur[i][k] == h);
        } else {
            assert(cur[cur.len() - 1][ext.len() - 1] == h);
        }
    }
}

#[verifier::rlimit(40)]
proof fn lemma_peak_runs_start(counts: Seq<HourCount>, n: int)
    requires
        1 <= n <= 24,
        counts.len() == 24,
        is_peak(counts[n - 1]),
        !(n >= 2 && is_peak(counts[n - 2])),
        forall|i: int|
            0 <= i < peak_runs(counts, n - 1).len() ==> run_of_peak_hours(counts, #[trigger] peak_runs(counts, n - 1)[i])
                && peak_runs(counts, n - 1)[i].last() < n - 1,
        forall|h: int|
            0 <= h < n - 1 && peak_hour(counts, h) ==> exists|i: int, k: int|
                0 <= i < peak_runs(counts, n - 1).len() && 0 <= k < peak_runs(counts, n - 1)[i].len()
                    && #[trigger] peak_runs(counts, n - 1)[i][k] == h,
    ensures
        forall|i: int|
            0 <= i < peak_runs(counts, n).len() ==> run_of_peak_hours(counts, #[trigger] peak_runs(counts, n)[i])
                && peak_runs(counts, n)[i].last() < n,
        forall|h: int|
            0 <= h < n && peak_hour(counts, h) ==> exists|i: int, k: int|
                0 <= i < peak_runs(counts, n).len() && 0 <= k < peak_runs(counts, n)[i].len() && #[trigger] peak_runs(
                    counts,
                    n,
                )[i][k] == h,
        peak_runs(counts, n).len() > 0 && peak_runs(counts, n).last().last() == n - 1,
{
    let prev = peak_runs(counts, n - 1);
    let cur = peak_runs(counts, n);
    let single: Seq<u8> = seq![(n - 1) as u8];
    assert(cur == prev.push(single));
    assert(run_of_peak_hours(counts, single));
    assert forall|i: int| 0 <= i < cur.len() implies run_of_peak_hours(counts, #[trigger] cur[i]) && cur[i].last() < n by {
        if i < cur.len() - 1 {
            assert(cur[i] == prev[i]);
        }
    }
    assert forall|h: int| 0 <= h < n && peak_hour(counts, h) implies exists|i: int, k: int|
        0 <= i < cur.len() && 0 <= k < cur[i].len() && #[trigger] cur[i][k] == h by {
        if h < n - 1 {
            let (i, k) = choose|i: int, k: int| 0 <= i < prev.len() && 0 <= k < prev[i].len() && #[trigger] prev[i][k] == h;
            assert(cur[i] == prev[i]);
            assert(cur[i][k] == h);
        } else {
            assert(cur[cur.len() - 1][0] == h);
        }
    }
}

/// The runs of the ring are runs of peak hours, and every peak hour is in one.
#[verifier::rlimit(40)]
proof fn lemma_ring_runs_hours(counts: Seq<HourCount>)
    requires
        counts.len() == 24,
    ensures
        forall|m: int| 0 <= m < ring_runs(counts).len() ==> run_of_peak_hours(counts, #[trigger] ring_runs(counts)[m]),
        forall|h: int|
            0 <= h < 24 && peak_hour(counts, h) ==> exists|m: int, k: int|
                0 <= m < ring_runs(counts).len() && 0 <= k < ring_runs(counts)[m].len() && #[trigger] ring_runs(
                    counts,
                )[m][k] == h,
{
    lemma_peak_runs_hours(counts, 24);
    let runs = peak_runs(counts, 24);
    let rr = ring_runs(counts);
    if runs.len() >= 2 && runs[0][0] == 0 && runs.last().last() == 23 {
        let a = runs.last();
        let b = runs[0];
        let ab = a + b;
        assert(rr == runs.subrange(1, runs.len() - 1).push(ab));
        assert(run_of_peak_hours(counts, runs[runs.len() - 1]));
        assert(run_of_peak_hours(counts, runs[0]));
        assert(run_of_peak_hours(counts, ab)) by {
            assert forall|k: int| 0 <= k < ab.len() - 1 implies (#[trigger] ab[k + 1]) == (ab[k] + 1) % 24 by {
                if k < a.len() - 1 {
                    assert(ab[k] == a[k] && ab[k + 1] == a[k + 1]);
                } else if k == a.len() - 1 {
                    assert(ab[k] == a.last());
                    assert(ab[k + 1] == b[0]);
                } else {
                    assert(ab[k] == b[k - a.len()] && ab[k + 1] == b[k - a.len() + 1]);
                }
            }
            assert forall|k: int| 0 <= k < ab.len() implies (#[trigger] ab[k]) < 24 && peak_hour(counts, ab[k] as int) by {
                if k < a.len() {
                    assert(ab[k] == a[k]);
                } else {
                    assert(ab[k] == b[k - a.len()]);
                }
            }
        }
        assert forall|m: int| 0 <= m < rr.len() implies run_of_peak_hours(counts, #[trigger] rr[m]) by {
            if m < rr.len() - 1 {
                assert(rr[m] == runs[m + 1]);
            }
        }
        assert forall|h: int| 0 <= h < 24 && peak_hour(counts, h) implies exists|m: int, k: int|
            0 <= m < rr.len() && 0 <= k < rr[m].len() && #[trigger] rr[m][k] == h by {
            let (i, k) = choose|i: int, k: int| 0 <= i < runs.len() && 0 <= k < runs[i].len() && #[trigger] runs[i][k] == h;
            if i == 0 {
                assert(rr[rr.len() - 1][a.len() + k] == h);
            } else if i == runs.len() - 1 {
                assert(rr[rr.len() - 1][k] == h);
            } else {
                assert(rr[i - 1] == runs[i]);
                assert(rr[i - 1][k] == h);
            }
        }
    }
}

/// What the report of peak hours says: each range is a non-empty run of peak
/// hours (at least two runs, more than half of them bad), each hour the one
/// after the previous on the ring of the day; every peak hour of the day is
/// in some range; and the ranges come by non-increasing number of runs.
pub proof fn lemma_peak_report_law(counts: Seq<HourCount>, r: Seq<(Seq<u8>, int, int)>)
    requires
        counts.len() == 24,
        is_peak_report(counts, r),
    ensures
        forall|i: int| 0 <= i < r.len() ==> run_of_peak_hours(counts, (#[trigger] r[i]).0),
        forall|h: int|
            0 <= h < 24 && peak_hour(counts, h) ==> exists|i: int, k: int|
                0 <= i < r.len() && 0 <= k < r[i].0.len() && #[trigger] r[i].0[k] == h,
        forall|i: int, j: int| 0 <= i < j < r.len() ==> (#[trigger] r[i]).2 >= (#[trigger] r[j]).2,
{
    broadcast use vstd::seq_lib::to_multiset_contains;

    lemma_ring_runs_hours(counts);
    let rr = ring_runs(counts);
    let w = with_counts(counts, rr);
    assert forall|i: int| 0 <= i < r.len() implies run_of_peak_hours(counts, (#[trigger] r[i]).0) by {
        assert(r.contains(r[i]));
        vstd::seq_lib::to_multiset_contains(r, r[i]);
        vstd::seq_lib::to_multiset_contains(w, r[i]);
        assert(w.contains(r[i]));
        let m = choose|m: int| 0 <= m < w.len() && w[m] == r[i];
        assert(w[m].0 == rr[m]);
    }
    assert forall|h: int| 0 <= h < 24 && peak_hour(counts, h) implies exists|i: int, k: int|
        0 <= i < r.len() && 0 <= k < r[i].0.len() && #[trigger] r[i].0[k] == h by {
        let (m, k) = choose|m: int, k: int| 0 <= m < rr.len() && 0 <= k < rr[m].len() && #[trigger] rr[m][k] == h;
        assert(w[m].0 == rr[m]);
        assert(w.contains(w[m]));
        vstd::seq_lib::to_multiset_contains(r, w[m]);
        vstd::seq_lib::to_multiset_contains(w, w[m]);
        assert(r.contains(w[m]));
        let i = choose|i: int| 0 <= i < r.len() && r[i] == w[m];
        assert(r[i].0[k] == h);
    }
    assert forall|i: int, j: int| 0 <= i < j < r.len() implies (#[trigger] r[i]).2 >= (#[trigger] r[j]).2 by {
        assert(ranks_before(r[i], r[j]));
    }
}

/// The ranges of consecutive peak hours of the day, with their counts of bad
/// runs and runs, the most represented first (ranges with as many runs stay
/// in the order of the day).
pub fn peak_groups(counts: &Vec<HourCount>) -> (r: Vec<PeakGroup>)
    requires
        counts@.len() == 24,
        forall|h: int| 0 <= h < 24 ==> (#[trigger] counts@[h]).bad <= counts@[h].total,
        2 * prefix_total(counts@, 24) <= usize::MAX,
    ensures
        is_peak_report(counts@, r@.map_values(|g: PeakGroup| group_view(g))),
{
    let ghost c = counts@;
    // The ranges in the order of the day.
    let mut groups: Vec<PeakGroup> = Vec::new();
    let mut h: usize = 0;
    while h < 24
        invariant
            h <= 24,
            c == counts@,
            c.len() == 24,
            forall|k: int| 0 <= k < 24 ==> (#[trigger] c[k]).bad <= c[k].total,
            2 * prefix_total(c, 24) <= usize::MAX,
            groups@.map_values(|g: PeakGroup| group_view(g)) == with_counts(c, peak_runs(c, h as int)),
        decreases 24 - h,
    {
        proof {
            lemma_peak_runs(c, h as int);
            lemma_peak_runs(c, h + 1);
        }
        let ch = counts[h];
        assert(ch == c[h as int]);
        if ch.total >= 2 && ch.bad > ch.total - ch.bad {
            let ghost before = groups@.map_values(|g: PeakGroup| group_view(g));
            let ghost runs = peak_runs(c, h as int);
            let prev_peak = h >= 1 && counts[h - 1].total >= 2 && counts[h - 1].bad > counts[h - 1].total
                - counts[h - 1].bad;
            proof {
                assert(is_peak(c[h as int]));
                if h >= 1 {
                    assert(counts@[h - 1] == c[h - 1]);
                    assert(c[h - 1].bad <= c[h - 1].total);
                }
                assert(prev_peak == (h >= 1 && is_peak(c[h - 1])));
                assert(groups@.len() == before.len());
            }
            if prev_peak {
                let mut g = groups.pop().unwrap();
                proof {
                    assert(before.last() == group_view(g));
                    assert(runs.last() == g.hours@);
                    let ext = runs.last().push(h as u8);
                    assert(ext.drop_last() =~= runs.last());
                    assert(peak_runs(c, h + 1).last() == ext);
                    lemma_prefix_total_monotone(c, h + 1, 24);
                    assert(total_of(c, ext) <= prefix_total(c, h + 1));
                }
                let ghost old_view = group_view(g);
                g.hours.push(h as u8);
                g.bad_count = g.bad_count + ch.bad;
                g.total_count = g.total_count + ch.total;
                proof {
                    let ext = runs.last().push(h as u8);
                    assert(g.hours@ == ext);
                    assert(ext.last() as int == h);
                    assert(bad_of(c, ext) == bad_of(c, runs.last()) + c[h as int].bad);
                    assert(total_of(c, ext) == total_of(c, runs.last()) + c[h as int].total);
                    assert(group_view(g) == (ext, bad_of(c, ext), total_of(c, ext)));
                    assert(peak_runs(c, h + 1) == runs.update(runs.len() - 1, ext));
                    assert(groups@.map_values(|g: PeakGroup| group_view(g)) =~= before.drop_last());
                    assert(with_counts(c, peak_runs(c, h + 1)) =~= before.drop_last().push(group_view(g)));
                }
                groups.push(g);
                assert(groups@.map_values(|g: PeakGroup| group_view(g)) =~= with_counts(c, peak_runs(c, h + 1)));
            } else {
                let mut hours: Vec<u8> = Vec::new();
                hours.push(h as u8);
                let g = PeakGroup { hours, bad_count: ch.bad, total_count: ch.total };
                proof {
                    let single: Seq<u8> = seq![h as u8];
                    assert(single.drop_last() =~= Seq::<u8>::empty());
                    assert(g.hours@ =~= single);
                    assert(bad_of(c, single.drop_last()) == 0);
                    assert(total_of(c, single.drop_last()) == 0);
                }
                proof {
                    let single: Seq<u8> = seq![h as u8];
                    assert(single.last() as int == h);
                    assert(group_view(g) == (single, bad_of(c, single), total_of(c, single)));
                    assert(peak_runs(c, h + 1) == runs.push(single));
                    assert(with_counts(c, peak_runs(c, h + 1)) =~= before.push(group_view(g)));
                }
                groups.push(g);
                assert(groups@.map_values(|g: PeakGroup| group_view(g)) =~= with_counts(c, peak_runs(c, h + 1)));
            }
        } else {
            assert(groups@.map_values(|g: PeakGroup| group_view(g)) =~= with_counts(c, peak_runs(c, h + 1)));
        }
        h = h + 1;
    }
    proof {
        lemma_peak_runs(c, 24);
        lemma_prefix_total_monotone(c, 0, 24);
    }
    let ghost runs = peak_runs(c, 24);
    // A range that ends at 23 continues with the one that starts at 0.
    let ng = groups.len();
    if ng >= 2 {
        proof {
            assert(group_view(groups@[0]) == with_counts(c, runs)[0]);
            assert(group_view(groups@[ng - 1]) == with_counts(c, runs)[ng - 1]);
        }
        let last_len = groups[ng - 1].hours.len();
        if groups[0].hours[0] == 0 && groups[ng - 1].hours[last_len - 1] == 23 {
            let ghost before = groups@.map_values(|g: PeakGroup| group_view(g));
            let first = groups.remove(0);
            let mut last = groups.pop().unwrap();
            proof {
                assert(group_view(first) == before[0]);
                assert(group_view(last) == before[ng - 1]);
                lemma_prefix_total_monotone(c, runs[0].last() + 1, 24);
                lemma_prefix_total_monotone(c, runs[ng - 1].last() + 1, 24);
                lemma_sums_concat(c, runs[ng - 1], runs[0]);
            }
            let mut fh = first.hours;
            last.hours.append(&mut fh);
            last.bad_count = last.bad_count + first.bad_count;
            last.total_count = last.total_count + first.total_count;
            proof {
                assert(first.hours@ == runs[0] && runs[0][0] == 0);
                assert(runs.len() == ng);
                assert(runs.last().last() == 23);
                assert(last.hours@ == runs[ng - 1] + runs[0]);
                assert(group_view(last) == (runs.last() + runs[0], bad_of(c, runs.last() + runs[0]), total_of(
                    c,
                    runs.last() + runs[0],
                )));
                assert(groups@.map_values(|g: PeakGroup| group_view(g)) =~= before.subrange(1, ng - 1));
            }
            let ghost mid = groups@.map_values(|g: PeakGroup| group_view(g));
            groups.push(last);
            proof {
                let rr = ring_runs(c);
                assert(rr == runs.subrange(1, runs.len() - 1).push(runs.last() + runs[0]));
                let v = groups@.map_values(|g: PeakGroup| group_view(g));
                assert(v =~= mid.push(group_view(last)));
                let w = with_counts(c, rr);
                assert(w.len() == v.len());
                assert forall|k: int| 0 <= k < v.len() implies v[k] == w[k] by {
                    if k < v.len() - 1 {
                        assert(v[k] == before[k + 1]);
                        assert(rr[k] == runs[k + 1]);
                    } else {
                        assert(rr[k] == runs.last() + runs[0]);
                    }
                }
                assert(v =~= w);
            }
        }
    }
    let ghost all = with_counts(c, ring_runs(c));
    proof {
        assert(groups@.map_values(|g: PeakGroup| group_view(g)) =~= all);
        assert forall|k: int| 0 <= k < all.len() implies (#[trigger] all[k]).0.len() > 0 by {
            if ring_runs(c) != runs && k == all.len() - 1 {
                assert(all[k].0 == runs.last() + runs[0]);
            } else if ring_runs(c) != runs {
                assert(all[k].0 == runs[k + 1]);
            }
        }
        assert forall|a: int, b: int| 0 <= a < b < all.len() implies (#[trigger] all[a]).0[0] < (#[trigger] all[b]).0[0] by {
            if ring_runs(c) != runs {
                assert(all[a].0 == runs[a + 1]);
                if b == all.len() - 1 {
                    assert(all[b].0 == runs.last() + runs[0]);
                    assert(all[b].0[0] == runs[runs.len() - 1][0]);
                    assert(runs[a + 1].last() < runs[runs.len() - 1][0]);
                } else {
                    assert(all[b].0 == runs[b + 1]);
                    assert(runs[a + 1].last() < runs[b + 1][0]);
                }
            } else {
                assert(runs[a].last() < runs[b][0]);
            }
        }
    }
    // Insertion by decreasing number of runs, stable.
    let mut out: Vec<PeakGroup> = Vec::new();
    let n = groups.len();
    let mut rest = groups;
    proof {
        assert(rest@.map_values(|g: PeakGroup| group_view(g)) == all);
        assert(all.subrange(0, 0) =~= Seq::<(Seq<u8>, int, int)>::empty());
        assert(out@.map_values(|g: PeakGroup| group_view(g)) =~= Seq::<(Seq<u8>, int, int)>::empty());
    }
    let mut i: usize = 0;
    while i < n
        invariant
            i <= n == all.len(),
            rest@.len() == n - i,
            forall|k: int| 0 <= k < n - i ==> group_view(#[trigger] rest@[k]) == all[i + k],
            forall|k: int| 0 <= k < all.len() ==> (#[trigger] all[k]).0.len() > 0,
            forall|a: int, b: int| 0 <= a < b < all.len() ==> (#[trigger] all[a]).0[0] < (#[trigger] all[b]).0[0],
            out@.map_values(|g: PeakGroup| group_view(g)).to_multiset() == all.subrange(0, i as int).to_multiset(),
            forall|a: int, b: int|
                0 <= a < b < out@.len() ==> ranks_before(#[trigger] group_view(out@[a]), #[trigger] group_view(out@[b])),
            forall|k: int|
                0 <= k < out@.len() ==> (#[trigger] group_view(out@[k])).0.len() > 0 && (i < n ==> group_view(out@[k]).0[0]
                    < all[i as int].0[0]),
        decreases n - i,
    {
        let ghost rest_before = rest@;
        let g = rest.remove(0);
        assert forall|k: int| 0 <= k < n - (i + 1) implies group_view(#[trigger] rest@[k]) == all[i + 1 + k] by {
            assert(rest@[k] == rest_before[k + 1]);
        }
        let ghost x = group_view(g);
        assert(g == rest_before[0]);
        assert(x == all[i as int]);
        let mut pos: usize = 0;
        while pos < out.len() && (out[pos].total_count > g.total_count || out[pos].total_count == g.total_count)
            invariant
                pos <= out@.len(),
                forall|k: int| 0 <= k < pos ==> ranks_before(#[trigger] group_view(out@[k]), x),
                forall|k: int| 0 <= k < out@.len() ==> (#[trigger] group_view(out@[k])).0.len() > 0 && group_view(out@[k]).0[0] < x.0[0],
                x == group_view(g),
                x.0.len() > 0,
            decreases out@.len() - pos,
        {
            assert(group_view(out@[pos as int]).2 == out@[pos as int].total_count);
            pos = pos + 1;
        }
        let ghost before = out@.map_values(|g: PeakGroup| group_view(g));
        proof {
            vstd::seq_lib::to_multiset_insert(before, pos as int, x);
            assert(all.subrange(0, i + 1) =~= all.subrange(0, i as int).push(x));
            vstd::seq_lib::to_multiset_build(all.subrange(0, i as int), x);
        }
        out.insert(pos, g);
        proof {
            let after = out@.map_values(|g: PeakGroup| group_view(g));
            assert(after =~= before.insert(pos as int, x));
            assert forall|a: int, b: int| 0 <= a < b < out@.len() implies ranks_before(
                #[trigger] group_view(out@[a]),
                #[trigger] group_view(out@[b]),
            ) by {
                assert(group_view(out@[a]) == after[a] && group_view(out@[b]) == after[b]);
                if pos < before.len() {
                    assert(!ranks_before(before[pos as int], x));
                    assert(before[pos as int].2 < x.2);
                }
                if a < pos && b > pos {
                    assert(after[b] == before[b - 1]);
                    assert(ranks_before(before[a], x));
                    assert(before[a].2 >= before[pos as int].2);
                } else if a == pos && b > pos {
                    assert(after[b] == before[b - 1]);
                    assert(ranks_before(before[pos as int], before[b - 1]) || pos == b - 1);
                } else if a > pos {
                    assert(after[a] == before[a - 1] && after[b] == before[b - 1]);
                } else if b < pos {
                    assert(after[a] == before[a] && after[b] == before[b]);
                } else {
                    assert(after[a] == before[a]);
                }
            }
            if i + 1 < n {
                assert(all[i as int].0[0] < all[i + 1].0[0]);
            }
        }
        i = i + 1;
    }
    proof {
        assert(all.subrange(0, n as int) =~= all);
    }
    out
}


// ─── Time span of a series of runs ───────────────────────────────────────────

/// The character index at which byte offset `a` of the UTF-8 encoding of `s`
/// falls, walking from character `i` at byte offset `acc`; `None` when the
/// offset is inside a character or past the end.
pub open spec fn index_at_byte(s: Seq<char>, a: int, i: int, acc: int) -> Option<int>
    decreases s.len() - i,
{
    if acc == a {
        Some(i)
    } else if acc > a || i < 0 || i >= s.len() {
        None
    } else {
        index_at_byte(s, a, i + 1, acc + utf8_width(s[i]))
    }
}

/// The characters between byte offsets `a` and `b` of `s` (the slice
/// `&s[a..b]`), `None` when an offset is not on a character boundary or is
/// past the end.
pub open spec fn byte_range(s: Seq<char>, a: int, b: int) -> Option<Seq<char>> {
    match (index_at_byte(s, a, 0, 0), index_at_byte(s, b, 0, 0)) {
        (Some(i), Some(j)) => if i <= j {
            Some(s.subrange(i, j))
        } else {
            None
        },
        _ => None,
    }
}

/// The number written between byte offsets `a` and `b` of `s`, 0 when that
/// slice does not exist or is not a number.
pub open spec fn field_at(s: Seq<char>, a: int, b: int) -> int {
    match byte_range(s, a, b) {
        Some(f) => match parse_i64_spec(f) {
            Some(v) => v,
            None => 0,
        },
        None => 0,
    }
}

/// A timestamp "YYYY-MM-DDTHH:MM..." as an approximate count of minutes
/// (365.25-day years, 30.44-day months); 0 when it is shorter than 16 bytes.
/// Hours and minutes are read at bytes 1-3 and 4-6 after the first 'T'.
pub open spec fn spec_minutes(ts: Seq<char>) -> int {
    if utf8_len(ts) < 16 {
        0
    } else {
        let (h, mi) = match first_index_of(ts, 'T') {
            Some(k) => {
                let rest = ts.subrange(k, ts.len() as int);
                (field_at(rest, 1, 3), field_at(rest, 4, 6))
            },
            None => (0, 0),
        };
        field_at(ts, 0, 4) * 525960 + field_at(ts, 5, 7) * 43829 + field_at(ts, 8, 10) * 1440 + h * 60 + mi
    }
}

/// The fixed date fields of the timestamp can be sliced out: a timestamp of
/// at least 16 bytes has character boundaries at bytes 0, 4, 5, 7, 8 and 10.
pub open spec fn minutes_readable(ts: Seq<char>) -> bool {
    utf8_len(ts) >= 16 ==> byte_range(ts, 0, 4) is Some && byte_range(ts, 5, 7) is Some && byte_range(ts, 8, 10)
        is Some
}

/// The character index of byte offset `a` (small) in `s`.
fn byte_index(s: &Vec<char>, a: u64) -> (r: Option<usize>)
    ensures
        match r {
            Some(i) => index_at_byte(s@, a as int, 0, 0) == Some(i as int),
            None => index_at_byte(s@, a as int, 0, 0) is None,
        },
{
    let mut i: usize = 0;
    let mut acc: u64 = 0;
    while i < s.len() && acc < a
        invariant
            i <= s@.len(),
            acc <= a,
            index_at_byte(s@, a as int, 0, 0) == index_at_byte(s@, a as int, i as int, acc as int),
        decreases s@.len() - i,
    {
        let c = s[i];
        let w: u64 = if (c as u32) < 0x80 {
            1
        } else if (c as u32) < 0x800 {
            2
        } else if (c as u32) < 0x10000 {
            3
        } else {
            4
        };
        assert(w == utf8_width(c));
        if w > a - acc {
            assert(index_at_byte(s@, a as int, i + 1, acc + w) is None);
            return None;
        }
        acc = acc + w;
        i = i + 1;
    }
    if acc == a {
        Some(i)
    } else {
        None
    }
}

proof fn lemma_index_at_byte_range(s: Seq<char>, a: int, i: int, acc: int)
    requires
        0 <= i <= s.len(),
    ensures
        index_at_byte(s, a, i, acc) matches Some(r) ==> i <= r <= s.len(),
    decreases s.len() - i,
{
    if acc != a && acc <= a && i < s.len() {
        lemma_index_at_byte_range(s, a, i + 1, acc + utf8_width(s[i]));
    }
}

/// The slice between byte offsets `a` and `b`.
fn byte_range_exec(s: &Vec<char>, a: u64, b: u64) -> (r: Option<Vec<char>>)
    ensures
        match byte_range(s@, a as int, b as int) {
            Some(f) => r matches Some(v) && v@ == f,
            None => r is None,
        },
{
    proof {
        lemma_index_at_byte_range(s@, a as int, 0, 0);
        lemma_index_at_byte_range(s@, b as int, 0, 0);
    }
    let oi = byte_index(s, a);
    let oj = byte_index(s, b);
    match oi {
        Some(i) => match oj {
            Some(j) => if i <= j {
                let mut v: Vec<char> = Vec::new();
                let mut k: usize = i;
                while k < j
                    invariant
                        i <= k <= j <= s@.len(),
                        v@ == s@.subrange(i as int, k as int),
                    decreases j - k,
                {
                    v.push(s[k]);
                    k = k + 1;
                    assert(v@ =~= s@.subrange(i as int, k as int));
                }
                assert(byte_range(s@, a as int, b as int) == Some(s@.subrange(i as int, j as int)));
                Some(v)
            } else {
                None
            },
            None => None,
        },
        None => None,
    }
}

/// The number between byte offsets `a` and `b`, 0 when there is none.
fn field_exec(s: &Vec<char>, a: u64, b: u64) -> (r: i64)
    ensures
        r == field_at(s@, a as int, b as int),
{
    match byte_range_exec(s, a, b) {
        Some(f) => match parse_i64(f.as_slice()) {
            Some(v) => v,
            None => 0,
        },
        None => 0,
    }
}

/// The approximate minute count of a timestamp.
fn minutes_exec(ts: &str) -> (r: i128)
    requires
        minutes_readable(ts@),
    ensures
        r == spec_minutes(ts@),
        -0x1000_0000_0000_0000_0000_0000 <= r <= 0x1000_0000_0000_0000_0000_0000,
{
    let cs = chars_of(ts);
    if !utf8_len_exceeds(cs.as_slice(), 15) {
        return 0;
    }
    let mut k: usize = 0;
    while k < cs.len() && cs[k] != 'T'
        invariant
            cs@ == ts@,
            k <= cs@.len(),
            forall|m: int| 0 <= m < k ==> cs@[m] != 'T',
        decreases cs@.len() - k,
    {
        k = k + 1;
    }
    let (h, mi): (i64, i64) = if k < cs.len() {
        proof {
            let c = choose|j: int| 0 <= j < cs@.len() && cs@[j] == 'T' && forall|m: int| 0 <= m < j ==> cs@[m] != 'T';
            if c < k {
            } else if c > k {
                assert(cs@[k as int] != 'T');
            }
            assert(first_index_of(ts@, 'T') == Some(k as int));
        }
        let mut rest: Vec<char> = Vec::new();
        let mut m: usize = k;
        while m < cs.len()
            invariant
                k <= m <= cs@.len(),
                rest@ == cs@.subrange(k as int, m as int),
            decreases cs@.len() - m,
        {
            rest.push(cs[m]);
            m = m + 1;
            assert(rest@ =~= cs@.subrange(k as int, m as int));
        }
        (field_exec(&rest, 1, 3), field_exec(&rest, 4, 6))
    } else {
        proof {
            assert(!(exists|j: int| 0 <= j < cs@.len() && cs@[j] == 'T'));
        }
        (0, 0)
    };
    let y = field_exec(&cs, 0, 4) as i128;
    let mo = field_exec(&cs, 5, 7) as i128;
    let d = field_exec(&cs, 8, 10) as i128;
    y * 525960 + mo * 43829 + d * 1440 + (h as i128) * 60 + (mi as i128)
}

/// The time between the first and the last run of a series, in (approximate)
/// minutes, from their timestamps.
pub fn span_minutes(first: &str, last: &str) -> (r: i128)
    requires
        minutes_readable(first@),
        minutes_readable(last@),
    ensures
        r == (if spec_minutes(last@) >= spec_minutes(first@) {
            spec_minutes(last@) - spec_minutes(first@)
        } else {
            spec_minutes(first@) - spec_minutes(last@)
        }),
{
    let a = minutes_exec(last);
    let b = minutes_exec(first);
    if a >= b {
        a - b
    } else {
        b - a
    }
}

/// Whether the date fields of a timestamp can be sliced out (see
/// `minutes_readable`); reading the span of other timestamps stops the
/// program.
pub fn timestamp_readable(ts: &str) -> (r: bool)
    ensures
        r == minutes_readable(ts@),
{
    let cs = chars_of(ts);
    if !utf8_len_exceeds(cs.as_slice(), 15) {
        return true;
    }
    byte_range_exec(&cs, 0, 4).is_some() && byte_range_exec(&cs, 5, 7).is_some() && byte_range_exec(&cs, 8, 10)
        .is_some()
}

} // verus!
