//! Heuristics that tell real packet loss from measurement artefacts.
//!
//! Known traps:
//! 1. ICMP rate-limiting: a router limits its ICMP answers but forwards the
//!    traffic fine; the apparent loss is not real.
//! 2. Trains of rate-limiting routers: several consecutive hops may all limit
//!    ICMP; the next hop without rate-limiting tells the real loss.
//! 3. Physical latency jumps: a big RTT jump can be an ocean crossing, not
//!    congestion; it is only a degradation when loss propagates too.

use vstd::prelude::*;
use crate::types::{
    Hop, loss_above, loss_at_least_minus, loss_below, loss_den, loss_num, seq_max, seq_min,
};

verus! {

// ─── ICMP rate-limiting ──────────────────────────────────────────────────────

/// A hop that answered at least once with less than 5% loss.
pub open spec fn is_clean(h: Hop) -> bool {
    h.received > 0 && loss_below(h, 5)
}

/// Some hop after index `i` is clean.
pub open spec fn clean_hop_after(hops: Seq<Hop>, i: int) -> bool {
    exists|j: int| i < j < hops.len() && is_clean(#[trigger] hops[j])
}

/// Hop `i` loses at least 5% while a later hop is clean: its loss is apparent.
pub open spec fn ratelimit_suspected(hops: Seq<Hop>, i: int) -> bool {
    !loss_below(hops[i], 5) && clean_hop_after(hops, i)
}

/// `h` with its rate-limit flag set to `flag`.
pub open spec fn with_ratelimit_flag(h: Hop, flag: bool) -> Hop {
    Hop { suspected_icmp_ratelimit: flag, ..h }
}

/// The hops after rate-limit flagging: a hop keeps its flag and gets one when
/// it is suspected.
pub open spec fn flagged(hops: Seq<Hop>) -> Seq<Hop> {
    Seq::new(
        hops.len(),
        |i: int|
            with_ratelimit_flag(
                hops[i],
                hops[i].suspected_icmp_ratelimit || ratelimit_suspected(hops, i),
            ),
    )
}

/// The hop at the machine index `i`.
pub open spec fn hop_at(hops: Seq<Hop>, i: usize) -> Hop {
    hops[i as int]
}

fn is_clean_exec(h: &Hop) -> (r: bool)
    ensures
        r == is_clean(*h),
{
    h.received > 0 && h.loss_is_below(5)
}

/// Marks the hops suspected of ICMP rate-limiting.
///
/// A hop with at least 5% loss is marked when a later hop answered with less
/// than 5% loss: the traffic went through, so the loss was only in the ICMP
/// answers. Without such a clean hop ahead the loss is kept as possibly real.
pub fn flag_icmp_ratelimiting(hops: &mut Vec<Hop>)
    ensures
        final(hops)@ == flagged(old(hops)@),
{
    let ghost orig = hops@;
    let n = hops.len();
    let mut clean_after = false;
    let mut i = n;
    while i > 0
        invariant
            n == orig.len(),
            hops@.len() == n,
            i <= n,
            forall|k: int| 0 <= k < i ==> hops@[k] == orig[k],
            forall|k: int| i <= k < n ==> hops@[k] == flagged(orig)[k],
            clean_after == clean_hop_after(orig, i - 1),
        decreases i,
    {
        i = i - 1;
        let lossy = !hops[i].loss_is_below(5);
        let clean = is_clean_exec(&hops[i]);
        if lossy && clean_after {
            hops[i].suspected_icmp_ratelimit = true;
        }
        assert(hop_at(hops@, i) == hop_at(flagged(orig), i));
        proof {
            if clean {
                assert(is_clean(hop_at(orig, i)));
            }
            if clean_after {
                let j = choose|j: int| i < j < orig.len() && is_clean(#[trigger] orig[j]);
                assert(i - 1 < j);
            }
            if clean_hop_after(orig, i - 1) && !clean {
                let j = choose|j: int| i - 1 < j < orig.len() && is_clean(#[trigger] orig[j]);
                assert(j != i);
            }
        }
        clean_after = clean_after || clean;
    }
    assert(hops@ =~= flagged(orig));
}

/// Flagging twice flags the same hops as flagging once.
pub proof fn lemma_flagging_idempotent(hops: Seq<Hop>)
    ensures
        flagged(flagged(hops)) == flagged(hops),
{
    let f = flagged(hops);
    assert forall|i: int| 0 <= i < hops.len() implies ratelimit_suspected(f, i)
        == ratelimit_suspected(hops, i) by {
        if clean_hop_after(f, i) {
            let j = choose|j: int| i < j < f.len() && is_clean(#[trigger] f[j]);
            assert(is_clean(hops[j]));
        }
        if clean_hop_after(hops, i) {
            let j = choose|j: int| i < j < hops.len() && is_clean(#[trigger] hops[j]);
            assert(is_clean(f[j]));
        }
    }
    assert(flagged(f) =~= f);
}

/// A hop gets newly flagged only if it loses at least 5% and is not the
/// last hop (the last hop has no hop ahead to prove the traffic went through).
pub proof fn lemma_flag_needs_loss_and_later_hop(hops: Seq<Hop>, i: int)
    requires
        0 <= i < hops.len(),
    ensures
        flagged(hops)[i].suspected_icmp_ratelimit && !hops[i].suspected_icmp_ratelimit ==> (
        !loss_below(hops[i], 5) && i < hops.len() - 1),
{
}

// ─── Bufferbloat ─────────────────────────────────────────────────────────────

/// The RTT of the hop swings from a minimum of at least 10 ms to more than
/// five times it, and by more than 80 ms.
pub open spec fn spec_bufferbloated(h: Hop) -> bool {
    h.rtt_samples@.len() > 0 && {
        let lo = seq_min(h.rtt_samples@);
        let hi = seq_max(h.rtt_samples@);
        lo > 0 && lo >= 10_000_000 && hi > 5 * lo && hi - lo > 80_000_000
    }
}

/// Detects a hop with bufferbloat.
///
/// Hops with a minimum RTT under 10 ms are ignored (the smallest spike gives a
/// huge ratio), and the absolute swing must exceed 80 ms.
pub fn is_bufferbloated(hop: &Hop) -> (r: bool)
    ensures
        r == spec_bufferbloated(*hop),
{
    match (hop.min_rtt_ns(), hop.max_rtt_ns()) {
        (Some(lo), Some(hi)) => {
            if lo > 0 {
                lo >= 10_000_000 && (hi as u128) > 5 * (lo as u128) && hi - lo > 80_000_000
            } else {
                false
            }
        },
        _ => false,
    }
}

// ─── Degradation point ───────────────────────────────────────────────────────

/// Kind of degradation found on a path.
#[derive(Debug, Clone, Copy, PartialEq, Eq, Structural)]
pub enum DegradationType {
    /// Pure latency jump without loss: probably physical (ocean, distance).
    LatencyJump,
    /// Packet loss that propagates: real degradation.
    PacketLoss,
    /// Latency jump and propagating loss: serious congestion.
    Congestion,
}

/// Where a path degrades.
#[derive(Debug, Clone, Copy, PartialEq, Eq, Structural)]
pub struct Degradation {
    pub hop_index: usize,
    pub degradation_type: DegradationType,
    /// RTT jump at the hop, in nanoseconds (may be negative).
    pub rtt_jump_ns: i128,
    /// Loss percentage at the hop, as `loss_num / loss_den` (0 for a
    /// rate-limited hop).
    pub loss_num: i128,
    pub loss_den: i128,
}

/// Severity order of the degradation kinds.
pub open spec fn rank(t: DegradationType) -> int {
    match t {
        DegradationType::LatencyJump => 1,
        DegradationType::PacketLoss => 2,
        DegradationType::Congestion => 3,
    }
}

/// Minimum RTT of the last hop before `i` that has RTT samples.
pub open spec fn prev_min_rtt(hops: Seq<Hop>, i: int) -> Option<int>
    decreases i,
{
    if i <= 0 {
        None
    } else if hops[i - 1].rtt_samples@.len() > 0 {
        Some(seq_min(hops[i - 1].rtt_samples@))
    } else {
        prev_min_rtt(hops, i - 1)
    }
}

/// RTT jump at hop `i` (which has samples): its minimum RTT minus that of the
/// previous hop with samples, 0 when there is none.
pub open spec fn rtt_jump(hops: Seq<Hop>, i: int) -> int {
    match prev_min_rtt(hops, i) {
        Some(p) => seq_min(hops[i].rtt_samples@) - p,
        None => 0,
    }
}

/// A hop that answered and is not suspected of rate-limiting.
pub open spec fn responsive_unflagged(h: Hop) -> bool {
    !h.suspected_icmp_ratelimit && h.received > 0
}

/// The first `k` responsive unflagged hops from index `j` on all lose at
/// least the loss of `c` minus 3 points.
pub open spec fn first_followers_keep_loss(hops: Seq<Hop>, j: int, k: nat, c: Hop) -> bool
    decreases hops.len() - j,
{
    if j >= hops.len() || k == 0 || j < 0 {
        true
    } else if responsive_unflagged(hops[j]) {
        loss_at_least_minus(hops[j], c, 3) && first_followers_keep_loss(
            hops,
            j + 1,
            (k - 1) as nat,
            c,
        )
    } else {
        first_followers_keep_loss(hops, j + 1, k, c)
    }
}

/// The loss at hop `i` (0 when rate-limited) exceeds 3% and the next three
/// responsive unflagged hops from `i` on (at least one) keep it within 3 points.
pub open spec fn loss_propagates(hops: Seq<Hop>, i: int) -> bool {
    &&& !hops[i].suspected_icmp_ratelimit
    &&& loss_above(hops[i], 3)
    &&& exists|j: int| i <= j < hops.len() && responsive_unflagged(#[trigger] hops[j])
    &&& first_followers_keep_loss(hops, i, 3, hops[i])
}

/// Loss numerator of hop `h` as counted by the degradation search.
pub open spec fn counted_loss_num(h: Hop) -> int {
    if h.suspected_icmp_ratelimit {
        0
    } else {
        loss_num(h)
    }
}

/// Loss denominator of hop `h` as counted by the degradation search.
pub open spec fn counted_loss_den(h: Hop) -> int {
    if h.suspected_icmp_ratelimit {
        1
    } else {
        loss_den(h)
    }
}

/// Degradation record from plain values.
pub open spec fn make_degradation(i: int, t: DegradationType, jump: int, num: int, den: int) -> Degradation {
    Degradation {
        hop_index: i as usize,
        degradation_type: t,
        rtt_jump_ns: jump as i128,
        loss_num: num as i128,
        loss_den: den as i128,
    }
}

/// The degradation that hop `i` (1 ≤ i) shows on its own, if any.
pub open spec fn candidate(hops: Seq<Hop>, i: int) -> Option<Degradation> {
    if hops[i].rtt_samples@.len() == 0 {
        None
    } else {
        let lp = loss_propagates(hops, i);
        let bj = rtt_jump(hops, i) > 30_000_000;
        if !lp && !bj {
            None
        } else {
            Some(
                make_degradation(
                    i,
                    if lp && bj {
                        DegradationType::Congestion
                    } else if lp {
                        DegradationType::PacketLoss
                    } else {
                        DegradationType::LatencyJump
                    },
                    rtt_jump(hops, i),
                    counted_loss_num(hops[i]),
                    counted_loss_den(hops[i]),
                ),
            )
        }
    }
}

/// `r` is, among the hops `1 ≤ j < upto`, the first candidate of the highest
/// severity, or `None` when no hop is a candidate.
pub open spec fn is_most_severe_first(hops: Seq<Hop>, upto: int, r: Option<Degradation>) -> bool {
    match r {
        None => forall|j: int| 1 <= j < upto ==> #[trigger] candidate(hops, j) is None,
        Some(d) => {
            &&& 1 <= d.hop_index < upto
            &&& candidate(hops, d.hop_index as int) == Some(d)
            &&& forall|j: int|
                1 <= j < upto && #[trigger] candidate(hops, j) is Some ==> rank(
                    candidate(hops, j).unwrap().degradation_type,
                ) <= rank(d.degradation_type) && (j < d.hop_index ==> rank(
                    candidate(hops, j).unwrap().degradation_type,
                ) < rank(d.degradation_type))
        },
    }
}

fn is_flagged(h: &Hop) -> (r: bool)
    ensures
        r == h.suspected_icmp_ratelimit,
{
    h.suspected_icmp_ratelimit
}

fn is_responsive_unflagged(h: &Hop) -> (r: bool)
    ensures
        r == responsive_unflagged(*h),
{
    !is_flagged(h) && h.received > 0
}

fn prev_min_rtt_exec(hops: &[Hop], i: usize) -> (r: Option<u64>)
    requires
        i <= hops@.len(),
    ensures
        match r {
            Some(v) => prev_min_rtt(hops@, i as int) == Some(v as int),
            None => prev_min_rtt(hops@, i as int) is None,
        },
{
    let mut j = i;
    while j > 0
        invariant
            j <= i <= hops@.len(),
            prev_min_rtt(hops@, i as int) == prev_min_rtt(hops@, j as int),
        decreases j,
    {
        if hops[j - 1].rtt_samples.len() > 0 {
            let m = hops[j - 1].min_rtt_ns();
            return m;
        }
        j = j - 1;
    }
    None
}

fn followers_keep_loss(hops: &[Hop], i: usize) -> (r: bool)
    requires
        i < hops@.len(),
    ensures
        r == first_followers_keep_loss(hops@, i as int, 3, hops@[i as int]),
{
    let mut j = i;
    let mut k: u32 = 3;
    while j < hops.len() && k > 0
        invariant
            i <= j <= hops@.len(),
            k <= 3,
            first_followers_keep_loss(hops@, i as int, 3, hops@[i as int])
                == first_followers_keep_loss(hops@, j as int, k as nat, hops@[i as int]),
        decreases hops@.len() - j,
    {
        if is_responsive_unflagged(&hops[j]) {
            if !hops[j].loss_is_at_least_minus(&hops[i], 3) {
                return false;
            }
            k = k - 1;
        }
        j = j + 1;
    }
    true
}

fn responsive_from(hops: &[Hop], i: usize) -> (r: bool)
    requires
        i < hops@.len(),
    ensures
        r == exists|j: int| i <= j < hops@.len() && responsive_unflagged(#[trigger] hops@[j]),
{
    let mut j = i;
    while j < hops.len()
        invariant
            i <= j <= hops@.len(),
            forall|m: int| i <= m < j ==> !responsive_unflagged(#[trigger] hops@[m]),
        decreases hops@.len() - j,
    {
        if is_responsive_unflagged(&hops[j]) {
            return true;
        }
        j = j + 1;
    }
    false
}

fn loss_propagates_exec(hops: &[Hop], i: usize) -> (r: bool)
    requires
        i < hops@.len(),
    ensures
        r == loss_propagates(hops@, i as int),
{
    !is_flagged(&hops[i]) && hops[i].loss_is_above(3) && responsive_from(hops, i)
        && followers_keep_loss(hops, i)
}

fn counted_loss(h: &Hop) -> (r: (i128, i128))
    ensures
        r.0 == counted_loss_num(*h),
        r.1 == counted_loss_den(*h),
{
    if is_flagged(h) {
        (0, 1)
    } else {
        crate::types::loss_fraction(h.sent, h.received)
    }
}

fn degradation_candidate(hops: &[Hop], i: usize) -> (r: Option<Degradation>)
    requires
        i < hops@.len(),
    ensures
        r == candidate(hops@, i as int),
{
    if hops[i].rtt_samples.len() == 0 {
        return None;
    }
    let cur = hops[i].min_rtt_ns();
    let jump: i128 = match (prev_min_rtt_exec(hops, i), cur) {
        (Some(p), Some(c)) => (c as i128) - (p as i128),
        _ => 0,
    };
    let lp = loss_propagates_exec(hops, i);
    let bj = jump > 30_000_000;
    if !lp && !bj {
        return None;
    }
    let t = if lp && bj {
        DegradationType::Congestion
    } else if lp {
        DegradationType::PacketLoss
    } else {
        DegradationType::LatencyJump
    };
    let (num, den) = counted_loss(&hops[i]);
    Some(Degradation { hop_index: i, degradation_type: t, rtt_jump_ns: jump, loss_num: num, loss_den: den })
}

fn rank_exec(t: DegradationType) -> (r: u8)
    ensures
        r == rank(t),
{
    match t {
        DegradationType::LatencyJump => 1,
        DegradationType::PacketLoss => 2,
        DegradationType::Congestion => 3,
    }
}

/// Finds the point where the path degrades.
///
/// A hop is a candidate when it has RTT samples and either its minimum RTT
/// jumps by more than 30 ms over the previous hop with samples, or its loss
/// (ignored on rate-limited hops) exceeds 3% and propagates to the following
/// responsive hops. Loss and jump together make a congestion, loss alone a
/// packet-loss degradation, the jump alone a latency jump. The first candidate
/// of the most severe kind is returned. RTTs are used on rate-limited hops
/// too: the flag concerns the ICMP answers, not the reliability of the RTTs.
pub fn find_degradation(hops: &[Hop]) -> (r: Option<Degradation>)
    ensures
        is_most_severe_first(hops@, hops@.len() as int, r),
{
    let n = hops.len();
    if n < 2 {
        return None;
    }
    let mut best: Option<Degradation> = None;
    let mut i: usize = 1;
    while i < n
        invariant
            n == hops@.len(),
            1 <= i <= n,
            is_most_severe_first(hops@, i as int, best),
        decreases n - i,
    {
        let cand = degradation_candidate(hops, i);
        match cand {
            Some(c) => {
                match best {
                    None => {
                        best = Some(c);
                    },
                    Some(b) => {
                        if rank_exec(c.degradation_type) > rank_exec(b.degradation_type) {
                            best = Some(c);
                        }
                    },
                }
            },
            None => {},
        }
        i = i + 1;
    }
    best
}

/// The search result is unique: two results that are both the first
/// most severe candidate are equal.
pub proof fn lemma_most_severe_first_unique(
    hops: Seq<Hop>,
    upto: int,
    r1: Option<Degradation>,
    r2: Option<Degradation>,
)
    requires
        is_most_severe_first(hops, upto, r1),
        is_most_severe_first(hops, upto, r2),
    ensures
        r1 == r2,
{
    match (r1, r2) {
        (Some(a), Some(b)) => {
            assert(candidate(hops, b.hop_index as int) is Some);
            assert(candidate(hops, a.hop_index as int) is Some);
        },
        (Some(a), None) => {
            assert(candidate(hops, a.hop_index as int) is Some);
        },
        (None, Some(b)) => {
            assert(candidate(hops, b.hop_index as int) is Some);
        },
        _ => {},
    }
}

/// A hop flagged as rate-limited never counts as a loss degradation
/// (its loss is apparent); it can only show a latency jump.
pub proof fn lemma_flagged_hop_only_latency(hops: Seq<Hop>, i: int)
    requires
        0 <= i < hops.len(),
        hops[i].suspected_icmp_ratelimit,
    ensures
        candidate(hops, i) is Some ==> candidate(hops, i).unwrap().degradation_type
            == DegradationType::LatencyJump,
{
}

/// Index of the hop where the degradation starts (see `find_degradation`).
pub fn find_degradation_point(hops: &[Hop]) -> (r: Option<usize>)
    ensures
        exists|d: Option<Degradation>|
            is_most_severe_first(hops@, hops@.len() as int, d) && r == match d {
                Some(x) => Some(x.hop_index),
                None => None,
            },
{
    match find_degradation(hops) {
        Some(d) => Some(d.hop_index),
        None => None,
    }
}

/// The hop is suspected of ICMP rate limiting.
pub open spec fn rate_limited_hop(h: Hop) -> bool {
    h.suspected_icmp_ratelimit
}

proof fn lemma_prev_min_rtt(hops: Seq<Hop>, i: int)
    requires
        0 <= i <= hops.len(),
    ensures
        match prev_min_rtt(hops, i) {
            Some(m) => exists|p: int|
                0 <= p < i && hops[p].rtt_samples@.len() > 0 && m == seq_min(hops[p].rtt_samples@) && forall|j: int|
                    p < j < i ==> (#[trigger] hops[j]).rtt_samples@.len() == 0,
            None => forall|j: int| 0 <= j < i ==> (#[trigger] hops[j]).rtt_samples@.len() == 0,
        },
    decreases i,
{
    if i > 0 {
        lemma_prev_min_rtt(hops, i - 1);
    }
}

proof fn lemma_seq_min_range(s: Seq<u64>)
    requires
        s.len() > 0,
    ensures
        0 <= seq_min(s) <= u64::MAX,
    decreases s.len(),
{
    if s.len() > 1 {
        lemma_seq_min_range(s.drop_last());
    }
}

/// What a degradation found on a path says of its hop: the hop (not the
/// first) has round-trip times; its RTT jump is its lowest RTT minus that of
/// the last earlier hop with RTTs (0 when there is none); its loss is
/// `100 × (sent − received) / sent` (0 when nothing was sent), counted as 0
/// only on a hop suspected of rate limiting; a loss or congestion
/// degradation needs an unflagged hop losing more than 3%, a latency jump or
/// congestion a jump above 30 ms, and a pure loss degradation no such jump.
pub proof fn lemma_degradation_law(hops: Seq<Hop>, d: Degradation)
    requires
        is_most_severe_first(hops, hops.len() as int, Some(d)),
    ensures
        ({
            let i = d.hop_index as int;
            let h = hops[i];
            &&& 1 <= i < hops.len()
            &&& h.rtt_samples@.len() > 0
            &&& rate_limited_hop(h) ==> d.loss_num == 0 && d.loss_den == 1
            &&& !rate_limited_hop(h) ==> d.loss_num == (if h.sent == 0 {
                0
            } else {
                100 * (h.sent - h.received)
            }) && d.loss_den == (if h.sent == 0 {
                1
            } else {
                h.sent as int
            })
            &&& d.degradation_type != DegradationType::LatencyJump ==> !rate_limited_hop(h) && h.sent > 0 && 100 * (
            h.sent - h.received) > 3 * h.sent
            &&& d.degradation_type != DegradationType::PacketLoss ==> d.rtt_jump_ns > 30_000_000
            &&& d.degradation_type == DegradationType::PacketLoss ==> d.rtt_jump_ns <= 30_000_000
            &&& (forall|j: int| 0 <= j < i ==> (#[trigger] hops[j]).rtt_samples@.len() == 0) ==> d.rtt_jump_ns == 0
            &&& forall|p: int|
                0 <= p < i && hops[p].rtt_samples@.len() > 0 && (forall|j: int|
                    p < j < i ==> (#[trigger] hops[j]).rtt_samples@.len() == 0) ==> d.rtt_jump_ns == seq_min(
                    h.rtt_samples@,
                ) - seq_min(hops[p].rtt_samples@)
        }),
{
    let i = d.hop_index as int;
    lemma_prev_min_rtt(hops, i);
    assert(candidate(hops, i) == Some(d));
    match prev_min_rtt(hops, i) {
        Some(m) => {
            let q = choose|p: int|
                0 <= p < i && hops[p].rtt_samples@.len() > 0 && m == seq_min(hops[p].rtt_samples@) && forall|j: int|
                    p < j < i ==> (#[trigger] hops[j]).rtt_samples@.len() == 0;
            assert forall|p: int|
                0 <= p < i && hops[p].rtt_samples@.len() > 0 && (forall|j: int|
                    p < j < i ==> (#[trigger] hops[j]).rtt_samples@.len() == 0) implies d.rtt_jump_ns == seq_min(
                    hops[i].rtt_samples@,
                ) - seq_min(hops[p].rtt_samples@) by {
                lemma_seq_min_range(hops[q].rtt_samples@);
                lemma_seq_min_range(hops[i].rtt_samples@);
                if p < q {
                    assert(hops[q].rtt_samples@.len() == 0);
                } else if p > q {
                    assert(hops[p].rtt_samples@.len() == 0);
                }
            }
            assert(hops[q].rtt_samples@.len() > 0);
            lemma_seq_min_range(hops[q].rtt_samples@);
            lemma_seq_min_range(hops[i].rtt_samples@);
            assert(d.rtt_jump_ns == rtt_jump(hops, i));
        },
        None => {},
    }
}

/// The hop loses at least 5% of its probes.
pub open spec fn loses_five_percent(h: Hop) -> bool {
    h.sent > 0 && 100 * (h.sent - h.received) >= 5 * h.sent
}

/// The hop answered, with less than 5% loss.
pub open spec fn answered_cleanly(h: Hop) -> bool {
    h.received > 0 && !loses_five_percent(h)
}

/// Flagging keeps every hop and all its measures, and sets the flag of a hop
/// exactly when it already had it, or it loses at least 5% while some later
/// hop answered with less than 5% loss.
pub proof fn lemma_flagging_law(hops: Seq<Hop>)
    ensures
        flagged(hops).len() == hops.len(),
        forall|i: int|
            0 <= i < hops.len() ==> {
                let f = #[trigger] flagged(hops)[i];
                let h = hops[i];
                &&& f.ttl == h.ttl && f.sent == h.sent && f.received == h.received && f.rtt_samples == h.rtt_samples
                &&& f.ips_seen == h.ips_seen && f.primary_ip == h.primary_ip && f.hostname == h.hostname && f.as_info
                    == h.as_info
                &&& rate_limited_hop(f) == (rate_limited_hop(h) || (loses_five_percent(h) && exists|j: int|
                    i < j < hops.len() && answered_cleanly(#[trigger] hops[j])))
            },
{
    assert forall|i: int| 0 <= i < hops.len() implies {
        let f = #[trigger] flagged(hops)[i];
        let h = hops[i];
        &&& f.ttl == h.ttl && f.sent == h.sent && f.received == h.received && f.rtt_samples == h.rtt_samples
        &&& f.ips_seen == h.ips_seen && f.primary_ip == h.primary_ip && f.hostname == h.hostname && f.as_info
            == h.as_info
        &&& rate_limited_hop(f) == (rate_limited_hop(h) || (loses_five_percent(h) && exists|j: int|
            i < j < hops.len() && answered_cleanly(#[trigger] hops[j])))
    } by {
        if clean_hop_after(hops, i) {
            let j = choose|j: int| i < j < hops.len() && is_clean(#[trigger] hops[j]);
            assert(answered_cleanly(hops[j]));
        }
        if exists|j: int| i < j < hops.len() && answered_cleanly(#[trigger] hops[j]) {
            let j = choose|j: int| i < j < hops.len() && answered_cleanly(#[trigger] hops[j]);
            assert(is_clean(hops[j]));
        }
    }
}

proof fn lemma_seq_min_max(s: Seq<u64>)
    requires
        s.len() > 0,
    ensures
        exists|i: int| 0 <= i < s.len() && s[i] == seq_min(s),
        exists|i: int| 0 <= i < s.len() && s[i] == seq_max(s),
        forall|k: int| 0 <= k < s.len() ==> seq_min(s) <= #[trigger] s[k] <= seq_max(s),
    decreases s.len(),
{
    if s.len() > 1 {
        let t = s.drop_last();
        lemma_seq_min_max(t);
        let i = choose|i: int| 0 <= i < t.len() && t[i] == seq_min(t);
        let j = choose|i: int| 0 <= i < t.len() && t[i] == seq_max(t);
        assert(s[i] == t[i] && s[j] == t[j]);
        assert forall|k: int| 0 <= k < s.len() implies seq_min(s) <= #[trigger] s[k] <= seq_max(s) by {
            if k < s.len() - 1 {
                assert(s[k] == t[k]);
            }
        }
        assert(s[s.len() - 1] == s.last());
    } else {
        assert(s[0] == seq_min(s));
    }
}

/// Bufferbloat over the samples of the hop: its lowest RTT is at least
/// 10 ms, and its highest is more than five times the lowest and above it
/// by more than 80 ms.
pub proof fn lemma_bufferbloat_law(h: Hop)
    ensures
        spec_bufferbloated(h) <==> exists|i: int, j: int|
            0 <= i < h.rtt_samples@.len() && 0 <= j < h.rtt_samples@.len() && (forall|k: int|
                0 <= k < h.rtt_samples@.len() ==> h.rtt_samples@[i] <= #[trigger] h.rtt_samples@[k]
                    <= h.rtt_samples@[j]) && h.rtt_samples@[i] >= 10_000_000 && h.rtt_samples@[j] > 5
                * h.rtt_samples@[i] && h.rtt_samples@[j] - h.rtt_samples@[i] > 80_000_000,
{
    let s = h.rtt_samples@;
    if s.len() > 0 {
        lemma_seq_min_max(s);
        let a = choose|i: int| 0 <= i < s.len() && s[i] == seq_min(s);
        let b = choose|i: int| 0 <= i < s.len() && s[i] == seq_max(s);
        if spec_bufferbloated(h) {
            assert(forall|k: int| 0 <= k < s.len() ==> s[a] <= #[trigger] s[k] <= s[b]);
        }
        if exists|i: int, j: int|
            0 <= i < s.len() && 0 <= j < s.len() && (forall|k: int| 0 <= k < s.len() ==> s[i] <= #[trigger] s[k] <= s[j])
                && s[i] >= 10_000_000 && s[j] > 5 * s[i] && s[j] - s[i] > 80_000_000 {
            let (i, j) = choose|i: int, j: int|
                0 <= i < s.len() && 0 <= j < s.len() && (forall|k: int| 0 <= k < s.len() ==> s[i] <= #[trigger] s[k] <= s[j])
                    && s[i] >= 10_000_000 && s[j] > 5 * s[i] && s[j] - s[i] > 80_000_000;
            assert(s[i] <= s[a] && s[a] <= s[i]);
            assert(s[j] <= s[b] && s[b] <= s[j]);
        }
    }
}

/// A jump of more than 30 ms in the lowest RTT, from the last earlier hop
/// with RTTs to a later hop, is never missed: the search finds a
/// degradation, of a kind at least as severe as a latency jump, at that hop
/// or at a hop of a more severe kind.
pub proof fn lemma_jump_is_found(hops: Seq<Hop>, r: Option<Degradation>, i: int, p: int)
    requires
        is_most_severe_first(hops, hops.len() as int, r),
        1 <= i < hops.len(),
        0 <= p < i,
        hops[i].rtt_samples@.len() > 0,
        hops[p].rtt_samples@.len() > 0,
        forall|j: int| p < j < i ==> (#[trigger] hops[j]).rtt_samples@.len() == 0,
        seq_min(hops[i].rtt_samples@) - seq_min(hops[p].rtt_samples@) > 30_000_000,
    ensures
        r is Some,
        r.unwrap().hop_index <= i || rank(r.unwrap().degradation_type) > 1,
{
    lemma_prev_min_rtt(hops, i);
    match prev_min_rtt(hops, i) {
        Some(m) => {
            let q = choose|q: int|
                0 <= q < i && hops[q].rtt_samples@.len() > 0 && m == seq_min(hops[q].rtt_samples@) && forall|j: int|
                    q < j < i ==> (#[trigger] hops[j]).rtt_samples@.len() == 0;
            if q < p {
                assert(hops[p].rtt_samples@.len() == 0);
            } else if q > p {
                assert(hops[q].rtt_samples@.len() == 0);
            }
        },
        None => {
            assert(hops[p].rtt_samples@.len() == 0);
        },
    }
    assert(candidate(hops, i) is Some);
}

/// Loss percentage of `h` as a fraction `(numerator, denominator)` of its
/// probe counts (0 when nothing was sent).
pub open spec fn loss_fraction_of(h: Hop) -> (int, int) {
    if h.sent == 0 {
        (0, 1)
    } else {
        (100 * (h.sent - h.received), h.sent as int)
    }
}

proof fn lemma_followers_keep(hops: Seq<Hop>, j: int, k: nat, c: Hop)
    requires
        0 <= j,
        forall|m: int|
            j <= m < hops.len() && responsive_unflagged(#[trigger] hops[m]) ==> loss_at_least_minus(hops[m], c, 3),
    ensures
        first_followers_keep_loss(hops, j, k, c),
    decreases hops.len() - j,
{
    if j < hops.len() && k > 0 {
        if responsive_unflagged(hops[j]) {
            lemma_followers_keep(hops, j + 1, (k - 1) as nat, c);
        } else {
            lemma_followers_keep(hops, j + 1, k, c);
        }
    }
}

/// A loss that is real is never missed: when a hop (not the first) with
/// RTTs, not suspected of rate limiting, answered and loses more than 3%,
/// and every later hop that answered and is not suspected loses at least as
/// much minus 3 points, the search finds a loss or congestion degradation
/// (at that hop or at an earlier one).
pub proof fn lemma_propagating_loss_is_found(hops: Seq<Hop>, r: Option<Degradation>, i: int)
    requires
        is_most_severe_first(hops, hops.len() as int, r),
        1 <= i < hops.len(),
        hops[i].rtt_samples@.len() > 0,
        !rate_limited_hop(hops[i]),
        hops[i].received > 0,
        hops[i].sent > 0 && 100 * (hops[i].sent - hops[i].received) > 3 * hops[i].sent,
        forall|j: int|
            i <= j < hops.len() && !rate_limited_hop(#[trigger] hops[j]) && hops[j].received > 0 ==> loss_fraction_of(
                hops[j],
            ).0 * loss_fraction_of(hops[i]).1 >= loss_fraction_of(hops[i]).0 * loss_fraction_of(hops[j]).1 - 3
                * loss_fraction_of(hops[j]).1 * loss_fraction_of(hops[i]).1,
    ensures
        r is Some,
        rank(r.unwrap().degradation_type) >= 2,
        r.unwrap().hop_index <= i || rank(r.unwrap().degradation_type) == 3,
{
    assert forall|m: int|
        i <= m < hops.len() && responsive_unflagged(#[trigger] hops[m]) implies loss_at_least_minus(hops[m], hops[i], 3) by {
        assert(!rate_limited_hop(hops[m]) && hops[m].received > 0);
    }
    lemma_followers_keep(hops, i, 3, hops[i]);
    assert(responsive_unflagged(hops[i]));
    assert(loss_propagates(hops, i));
    assert(candidate(hops, i) is Some);
    assert(rank(candidate(hops, i).unwrap().degradation_type) >= 2);
}

/// A hop with both a real loss and a jump of more than 30 ms is a congestion,
/// the most severe kind: the search returns a congestion, at that hop or at
/// an earlier one.
pub proof fn lemma_congestion_is_found(hops: Seq<Hop>, r: Option<Degradation>, i: int, p: int)
    requires
        is_most_severe_first(hops, hops.len() as int, r),
        1 <= i < hops.len(),
        0 <= p < i,
        hops[i].rtt_samples@.len() > 0,
        hops[p].rtt_samples@.len() > 0,
        forall|j: int| p < j < i ==> (#[trigger] hops[j]).rtt_samples@.len() == 0,
        seq_min(hops[i].rtt_samples@) - seq_min(hops[p].rtt_samples@) > 30_000_000,
        !rate_limited_hop(hops[i]),
        hops[i].received > 0,
        hops[i].sent > 0 && 100 * (hops[i].sent - hops[i].received) > 3 * hops[i].sent,
        forall|j: int|
            i <= j < hops.len() && !rate_limited_hop(#[trigger] hops[j]) && hops[j].received > 0 ==> loss_fraction_of(
                hops[j],
            ).0 * loss_fraction_of(hops[i]).1 >= loss_fraction_of(hops[i]).0 * loss_fraction_of(hops[j]).1 - 3
                * loss_fraction_of(hops[j]).1 * loss_fraction_of(hops[i]).1,
    ensures
        r is Some,
        r.unwrap().degradation_type == DegradationType::Congestion,
        r.unwrap().hop_index <= i,
{
    lemma_jump_is_found(hops, r, i, p);
    lemma_propagating_loss_is_found(hops, r, i);
    lemma_prev_min_rtt(hops, i);
    match prev_min_rtt(hops, i) {
        Some(m) => {
            let q = choose|q: int|
                0 <= q < i && hops[q].rtt_samples@.len() > 0 && m == seq_min(hops[q].rtt_samples@) && forall|j: int|
                    q < j < i ==> (#[trigger] hops[j]).rtt_samples@.len() == 0;
            if q < p {
                assert(hops[p].rtt_samples@.len() == 0);
            } else if q > p {
                assert(hops[q].rtt_samples@.len() == 0);
            }
        },
        None => {
            assert(hops[p].rtt_samples@.len() == 0);
        },
    }
    assert forall|m: int|
        i <= m < hops.len() && responsive_unflagged(#[trigger] hops[m]) implies loss_at_least_minus(hops[m], hops[i], 3) by {
        assert(!rate_limited_hop(hops[m]) && hops[m].received > 0);
    }
    lemma_followers_keep(hops, i, 3, hops[i]);
    assert(responsive_unflagged(hops[i]));
    assert(candidate(hops, i).unwrap().degradation_type == DegradationType::Congestion);
}

} // verus!
