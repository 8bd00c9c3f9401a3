//! TCP `connect()` probing with a fixed source port, and the detection of
//! imbalance between ECMP paths.
//!
//! The source port drives the ECMP hash of the path: by varying it over
//! several flows, the parallel paths to one target are explored. When some
//! flows are clearly worse than the others, one ECMP member is degraded.
//!
//! Round-trip times are kept in nanoseconds.

use vstd::prelude::*;
use vstd::relations::{sorted_by, total_ordering};
use vstd::seq_lib::{lemma_sorted_unique, to_multiset_build, to_multiset_insert};

verus! {

/// First source port of the flows (outside the usual ephemeral range).
pub const FLOW_SRC_PORT_BASE: u16 = 33434;

/// Outcome of a TCP probe.
#[derive(Debug, Clone, Copy, PartialEq, Eq, Structural)]
pub enum TcpOutcome {
    /// SYN-ACK received: port open, target reached.
    Open,
    /// RST received: port closed but target reached (valid RTT).
    Closed,
    /// No answer in time (TTL too low, filtering or loss).
    Timeout,
    /// Network error (host or network unreachable reported by ICMP).
    Unreachable,
}

/// Result of one TCP probe.
#[derive(Debug, Clone, Copy, PartialEq, Eq, Structural)]
pub struct TcpProbeResult {
    pub outcome: TcpOutcome,
    /// Handshake round-trip time in nanoseconds.
    pub rtt: Option<u64>,
    /// Source port actually used.
    pub src_port: u16,
}

impl TcpProbeResult {
    /// Did the target answer (SYN-ACK or RST)?
    pub fn reached_target(&self) -> (r: bool)
        ensures
            r == (self.outcome == TcpOutcome::Open || self.outcome == TcpOutcome::Closed),
    {
        match self.outcome {
            TcpOutcome::Open | TcpOutcome::Closed => true,
            _ => false,
        }
    }
}

/// The kind of a failed `connect()`, as far as the classification needs it.
#[derive(Debug, Clone, Copy, PartialEq, Eq, Structural)]
pub enum ConnectErrorKind {
    ConnectionRefused,
    TimedOut,
    WouldBlock,
    Other,
}

/// Outcome and RTT of a failed `connect()` that took `elapsed_ns`.
pub open spec fn spec_classify(kind: ConnectErrorKind, raw_os_error: Option<i32>, elapsed_ns: u64) -> (
    TcpOutcome,
    Option<u64>,
) {
    match kind {
        ConnectErrorKind::ConnectionRefused => (TcpOutcome::Closed, Some(elapsed_ns)),
        ConnectErrorKind::TimedOut | ConnectErrorKind::WouldBlock => (TcpOutcome::Timeout, None),
        ConnectErrorKind::Other => match raw_os_error {
            Some(code) => if code == 113 || code == 101 || code == 10065 || code == 10051 {
                (TcpOutcome::Unreachable, None)
            } else {
                (TcpOutcome::Timeout, None)
            },
            None => (TcpOutcome::Timeout, None),
        },
    }
}

/// Turns a failed `connect()` into a probe outcome: a refusal (RST) means the
/// target answered and the RTT is valid; a timeout means no answer; host or
/// network unreachable (EHOSTUNREACH 113, ENETUNREACH 101, WSAEHOSTUNREACH
/// 10065, WSAENETUNREACH 10051) means unreachable; anything else is a timeout.
pub fn classify_connect_error(kind: ConnectErrorKind, raw_os_error: Option<i32>, elapsed_ns: u64) -> (r: (
    TcpOutcome,
    Option<u64>,
))
    ensures
        r == spec_classify(kind, raw_os_error, elapsed_ns),
{
    match kind {
        ConnectErrorKind::ConnectionRefused => (TcpOutcome::Closed, Some(elapsed_ns)),
        ConnectErrorKind::TimedOut | ConnectErrorKind::WouldBlock => (TcpOutcome::Timeout, None),
        ConnectErrorKind::Other => match raw_os_error {
            Some(code) => if code == 113 || code == 101 || code == 10065 || code == 10051 {
                (TcpOutcome::Unreachable, None)
            } else {
                (TcpOutcome::Timeout, None)
            },
            None => (TcpOutcome::Timeout, None),
        },
    }
}

// ─── Flows ───────────────────────────────────────────────────────────────────

/// Aggregated statistics of a flow (one source port, one ECMP path).
#[derive(Debug)]
pub struct FlowStats {
    pub src_port: u16,
    pub sent: u32,
    pub reached: u32,
    /// Handshake RTTs of the probes that reached the target, in nanoseconds.
    pub rtts_ns: Vec<u64>,
    /// Outcome of the last probe (for display).
    pub outcome: TcpOutcome,
}

/// The source ports of `flows` flows: the base port, then the next ones
/// (wrapping past 65535).
pub open spec fn spec_flow_ports(flows: u16) -> Seq<u16> {
    Seq::new(flows as nat, |i: int| vstd::wrapping::u16_specs::wrapping_add(FLOW_SRC_PORT_BASE, i as u16))
}

/// Source ports of the flows to explore.
pub fn flow_ports(flows: u16) -> (r: Vec<u16>)
    ensures
        r@ == spec_flow_ports(flows),
{
    let mut r: Vec<u16> = Vec::new();
    let mut i: u16 = 0;
    while i < flows
        invariant
            i <= flows,
            r@ == spec_flow_ports(i),
        decreases flows - i,
    {
        r.push(FLOW_SRC_PORT_BASE.wrapping_add(i));
        i = i + 1;
        assert(r@ =~= spec_flow_ports(i));
    }
    r
}

/// Number of probes in `results` that reached the target, among the first `k`.
pub open spec fn reached_count(results: Seq<Option<TcpProbeResult>>, k: int) -> int
    decreases k,
{
    if k <= 0 {
        0
    } else {
        reached_count(results, k - 1) + match results[k - 1] {
            Some(r) => if r.outcome == TcpOutcome::Open || r.outcome == TcpOutcome::Closed {
                1int
            } else {
                0int
            },
            None => 0int,
        }
    }
}

/// RTTs of the first `k` probes that reached the target and carry an RTT.
pub open spec fn reached_rtts(results: Seq<Option<TcpProbeResult>>, k: int) -> Seq<u64>
    decreases k,
{
    if k <= 0 {
        Seq::empty()
    } else {
        let prev = reached_rtts(results, k - 1);
        match results[k - 1] {
            Some(r) => if (r.outcome == TcpOutcome::Open || r.outcome == TcpOutcome::Closed)
                && r.rtt is Some {
                prev.push(r.rtt.unwrap())
            } else {
                prev
            },
            None => prev,
        }
    }
}

/// Outcome of the last probe that returned a result among the first `k`
/// (timeout when none did).
pub open spec fn last_outcome(results: Seq<Option<TcpProbeResult>>, k: int) -> TcpOutcome
    decreases k,
{
    if k <= 0 {
        TcpOutcome::Timeout
    } else {
        match results[k - 1] {
            Some(r) => r.outcome,
            None => last_outcome(results, k - 1),
        }
    }
}

/// Aggregates the probes of one flow; `None` stands for a probe that failed
/// locally (socket error) and is counted as sent but not reached.
pub fn flow_stats_from_probes(src_port: u16, sent: u32, results: &Vec<Option<TcpProbeResult>>) -> (f:
    FlowStats)
    requires
        results@.len() <= u32::MAX,
    ensures
        f.src_port == src_port,
        f.sent == sent,
        f.reached == reached_count(results@, results@.len() as int),
        f.rtts_ns@ == reached_rtts(results@, results@.len() as int),
        f.outcome == last_outcome(results@, results@.len() as int),
{
    let mut reached: u32 = 0;
    let mut rtts: Vec<u64> = Vec::new();
    let mut outcome = TcpOutcome::Timeout;
    let mut i: usize = 0;
    while i < results.len()
        invariant
            i <= results@.len() <= u32::MAX,
            reached == reached_count(results@, i as int),
            reached <= i,
            rtts@ == reached_rtts(results@, i as int),
            outcome == last_outcome(results@, i as int),
        decreases results@.len() - i,
    {
        match results[i] {
            Some(r) => {
                outcome = r.outcome;
                if r.reached_target() {
                    reached = reached + 1;
                    match r.rtt {
                        Some(rtt) => rtts.push(rtt),
                        None => {},
                    }
                }
            },
            None => {},
        }
        i = i + 1;
    }
    FlowStats { src_port, sent, reached, rtts_ns: rtts, outcome }
}

/// Loss percentage numerator of a flow (over `flow_loss_den`).
pub open spec fn flow_loss_num(f: FlowStats) -> int {
    if f.sent == 0 {
        0
    } else {
        100 * (f.sent - f.reached)
    }
}

/// Loss percentage denominator of a flow.
pub open spec fn flow_loss_den(f: FlowStats) -> int {
    if f.sent == 0 {
        1
    } else {
        f.sent as int
    }
}

/// The order on RTTs.
pub open spec fn rtt_le() -> spec_fn(u64, u64) -> bool {
    |a: u64, b: u64| a <= b
}

/// Twice the median of a sorted sequence (the two middle values added for an
/// even length, twice the middle value for an odd one).
pub open spec fn median_twice_of_sorted(t: Seq<u64>) -> int {
    let mid = (t.len() / 2) as int;
    if t.len() % 2 == 0 {
        t[mid - 1] + t[mid]
    } else {
        2 * t[mid]
    }
}

/// Twice the median of `s` (non-empty).
pub open spec fn median_twice(s: Seq<u64>) -> int {
    median_twice_of_sorted(s.sort_by(rtt_le()))
}

proof fn lemma_rtt_le_total()
    ensures
        total_ordering(rtt_le()),
{
}

/// The values of `v` in increasing order.
pub fn sorted_rtts(v: &Vec<u64>) -> (r: Vec<u64>)
    ensures
        r@ == v@.sort_by(rtt_le()),
{
    let mut out: Vec<u64> = Vec::new();
    let mut i: usize = 0;
    proof {
        assert(v@.subrange(0, 0) =~= Seq::<u64>::empty());
        assert(out@ =~= Seq::<u64>::empty());
    }
    while i < v.len()
        invariant
            i <= v@.len(),
            sorted_by(out@, rtt_le()),
            out@.to_multiset() == v@.subrange(0, i as int).to_multiset(),
        decreases v@.len() - i,
    {
        let x = v[i];
        let mut pos: usize = 0;
        while pos < out.len() && out[pos] <= x
            invariant
                pos <= out@.len(),
                forall|k: int| 0 <= k < pos ==> out@[k] <= x,
            decreases out@.len() - pos,
        {
            pos = pos + 1;
        }
        proof {
            to_multiset_insert(out@, pos as int, x);
            assert(v@.subrange(0, i + 1) =~= v@.subrange(0, i as int).push(x));
            to_multiset_build(v@.subrange(0, i as int), x);
        }
        let ghost before = out@;
        out.insert(pos, x);
        assert forall|a: int, b: int| 0 <= a < b < out@.len() implies (rtt_le())(out@[a], out@[b]) by {
            if pos < before.len() {
                assert(x < before[pos as int]);
            }
            if a < pos && b > pos {
                assert(before[a] <= x);
            }
            if a == pos && b > pos {
                assert((rtt_le())(before[pos as int], before[b - 1]));
            }
            if a < pos && b == pos {
            }
            if a > pos {
                assert((rtt_le())(before[a - 1], before[b - 1]));
            }
            if b < pos {
                assert((rtt_le())(before[a], before[b]));
            }
        }
        i = i + 1;
    }
    proof {
        assert(v@.subrange(0, v@.len() as int) =~= v@);
        v@.lemma_sort_by_ensures(rtt_le());
        lemma_rtt_le_total();
        lemma_sorted_unique(out@, v@.sort_by(rtt_le()), rtt_le());
    }
    out
}

impl FlowStats {
    /// Loss percentage as an exact fraction `(numerator, denominator)`.
    pub fn loss_fraction(&self) -> (r: (i128, i128))
        ensures
            r.0 == flow_loss_num(*self),
            r.1 == flow_loss_den(*self),
            -0x1_0000_0000_00 <= r.0 <= 0x1_0000_0000_00,
            1 <= r.1 <= 0x1_0000_0000,
    {
        crate::types::loss_fraction(self.sent, self.reached)
    }

    /// Smallest RTT in nanoseconds.
    pub fn min_rtt_ns(&self) -> (r: Option<u64>)
        ensures
            self.rtts_ns@.len() == 0 ==> r is None,
            self.rtts_ns@.len() > 0 ==> r == Some(crate::types::seq_min(self.rtts_ns@) as u64),
    {
        crate::types::min_of(&self.rtts_ns)
    }

    /// Largest RTT in nanoseconds.
    pub fn max_rtt_ns(&self) -> (r: Option<u64>)
        ensures
            self.rtts_ns@.len() == 0 ==> r is None,
            self.rtts_ns@.len() > 0 ==> r == Some(crate::types::seq_max(self.rtts_ns@) as u64),
    {
        crate::types::max_of(&self.rtts_ns)
    }

    /// Twice the median RTT in nanoseconds (the median itself may end in a
    /// half nanosecond).
    pub fn median_rtt_twice_ns(&self) -> (r: Option<u128>)
        ensures
            self.rtts_ns@.len() == 0 ==> r is None,
            self.rtts_ns@.len() > 0 ==> r == Some(median_twice(self.rtts_ns@) as u128),
            self.rtts_ns@.len() > 0 ==> median_twice(self.rtts_ns@) == r.unwrap(),
    {
        if self.rtts_ns.len() == 0 {
            return None;
        }
        let v = sorted_rtts(&self.rtts_ns);
        proof {
            self.rtts_ns@.lemma_sort_by_ensures(rtt_le());
            vstd::seq_lib::to_multiset_len(v@);
            vstd::seq_lib::to_multiset_len(self.rtts_ns@);
        }
        let mid = v.len() / 2;
        if v.len() % 2 == 0 {
            Some((v[mid - 1] as u128) + (v[mid] as u128))
        } else {
            Some(2 * (v[mid] as u128))
        }
    }
}

// ─── ECMP imbalance ──────────────────────────────────────────────────────────

/// Why a flow is considered degraded.
#[derive(Debug, Clone, Copy, PartialEq, Eq, Structural)]
pub struct FlowIssue {
    /// Its loss exceeds the loss of the best flow by more than 20 points.
    pub high_loss: bool,
    /// Its median RTT exceeds the baseline by more than max(20 ms, 50%).
    pub high_rtt: bool,
}

/// Verdict on ECMP imbalance.
#[derive(Debug)]
pub struct EcmpImbalance {
    pub degraded_flows: usize,
    pub total_flows: usize,
    /// Twice the reference median RTT (lowest median among the flows that
    /// reached the target), in nanoseconds.
    pub baseline_twice_ns: Option<u128>,
    /// Each degraded flow: its source port and why.
    pub details: Vec<(u16, FlowIssue)>,
}

impl EcmpImbalance {
    /// Some flows, but not all, are degraded.
    pub fn is_imbalanced(&self) -> (r: bool)
        ensures
            r == (self.degraded_flows > 0 && self.degraded_flows < self.total_flows),
    {
        self.degraded_flows > 0 && self.degraded_flows < self.total_flows
    }
}

/// The loss of `f` exceeds the loss of `g` by more than `margin` points.
pub open spec fn loss_exceeds_by(f: FlowStats, g: FlowStats, margin: int) -> bool {
    flow_loss_num(f) * flow_loss_den(g) > flow_loss_num(g) * flow_loss_den(f) + margin
        * flow_loss_den(f) * flow_loss_den(g)
}

/// A flow usable as an RTT reference: it reached the target and has RTTs.
pub open spec fn is_reference(g: FlowStats) -> bool {
    g.reached > 0 && g.rtts_ns@.len() > 0
}

/// A median `m2` (doubled) exceeds the baseline `b2` (doubled) by more than
/// max(20 ms, 50% of the baseline).
pub open spec fn rtt_exceeds_baseline(m2: int, b2: int) -> bool {
    2 * m2 > 2 * b2 + if b2 > 80_000_000 {
        b2
    } else {
        80_000_000
    }
}

/// The loss of `f` exceeds that of the best flow by more than 20 points.
pub open spec fn has_high_loss(flows: Seq<FlowStats>, f: FlowStats) -> bool {
    exists|j: int| 0 <= j < flows.len() && loss_exceeds_by(f, #[trigger] flows[j], 20)
}

/// The median RTT of `f` exceeds the baseline (best median of a reference flow).
pub open spec fn has_high_rtt(flows: Seq<FlowStats>, f: FlowStats) -> bool {
    f.rtts_ns@.len() > 0 && exists|j: int|
        0 <= j < flows.len() && is_reference(#[trigger] flows[j]) && rtt_exceeds_baseline(
            median_twice(f.rtts_ns@),
            median_twice(flows[j].rtts_ns@),
        )
}

/// The issues of flow `f` among `flows`.
pub open spec fn issue_of(flows: Seq<FlowStats>, f: FlowStats) -> FlowIssue {
    FlowIssue { high_loss: has_high_loss(flows, f), high_rtt: has_high_rtt(flows, f) }
}

/// Details of the degraded flows among the first `k`, in order.
pub open spec fn details_upto(flows: Seq<FlowStats>, k: int) -> Seq<(u16, FlowIssue)>
    decreases k,
{
    if k <= 0 {
        Seq::empty()
    } else {
        let prev = details_upto(flows, k - 1);
        let issue = issue_of(flows, flows[k - 1]);
        if issue.high_loss || issue.high_rtt {
            prev.push((flows[k - 1].src_port, issue))
        } else {
            prev
        }
    }
}

/// Lowest doubled median among the reference flows among the first `k`.
pub open spec fn baseline_upto(flows: Seq<FlowStats>, k: int) -> Option<int>
    decreases k,
{
    if k <= 0 {
        None
    } else {
        let prev = baseline_upto(flows, k - 1);
        let f = flows[k - 1];
        if is_reference(f) {
            let m = median_twice(f.rtts_ns@);
            match prev {
                Some(p) => if m < p {
                    Some(m)
                } else {
                    Some(p)
                },
                None => Some(m),
            }
        } else {
            prev
        }
    }
}

fn loss_exceeds_by_exec(f: &FlowStats, g: &FlowStats) -> (r: bool)
    ensures
        r == loss_exceeds_by(*f, *g, 20),
{
    let (fn_, fd) = f.loss_fraction();
    let (gn, gd) = g.loss_fraction();
    assert(-0x1_0000_0000_00 * 0x1_0000_0000 <= fn_ * gd <= 0x1_0000_0000_00 * 0x1_0000_0000)
        by (nonlinear_arith)
        requires
            -0x1_0000_0000_00 <= fn_ <= 0x1_0000_0000_00,
            1 <= gd <= 0x1_0000_0000,
    ;
    assert(-0x1_0000_0000_00 * 0x1_0000_0000 <= gn * fd <= 0x1_0000_0000_00 * 0x1_0000_0000)
        by (nonlinear_arith)
        requires
            -0x1_0000_0000_00 <= gn <= 0x1_0000_0000_00,
            1 <= fd <= 0x1_0000_0000,
    ;
    assert(0 <= fd * gd <= 0x1_0000_0000 * 0x1_0000_0000) by (nonlinear_arith)
        requires
            1 <= fd <= 0x1_0000_0000,
            1 <= gd <= 0x1_0000_0000,
    ;
    assert(20 * fd * gd == 20 * (fd * gd)) by (nonlinear_arith);
    fn_ * gd > gn * fd + 20 * (fd * gd)
}

fn rtt_exceeds_baseline_exec(m2: u128, b2: u128) -> (r: bool)
    requires
        m2 <= 0x4_0000_0000_0000_0000,
        b2 <= 0x4_0000_0000_0000_0000,
    ensures
        r == rtt_exceeds_baseline(m2 as int, b2 as int),
{
    let slack: u128 = if b2 > 80_000_000 {
        b2
    } else {
        80_000_000
    };
    2 * m2 > 2 * b2 + slack
}

fn median_bound(f: &FlowStats) -> (r: Option<u128>)
    ensures
        f.rtts_ns@.len() == 0 ==> r is None,
        f.rtts_ns@.len() > 0 ==> r == Some(median_twice(f.rtts_ns@) as u128) && r.unwrap()
            <= 0x4_0000_0000_0000_0000 && median_twice(f.rtts_ns@) == r.unwrap(),
{
    let r = f.median_rtt_twice_ns();
    proof {
        if f.rtts_ns@.len() > 0 {
            let t = f.rtts_ns@.sort_by(rtt_le());
            f.rtts_ns@.lemma_sort_by_ensures(rtt_le());
            assert(t.len() == f.rtts_ns@.len()) by {
                vstd::seq_lib::to_multiset_len(t);
                vstd::seq_lib::to_multiset_len(f.rtts_ns@);
            }
        }
    }
    r
}

fn issue_of_exec(flows: &[FlowStats], f: &FlowStats) -> (r: FlowIssue)
    ensures
        r == issue_of(flows@, *f),
{
    let mut high_loss = false;
    let mut j: usize = 0;
    while j < flows.len()
        invariant
            j <= flows@.len(),
            high_loss == exists|k: int| 0 <= k < j && loss_exceeds_by(*f, #[trigger] flows@[k], 20),
        decreases flows@.len() - j,
    {
        if loss_exceeds_by_exec(f, &flows[j]) {
            high_loss = true;
        }
        j = j + 1;
    }
    let mut high_rtt = false;
    match median_bound(f) {
        None => {},
        Some(m2) => {
            let mut j: usize = 0;
            while j < flows.len()
                invariant
                    j <= flows@.len(),
                    f.rtts_ns@.len() > 0,
                    m2 == median_twice(f.rtts_ns@),
                    m2 <= 0x4_0000_0000_0000_0000,
                    high_rtt == exists|k: int|
                        0 <= k < j && is_reference(#[trigger] flows@[k]) && rtt_exceeds_baseline(
                            median_twice(f.rtts_ns@),
                            median_twice(flows@[k].rtts_ns@),
                        ),
                decreases flows@.len() - j,
            {
                if flows[j].reached > 0 {
                    match median_bound(&flows[j]) {
                        Some(b2) => {
                            if rtt_exceeds_baseline_exec(m2, b2) {
                                high_rtt = true;
                            }
                        },
                        None => {},
                    }
                }
                j = j + 1;
            }
        },
    }
    FlowIssue { high_loss, high_rtt }
}

/// Details of the degraded flows among the first `k` (machine index).
pub open spec fn details_prefix(flows: Seq<FlowStats>, k: usize) -> Seq<(u16, FlowIssue)> {
    details_upto(flows, k as int)
}

/// Details of all the degraded flows, in order.
pub open spec fn all_details(flows: Seq<FlowStats>) -> Seq<(u16, FlowIssue)> {
    details_upto(flows, flows.len() as int)
}

/// `b` is the baseline of all the flows.
pub open spec fn is_baseline(flows: Seq<FlowStats>, b: Option<u128>) -> bool {
    match baseline_upto(flows, flows.len() as int) {
        Some(m) => b == Some(m as u128),
        None => b is None,
    }
}

/// `b` is the baseline of the first `k` flows (machine values).
pub open spec fn baseline_agrees(flows: Seq<FlowStats>, k: usize, b: Option<u128>) -> bool {
    match baseline_upto(flows, k as int) {
        Some(m) => b == Some(m as u128) && 0 <= m <= 0x4_0000_0000_0000_0000,
        None => b is None,
    }
}

fn next_baseline(flows: &[FlowStats], i: usize, baseline: Option<u128>) -> (r: Option<u128>)
    requires
        i < flows@.len(),
        baseline_agrees(flows@, i, baseline),
    ensures
        baseline_agrees(flows@, (i + 1) as usize, r),
{
    let f = &flows[i];
    if f.reached > 0 {
        match median_bound(f) {
            Some(m) => match baseline {
                Some(p) => if m < p {
                    Some(m)
                } else {
                    Some(p)
                },
                None => Some(m),
            },
            None => baseline,
        }
    } else {
        baseline
    }
}

/// Detects an imbalance between ECMP paths: a flow is degraded when its loss
/// exceeds that of the best flow by more than 20 points, or when its median
/// RTT exceeds the baseline (lowest median among the flows that reached the
/// target) by more than max(20 ms, 50% of the baseline).
pub fn detect_ecmp_imbalance(flows: &[FlowStats]) -> (r: EcmpImbalance)
    ensures
        r.details@ == all_details(flows@),
        r.degraded_flows == r.details@.len(),
        r.total_flows == flows@.len(),
        is_baseline(flows@, r.baseline_twice_ns),
{
    let mut details: Vec<(u16, FlowIssue)> = Vec::new();
    let mut baseline: Option<u128> = None;
    let mut i: usize = 0;
    while i < flows.len()
        invariant
            i <= flows@.len(),
            details@ == details_prefix(flows@, i),
            details@.len() <= i,
            baseline_agrees(flows@, i, baseline),
        decreases flows@.len() - i,
    {
        let f = &flows[i];
        let issue = issue_of_exec(flows, f);
        if issue.high_loss || issue.high_rtt {
            details.push((f.src_port, issue));
        }
        baseline = next_baseline(flows, i, baseline);
        i = i + 1;
    }
    let n = details.len();
    EcmpImbalance { degraded_flows: n, total_flows: flows.len(), baseline_twice_ns: baseline, details }
}

/// The baseline, when there is one, is the median of a reference flow
/// and no reference flow has a lower median.
pub proof fn lemma_baseline_is_lowest_reference_median(flows: Seq<FlowStats>, k: int)
    requires
        0 <= k <= flows.len(),
    ensures
        match baseline_upto(flows, k) {
            Some(b) => (exists|j: int|
                0 <= j < k && is_reference(#[trigger] flows[j]) && median_twice(flows[j].rtts_ns@)
                    == b) && forall|j: int|
                0 <= j < k && is_reference(#[trigger] flows[j]) ==> b <= median_twice(
                    flows[j].rtts_ns@,
                ),
            None => forall|j: int| 0 <= j < k ==> !is_reference(#[trigger] flows[j]),
        },
    decreases k,
{
    if k > 0 {
        lemma_baseline_is_lowest_reference_median(flows, k - 1);
    }
}

/// A flow that is the best on both criteria is never degraded: when every
/// flow has the same loss and the same median RTT, no flow is flagged.
pub proof fn lemma_uniform_flows_not_degraded(flows: Seq<FlowStats>, f: FlowStats)
    requires
        forall|j: int|
            0 <= j < flows.len() ==> flow_loss_num(#[trigger] flows[j]) * flow_loss_den(f)
                == flow_loss_num(f) * flow_loss_den(flows[j]),
        forall|j: int|
            0 <= j < flows.len() && is_reference(#[trigger] flows[j]) ==> median_twice(
                flows[j].rtts_ns@,
            ) == median_twice(f.rtts_ns@),
        median_twice(f.rtts_ns@) >= 0,
    ensures
        !issue_of(flows, f).high_loss,
        !issue_of(flows, f).high_rtt,
{
    assert forall|j: int| 0 <= j < flows.len() implies !loss_exceeds_by(f, #[trigger] flows[j], 20) by {
        let a = flow_loss_num(f);
        let b = flow_loss_den(flows[j]);
        let c = flow_loss_num(flows[j]);
        let d = flow_loss_den(f);
        assert(d >= 1 && b >= 1);
        assert(20 * d * b > 0) by (nonlinear_arith)
            requires
                d >= 1,
                b >= 1,
        ;
    }
}

/// The loss of `g` is the lowest among `flows`.
pub open spec fn is_best_loss(flows: Seq<FlowStats>, g: FlowStats) -> bool {
    forall|k: int|
        0 <= k < flows.len() ==> flow_loss_num(g) * flow_loss_den(#[trigger] flows[k]) <= flow_loss_num(flows[k])
            * flow_loss_den(g)
}

/// The two criteria of an ECMP imbalance, against the best flows: a flow has
/// a high loss exactly when its loss exceeds the lowest loss by more than 20
/// points, and a high RTT exactly when it has RTTs, a baseline exists (some
/// flow reached the target with RTTs) and its median exceeds that baseline by
/// more than max(20 ms, 50% of the baseline).
pub proof fn lemma_imbalance_criteria(flows: Seq<FlowStats>, f: FlowStats, g: FlowStats)
    requires
        flows.contains(g),
        is_best_loss(flows, g),
    ensures
        has_high_loss(flows, f) <==> loss_exceeds_by(f, g, 20),
        has_high_rtt(flows, f) <==> (f.rtts_ns@.len() > 0 && match baseline_upto(flows, flows.len() as int) {
            Some(b) => rtt_exceeds_baseline(median_twice(f.rtts_ns@), b),
            None => false,
        }),
{
    let gi = choose|i: int| 0 <= i < flows.len() && flows[i] == g;
    if has_high_loss(flows, f) {
        let j = choose|j: int| 0 <= j < flows.len() && loss_exceeds_by(f, #[trigger] flows[j], 20);
        let fnum = flow_loss_num(f);
        let fden = flow_loss_den(f);
        let jnum = flow_loss_num(flows[j]);
        let jden = flow_loss_den(flows[j]);
        let gnum = flow_loss_num(g);
        let gden = flow_loss_den(g);
        assert(gnum * jden <= jnum * gden);
        assert(fnum * gden > gnum * fden + 20 * fden * gden) by (nonlinear_arith)
            requires
                fnum * jden > jnum * fden + 20 * fden * jden,
                gnum * jden <= jnum * gden,
                fden >= 1,
                jden >= 1,
                gden >= 1,
        ;
    }
    if loss_exceeds_by(f, g, 20) {
        assert(loss_exceeds_by(f, flows[gi], 20));
    }
    lemma_baseline_is_lowest_reference_median(flows, flows.len() as int);
    match baseline_upto(flows, flows.len() as int) {
        Some(b) => {
            if has_high_rtt(flows, f) {
                let j = choose|j: int|
                    0 <= j < flows.len() && is_reference(#[trigger] flows[j]) && rtt_exceeds_baseline(
                        median_twice(f.rtts_ns@),
                        median_twice(flows[j].rtts_ns@),
                    );
                assert(b <= median_twice(flows[j].rtts_ns@));
            }
            if f.rtts_ns@.len() > 0 && rtt_exceeds_baseline(median_twice(f.rtts_ns@), b) {
                let j = choose|j: int|
                    0 <= j < flows.len() && is_reference(#[trigger] flows[j]) && median_twice(flows[j].rtts_ns@)
                        == b;
                assert(is_reference(flows[j]));
            }
        },
        None => {},
    }
}

/// The issues of `f` against the best loss (that of `g`) and the baseline
/// `base` (doubled medians in nanoseconds).
pub open spec fn issue_against(f: FlowStats, g: FlowStats, base: Option<int>) -> FlowIssue {
    FlowIssue {
        high_loss: loss_exceeds_by(f, g, 20),
        high_rtt: f.rtts_ns@.len() > 0 && match base {
            Some(b) => rtt_exceeds_baseline(median_twice(f.rtts_ns@), b),
            None => false,
        },
    }
}

/// The flows among the first `k` flagged against the best loss and the
/// baseline, in order, with their issues.
pub open spec fn flagged_upto(flows: Seq<FlowStats>, g: FlowStats, base: Option<int>, k: int) -> Seq<(u16, FlowIssue)>
    decreases k,
{
    if k <= 0 {
        Seq::empty()
    } else {
        let prev = flagged_upto(flows, g, base, k - 1);
        let issue = issue_against(flows[k - 1], g, base);
        if issue.high_loss || issue.high_rtt {
            prev.push((flows[k - 1].src_port, issue))
        } else {
            prev
        }
    }
}

/// The degraded flows reported are exactly, in order, those whose loss
/// exceeds the lowest loss by more than 20 points or whose median RTT exceeds
/// the baseline (lowest median of the flows that reached the target) by more
/// than max(20 ms, 50% of the baseline).
pub proof fn lemma_flagged_flows(flows: Seq<FlowStats>, g: FlowStats)
    requires
        flows.contains(g),
        is_best_loss(flows, g),
    ensures
        all_details(flows) == flagged_upto(flows, g, baseline_upto(flows, flows.len() as int), flows.len() as int),
{
    lemma_flagged_prefix(flows, g, flows.len() as int);
}

proof fn lemma_flagged_prefix(flows: Seq<FlowStats>, g: FlowStats, k: int)
    requires
        flows.contains(g),
        is_best_loss(flows, g),
        0 <= k <= flows.len(),
    ensures
        details_upto(flows, k) == flagged_upto(flows, g, baseline_upto(flows, flows.len() as int), k),
    decreases k,
{
    if k > 0 {
        lemma_flagged_prefix(flows, g, k - 1);
        lemma_imbalance_criteria(flows, flows[k - 1], g);
    }
}

} // verus!
