//! Data shared by the whole library: AS information, traceroute hops,
//! findings and verdicts.

use vstd::prelude::*;
use crate::text::{decimal, push_decimal, push_str, string_from_chars};

verus! {

/// An autonomous system as resolved for an IP address.
#[derive(Debug)]
pub struct AsInfo {
    pub asn: u32,
    pub name: String,
    pub country: Option<String>,
    pub prefix: Option<String>,
}

/// A copy of an optional string.
pub fn clone_opt_string(s: &Option<String>) -> (r: Option<String>)
    ensures
        r == *s,
{
    match s {
        Some(v) => Some(v.clone()),
        None => None,
    }
}

impl Clone for AsInfo {
    fn clone(&self) -> (r: Self)
        ensures
            r == *self,
    {
        AsInfo {
            asn: self.asn,
            name: self.name.clone(),
            country: clone_opt_string(&self.country),
            prefix: clone_opt_string(&self.prefix),
        }
    }
}

/// "AS{asn} ({name})".
pub open spec fn spec_as_display(asn: u32, name: Seq<char>) -> Seq<char> {
    seq!['A', 'S'] + decimal(asn as nat) + seq![' ', '('] + name + seq![')']
}

impl AsInfo {
    /// Display form "AS{asn} ({name})".
    pub fn display(&self) -> (s: String)
        ensures
            s@ == spec_as_display(self.asn, self.name@),
    {
        let mut out: Vec<char> = Vec::new();
        out.push('A');
        out.push('S');
        push_decimal(&mut out, self.asn as u64);
        out.push(' ');
        out.push('(');
        push_str(&mut out, self.name.as_str());
        out.push(')');
        assert(out@ =~= spec_as_display(self.asn, self.name@));
        string_from_chars(&out)
    }
}

/// An IP address: IPv4 as its 32-bit value, IPv6 as its 128-bit value.
#[derive(Debug, Clone, Copy, PartialEq, Eq, Structural)]
pub enum IpAddress {
    V4(u32),
    V6(u128),
}

/// One TTL of a traceroute, aggregated over all rounds.
///
/// Round-trip times are kept in nanoseconds.
#[derive(Debug)]
pub struct Hop {
    pub ttl: u8,
    pub ips_seen: Vec<IpAddress>,
    pub primary_ip: Option<IpAddress>,
    pub hostname: Option<String>,
    pub as_info: Option<AsInfo>,
    /// Round-trip times of the answered probes, in nanoseconds.
    pub rtt_samples: Vec<u64>,
    pub sent: u32,
    pub received: u32,
    pub suspected_icmp_ratelimit: bool,
}

/// Smallest value of a non-empty sequence.
pub open spec fn seq_min(s: Seq<u64>) -> int
    decreases s.len(),
{
    if s.len() <= 1 {
        s[0] as int
    } else {
        let m = seq_min(s.drop_last());
        if (s.last() as int) < m {
            s.last() as int
        } else {
            m
        }
    }
}

/// Largest value of a non-empty sequence.
pub open spec fn seq_max(s: Seq<u64>) -> int
    decreases s.len(),
{
    if s.len() <= 1 {
        s[0] as int
    } else {
        let m = seq_max(s.drop_last());
        if (s.last() as int) > m {
            s.last() as int
        } else {
            m
        }
    }
}

/// Minimum of `v`, `None` when empty.
pub fn min_of(v: &Vec<u64>) -> (r: Option<u64>)
    ensures
        v@.len() == 0 ==> r is None,
        v@.len() > 0 ==> r == Some(seq_min(v@) as u64),
        v@.len() > 0 ==> seq_min(v@) == r.unwrap(),
{
    if v.len() == 0 {
        return None;
    }
    let mut m = v[0];
    let mut i: usize = 1;
    while i < v.len()
        invariant
            1 <= i <= v@.len(),
            m == seq_min(v@.subrange(0, i as int)),
        decreases v@.len() - i,
    {
        assert(v@.subrange(0, i + 1).drop_last() =~= v@.subrange(0, i as int));
        if v[i] < m {
            m = v[i];
        }
        i = i + 1;
    }
    assert(v@.subrange(0, v@.len() as int) =~= v@);
    Some(m)
}

/// Maximum of `v`, `None` when empty.
pub fn max_of(v: &Vec<u64>) -> (r: Option<u64>)
    ensures
        v@.len() == 0 ==> r is None,
        v@.len() > 0 ==> r == Some(seq_max(v@) as u64),
        v@.len() > 0 ==> seq_max(v@) == r.unwrap(),
{
    if v.len() == 0 {
        return None;
    }
    let mut m = v[0];
    let mut i: usize = 1;
    while i < v.len()
        invariant
            1 <= i <= v@.len(),
            m == seq_max(v@.subrange(0, i as int)),
        decreases v@.len() - i,
    {
        assert(v@.subrange(0, i + 1).drop_last() =~= v@.subrange(0, i as int));
        if v[i] > m {
            m = v[i];
        }
        i = i + 1;
    }
    assert(v@.subrange(0, v@.len() as int) =~= v@);
    Some(m)
}

/// Numerator of the loss percentage of `h` (over `loss_den`): 0 when nothing
/// was sent, else 100 × (sent − received) / sent.
pub open spec fn loss_num(h: Hop) -> int {
    if h.sent == 0 {
        0
    } else {
        100 * (h.sent - h.received)
    }
}

/// Denominator of the loss percentage of `h`.
pub open spec fn loss_den(h: Hop) -> int {
    if h.sent == 0 {
        1
    } else {
        h.sent as int
    }
}

/// The loss percentage of `h` is below `pct`.
pub open spec fn loss_below(h: Hop, pct: int) -> bool {
    loss_num(h) < pct * loss_den(h)
}

/// The loss percentage of `h` is above `pct`.
pub open spec fn loss_above(h: Hop, pct: int) -> bool {
    loss_num(h) > pct * loss_den(h)
}

/// The loss percentage of `h` is at least that of `c` minus `margin` points.
pub open spec fn loss_at_least_minus(h: Hop, c: Hop, margin: int) -> bool {
    loss_num(h) * loss_den(c) >= loss_num(c) * loss_den(h) - margin * loss_den(h) * loss_den(c)
}

/// Numerator and denominator of a loss percentage, as exact integers.
pub fn loss_fraction(sent: u32, received: u32) -> (r: (i128, i128))
    ensures
        r.0 == (if sent == 0 { 0 } else { 100 * (sent - received) }),
        r.1 == (if sent == 0 { 1 } else { sent as int }),
        -0x1_0000_0000_00 <= r.0 <= 0x1_0000_0000_00,
        1 <= r.1 <= 0x1_0000_0000,
{
    if sent == 0 {
        (0, 1)
    } else {
        (100 * ((sent as i128) - (received as i128)), sent as i128)
    }
}

impl Hop {
    /// Smallest round-trip time in nanoseconds, `None` when no probe was answered.
    pub fn min_rtt_ns(&self) -> (r: Option<u64>)
        ensures
            self.rtt_samples@.len() == 0 ==> r is None,
            self.rtt_samples@.len() > 0 ==> r == Some(seq_min(self.rtt_samples@) as u64),
            self.rtt_samples@.len() > 0 ==> seq_min(self.rtt_samples@) == r.unwrap(),
    {
        min_of(&self.rtt_samples)
    }

    /// Largest round-trip time in nanoseconds, `None` when no probe was answered.
    pub fn max_rtt_ns(&self) -> (r: Option<u64>)
        ensures
            self.rtt_samples@.len() == 0 ==> r is None,
            self.rtt_samples@.len() > 0 ==> r == Some(seq_max(self.rtt_samples@) as u64),
            self.rtt_samples@.len() > 0 ==> seq_max(self.rtt_samples@) == r.unwrap(),
    {
        max_of(&self.rtt_samples)
    }

    /// Whether the loss percentage is below `pct`.
    pub fn loss_is_below(&self, pct: u32) -> (r: bool)
        ensures
            r == loss_below(*self, pct as int),
    {
        let (n, d) = loss_fraction(self.sent, self.received);
        let p = pct as i128;
        assert(0 <= p * d <= 0x1_0000_0000 * 0x1_0000_0000) by (nonlinear_arith)
            requires
                0 <= p <= 0x1_0000_0000,
                1 <= d <= 0x1_0000_0000,
        ;
        n < p * d
    }

    /// Whether the loss percentage is above 0.5.
    pub fn loss_is_above_half(&self) -> (r: bool)
        ensures
            r == (2 * loss_num(*self) > loss_den(*self)),
    {
        let (n, d) = loss_fraction(self.sent, self.received);
        2 * n > d
    }

    /// Whether the loss percentage is above `pct`.
    pub fn loss_is_above(&self, pct: u32) -> (r: bool)
        ensures
            r == loss_above(*self, pct as int),
    {
        let (n, d) = loss_fraction(self.sent, self.received);
        let p = pct as i128;
        assert(0 <= p * d <= 0x1_0000_0000 * 0x1_0000_0000) by (nonlinear_arith)
            requires
                0 <= p <= 0x1_0000_0000,
                1 <= d <= 0x1_0000_0000,
        ;
        n > p * d
    }

    /// Whether the loss percentage is at least that of `c` minus `margin` points.
    pub fn loss_is_at_least_minus(&self, c: &Hop, margin: u32) -> (r: bool)
        requires
            margin <= 100,
        ensures
            r == loss_at_least_minus(*self, *c, margin as int),
    {
        let (hn, hd) = loss_fraction(self.sent, self.received);
        let (cn, cd) = loss_fraction(c.sent, c.received);
        assert(-0x1_0000_0000_00 * 0x1_0000_0000 <= hn * cd <= 0x1_0000_0000_00 * 0x1_0000_0000)
            by (nonlinear_arith)
            requires
                -0x1_0000_0000_00 <= hn <= 0x1_0000_0000_00,
                1 <= cd <= 0x1_0000_0000,
        ;
        assert(-0x1_0000_0000_00 * 0x1_0000_0000 <= cn * hd <= 0x1_0000_0000_00 * 0x1_0000_0000)
            by (nonlinear_arith)
            requires
                -0x1_0000_0000_00 <= cn <= 0x1_0000_0000_00,
                1 <= hd <= 0x1_0000_0000,
        ;
        assert(0 <= hd * cd <= 0x1_0000_0000 * 0x1_0000_0000) by (nonlinear_arith)
            requires
                1 <= hd <= 0x1_0000_0000,
                1 <= cd <= 0x1_0000_0000,
        ;
        let m = margin as i128;
        assert(0 <= m * (hd * cd) <= 100 * (0x1_0000_0000 * 0x1_0000_0000)) by (nonlinear_arith)
            requires
                0 <= m <= 100,
                0 <= hd * cd <= 0x1_0000_0000 * 0x1_0000_0000,
        ;
        assert(m * hd * cd == m * (hd * cd)) by (nonlinear_arith);
        hn * cd >= cn * hd - m * (hd * cd)
    }

    /// An empty hop for `ttl`.
    pub fn new(ttl: u8) -> (h: Hop)
        ensures
            h.ttl == ttl,
            h.ips_seen@.len() == 0,
            h.primary_ip is None,
            h.hostname is None,
            h.as_info is None,
            h.rtt_samples@.len() == 0,
            h.sent == 0,
            h.received == 0,
            !h.suspected_icmp_ratelimit,
    {
        Hop {
            ttl,
            ips_seen: Vec::new(),
            primary_ip: None,
            hostname: None,
            as_info: None,
            rtt_samples: Vec::new(),
            sent: 0,
            received: 0,
            suspected_icmp_ratelimit: false,
        }
    }
}

/// Severity of a finding.
#[derive(Debug, Clone, Copy, PartialEq, Eq, Structural)]
pub enum Severity {
    Info,
    Warning,
    Critical,
}

/// Category of a finding.
#[derive(Debug, Clone, Copy, PartialEq, Eq, Structural)]
pub enum FindingCategory {
    /// Real packet loss.
    PacketLoss,
    /// High latency or latency jump.
    HighLatency,
    /// High jitter (congestion).
    Jitter,
    /// Bufferbloat (full queues).
    Bufferbloat,
    /// Sub-optimal path (detour, too many hops).
    RoutingAnomaly,
    /// Interconnection problem between two AS (peering).
    PeeringCongestion,
    /// Local problem (home network, ISP entry point).
    LocalIssue,
    /// ICMP rate-limiting (informative, not a real problem).
    IcmpRateLimit,
    /// Normal physical latency (transatlantic, …).
    PhysicalLatency,
}

/// Global status of a diagnosis.
#[derive(Debug, Clone, Copy, PartialEq, Eq, Structural)]
pub enum VerdictStatus {
    /// No problem found.
    Healthy,
    /// Minor anomalies, monitoring advised.
    Degraded,
    /// Serious problem confirmed.
    Faulty,
}

/// A diagnostic observation with a suggested action.
#[derive(Debug)]
pub struct Finding {
    pub severity: Severity,
    pub category: FindingCategory,
    /// Short description of the problem.
    pub description: String,
    /// Figures that support it.
    pub evidence: String,
    /// Suggested action to fix or confirm it.
    pub action: Option<String>,
}

/// Global verdict of a diagnosis.
#[derive(Debug)]
pub struct Verdict {
    pub status: VerdictStatus,
    /// Conclusion in natural language.
    pub summary: String,
}

} // verus!
