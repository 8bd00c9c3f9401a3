//! Aggregation of traceroute rounds into hops.
//!
//! The prober sends, round after round, probes with TTL 1 up to the useful
//! maximum; every probe result is recorded here. The useful maximum shrinks to
//! the first TTL at which the target itself answered. At the end the counters
//! become one `Hop` per probed TTL, with the IPs seen at that TTL by
//! decreasing count.

use vstd::prelude::*;
use vstd::seq_lib::{to_multiset_build, to_multiset_insert};
use crate::types::{Hop, IpAddress};

verus! {

/// What one probe gave back.
#[derive(Debug, Clone, Copy, PartialEq, Eq, Structural)]
pub struct ProbeObservation {
    /// Router (or target) that answered.
    pub responder: Option<IpAddress>,
    /// Round-trip time in nanoseconds.
    pub rtt: Option<u64>,
    /// The answer came from the target itself.
    pub reached_target: bool,
}

/// Counters of a traceroute in progress.
#[derive(Debug)]
pub struct MtrAggregate {
    /// Highest TTL probed.
    pub max_hops: u8,
    /// Probes sent at TTL `t`, at index `t - 1`.
    pub sent: Vec<u32>,
    /// Probes answered at TTL `t`, at index `t - 1`.
    pub received: Vec<u32>,
    /// Round-trip times, as (TTL, nanoseconds), in the order they came.
    pub samples: Vec<(u8, u64)>,
    /// How often each IP answered at each TTL, as (TTL, IP, count), in the
    /// order the pairs were first seen.
    pub ip_counts: Vec<(u8, IpAddress, u32)>,
    /// Lowest TTL at which the target answered (`max_hops` until then).
    pub max_useful_ttl: u8,
}

/// Index of the entry of `(ttl, ip)` in `counts`, if any.
pub open spec fn count_index(counts: Seq<(u8, IpAddress, u32)>, ttl: u8, ip: IpAddress) -> Option<int> {
    if exists|i: int| 0 <= i < counts.len() && counts[i].0 == ttl && counts[i].1 == ip {
        Some(choose|i: int| 0 <= i < counts.len() && counts[i].0 == ttl && counts[i].1 == ip)
    } else {
        None
    }
}

/// `counts` after one more answer of `ip` at `ttl`.
pub open spec fn bump(counts: Seq<(u8, IpAddress, u32)>, ttl: u8, ip: IpAddress) -> Seq<(u8, IpAddress, u32)> {
    match count_index(counts, ttl, ip) {
        Some(i) => counts.update(i, (ttl, ip, (counts[i].2 + 1) as u32)),
        None => counts.push((ttl, ip, 1u32)),
    }
}

/// No (TTL, IP) pair occurs twice.
pub open spec fn keys_unique(counts: Seq<(u8, IpAddress, u32)>) -> bool {
    forall|i: int, j: int|
        0 <= i < j < counts.len() ==> !((#[trigger] counts[i]).0 == (#[trigger] counts[j]).0 && counts[i].1
            == counts[j].1)
}

/// The round-trip times recorded at `ttl`, in order.
pub open spec fn samples_at(samples: Seq<(u8, u64)>, ttl: u8) -> Seq<u64>
    decreases samples.len(),
{
    if samples.len() == 0 {
        Seq::empty()
    } else {
        let prev = samples_at(samples.drop_last(), ttl);
        if samples.last().0 == ttl {
            prev.push(samples.last().1)
        } else {
            prev
        }
    }
}

/// The (IP, count) pairs recorded at `ttl`, in the order first seen.
pub open spec fn ips_at(counts: Seq<(u8, IpAddress, u32)>, ttl: u8) -> Seq<(IpAddress, u32)>
    decreases counts.len(),
{
    if counts.len() == 0 {
        Seq::empty()
    } else {
        let prev = ips_at(counts.drop_last(), ttl);
        if counts.last().0 == ttl {
            prev.push((counts.last().1, counts.last().2))
        } else {
            prev
        }
    }
}

proof fn lemma_samples_at_push(s: Seq<(u8, u64)>, x: (u8, u64), t: u8)
    ensures
        samples_at(s.push(x), t) == (if x.0 == t {
            samples_at(s, t).push(x.1)
        } else {
            samples_at(s, t)
        }),
{
    assert(s.push(x).drop_last() =~= s);
}

/// `s` is ordered by decreasing count.
pub open spec fn by_decreasing_count(s: Seq<(IpAddress, u32)>) -> bool {
    forall|i: int, j: int| 0 <= i < j < s.len() ==> (#[trigger] s[i]).1 >= (#[trigger] s[j]).1
}

impl MtrAggregate {
    /// Well-formedness: one counter per TTL, and consistent counts.
    pub open spec fn wf(&self) -> bool {
        &&& self.sent@.len() == self.max_hops
        &&& self.received@.len() == self.max_hops
        &&& self.max_useful_ttl <= self.max_hops
        &&& keys_unique(self.ip_counts@)
        &&& forall|i: int| 0 <= i < self.max_hops ==> #[trigger] self.received@[i] <= self.sent@[i]
            && samples_at(self.samples@, (i + 1) as u8).len() <= self.received@[i]
        &&& forall|k: int| 0 <= k < self.samples@.len() ==> 1 <= (#[trigger] self.samples@[k]).0 <= self.max_hops
        &&& forall|k: int|
            0 <= k < self.ip_counts@.len() ==> 1 <= (#[trigger] self.ip_counts@[k]).0 <= self.max_hops
    }

    /// Nothing recorded yet, for TTLs 1 to `max_hops`.
    pub fn new(max_hops: u8) -> (a: MtrAggregate)
        ensures
            a.wf(),
            a.max_hops == max_hops,
            a.max_useful_ttl == max_hops,
            a.sent@ == Seq::new(max_hops as nat, |i: int| 0u32),
            a.received@ == Seq::new(max_hops as nat, |i: int| 0u32),
            a.samples@.len() == 0,
            a.ip_counts@.len() == 0,
    {
        let mut sent: Vec<u32> = Vec::new();
        let mut received: Vec<u32> = Vec::new();
        let mut i: u8 = 0;
        while i < max_hops
            invariant
                i <= max_hops,
                sent@ == Seq::new(i as nat, |k: int| 0u32),
                received@ == Seq::new(i as nat, |k: int| 0u32),
            decreases max_hops - i,
        {
            sent.push(0);
            received.push(0);
            i = i + 1;
            assert(sent@ =~= Seq::new(i as nat, |k: int| 0u32));
            assert(received@ =~= Seq::new(i as nat, |k: int| 0u32));
        }
        MtrAggregate {
            max_hops,
            sent,
            received,
            samples: Vec::new(),
            ip_counts: Vec::new(),
            max_useful_ttl: max_hops,
        }
    }

    /// The TTLs to probe in the next round: 1 up to the useful maximum.
    pub fn round_ttls(&self) -> (r: Vec<u8>)
        ensures
            r@ == Seq::new(self.max_useful_ttl as nat, |i: int| (i + 1) as u8),
    {
        let mut r: Vec<u8> = Vec::new();
        let mut t: u8 = 0;
        while t < self.max_useful_ttl
            invariant
                t <= self.max_useful_ttl,
                r@ == Seq::new(t as nat, |i: int| (i + 1) as u8),
            decreases self.max_useful_ttl - t,
        {
            t = t + 1;
            r.push(t);
            assert(r@ =~= Seq::new(t as nat, |i: int| (i + 1) as u8));
        }
        r
    }

    /// Records the result of one probe sent with `ttl`.
    pub fn record(&mut self, ttl: u8, obs: ProbeObservation)
        requires
            old(self).wf(),
            1 <= ttl <= old(self).max_hops,
            old(self).sent@[ttl - 1] < u32::MAX,
            obs.responder is Some ==> count_index(old(self).ip_counts@, ttl, obs.responder.unwrap()) is Some
                ==> old(self).ip_counts@[count_index(old(self).ip_counts@, ttl, obs.responder.unwrap()).unwrap()].2
                < u32::MAX,
        ensures
            final(self).wf(),
            final(self).max_hops == old(self).max_hops,
            final(self).sent@ == old(self).sent@.update(ttl - 1, (old(self).sent@[ttl - 1] + 1) as u32),
            final(self).received@ == (if obs.responder is Some {
                old(self).received@.update(ttl - 1, (old(self).received@[ttl - 1] + 1) as u32)
            } else {
                old(self).received@
            }),
            final(self).samples@ == (if obs.responder is Some && obs.rtt is Some {
                old(self).samples@.push((ttl, obs.rtt.unwrap()))
            } else {
                old(self).samples@
            }),
            final(self).ip_counts@ == (match obs.responder {
                Some(ip) => bump(old(self).ip_counts@, ttl, ip),
                None => old(self).ip_counts@,
            }),
            final(self).max_useful_ttl == (if obs.reached_target && ttl < old(self).max_useful_ttl {
                ttl
            } else {
                old(self).max_useful_ttl
            }),
    {
        let idx = (ttl - 1) as usize;
        proof {
            if obs.responder is Some && obs.rtt is Some {
                assert forall|t: u8| true implies #[trigger] samples_at(self.samples@.push((ttl, obs.rtt.unwrap())), t)
                    == (if ttl == t {
                    samples_at(self.samples@, t).push(obs.rtt.unwrap())
                } else {
                    samples_at(self.samples@, t)
                }) by {
                    lemma_samples_at_push(self.samples@, (ttl, obs.rtt.unwrap()), t);
                }
            }
        }
        let s = self.sent[idx];
        self.sent.set(idx, s + 1);
        match obs.responder {
            Some(ip) => {
                let r = self.received[idx];
                self.received.set(idx, r + 1);
                match obs.rtt {
                    Some(rtt) => self.samples.push((ttl, rtt)),
                    None => {},
                }
                self.bump_count(ttl, ip);
            },
            None => {},
        }
        if obs.reached_target && ttl < self.max_useful_ttl {
            self.max_useful_ttl = ttl;
        }
    }

    fn bump_count(&mut self, ttl: u8, ip: IpAddress)
        requires
            keys_unique(old(self).ip_counts@),
            count_index(old(self).ip_counts@, ttl, ip) is Some ==> old(self).ip_counts@[count_index(
                old(self).ip_counts@,
                ttl,
                ip,
            ).unwrap()].2 < u32::MAX,
        ensures
            final(self).ip_counts@ == bump(old(self).ip_counts@, ttl, ip),
            keys_unique(final(self).ip_counts@),
            final(self).max_hops == old(self).max_hops,
            final(self).sent@ == old(self).sent@,
            final(self).received@ == old(self).received@,
            final(self).samples@ == old(self).samples@,
            final(self).max_useful_ttl == old(self).max_useful_ttl,
    {
        let mut i: usize = 0;
        while i < self.ip_counts.len()
            invariant
                i <= self.ip_counts@.len(),
                self.ip_counts@ == old(self).ip_counts@,
                self.max_hops == old(self).max_hops,
                self.sent@ == old(self).sent@,
                self.received@ == old(self).received@,
                self.samples@ == old(self).samples@,
                self.max_useful_ttl == old(self).max_useful_ttl,
                keys_unique(old(self).ip_counts@),
                count_index(old(self).ip_counts@, ttl, ip) is Some ==> old(self).ip_counts@[count_index(
                    old(self).ip_counts@,
                    ttl,
                    ip,
                ).unwrap()].2 < u32::MAX,
                forall|k: int| 0 <= k < i ==> !(#[trigger] self.ip_counts@[k].0 == ttl && self.ip_counts@[k].1 == ip),
            decreases self.ip_counts@.len() - i,
        {
            let e = self.ip_counts[i];
            if e.0 == ttl && e.1 == ip {
                proof {
                    let c = self.ip_counts@;
                    assert(exists|k: int| 0 <= k < c.len() && c[k].0 == ttl && c[k].1 == ip);
                    let w = choose|k: int| 0 <= k < c.len() && c[k].0 == ttl && c[k].1 == ip;
                    if w != i as int {
                        if w < i {
                            assert(!(c[w].0 == ttl && c[w].1 == ip));
                        } else {
                            assert(!((c[i as int]).0 == (c[w]).0 && c[i as int].1 == c[w].1));
                        }
                    }
                    assert(count_index(c, ttl, ip) == Some(i as int));
                }
                self.ip_counts.set(i, (ttl, ip, e.2 + 1));
                return;
            }
            i = i + 1;
        }
        self.ip_counts.push((ttl, ip, 1));
    }
}

/// The round-trip times recorded at `ttl`, in order.
fn samples_for(samples: &Vec<(u8, u64)>, ttl: u8) -> (r: Vec<u64>)
    ensures
        r@ == samples_at(samples@, ttl),
{
    let mut r: Vec<u64> = Vec::new();
    let mut i: usize = 0;
    while i < samples.len()
        invariant
            i <= samples@.len(),
            r@ == samples_at(samples@.subrange(0, i as int), ttl),
        decreases samples@.len() - i,
    {
        proof {
            assert(samples@.subrange(0, i + 1).drop_last() =~= samples@.subrange(0, i as int));
        }
        if samples[i].0 == ttl {
            r.push(samples[i].1);
        }
        i = i + 1;
    }
    proof {
        assert(samples@.subrange(0, samples@.len() as int) =~= samples@);
    }
    r
}

/// The (IP, count) pairs recorded at `ttl`, by decreasing count (pairs of
/// equal count keep the order in which they were first seen).
fn ranked_ips(counts: &Vec<(u8, IpAddress, u32)>, ttl: u8) -> (r: Vec<(IpAddress, u32)>)
    ensures
        r@.to_multiset() == ips_at(counts@, ttl).to_multiset(),
        by_decreasing_count(r@),
{
    let mut r: Vec<(IpAddress, u32)> = Vec::new();
    let mut i: usize = 0;
    proof {
        assert(counts@.subrange(0, 0) =~= Seq::<(u8, IpAddress, u32)>::empty());
        assert(r@ =~= Seq::<(IpAddress, u32)>::empty());
    }
    while i < counts.len()
        invariant
            i <= counts@.len(),
            by_decreasing_count(r@),
            r@.to_multiset() == ips_at(counts@.subrange(0, i as int), ttl).to_multiset(),
        decreases counts@.len() - i,
    {
        let e = counts[i];
        proof {
            assert(counts@.subrange(0, i + 1).drop_last() =~= counts@.subrange(0, i as int));
        }
        if e.0 == ttl {
            let x = (e.1, e.2);
            let mut pos: usize = 0;
            while pos < r.len() && r[pos].1 >= x.1
                invariant
                    pos <= r@.len(),
                    forall|k: int| 0 <= k < pos ==> (#[trigger] r@[k]).1 >= x.1,
                decreases r@.len() - pos,
            {
                pos = pos + 1;
            }
            proof {
                to_multiset_insert(r@, pos as int, x);
                to_multiset_build(ips_at(counts@.subrange(0, i as int), ttl), x);
            }
            let ghost before = r@;
            r.insert(pos, x);
            assert forall|a: int, b: int| 0 <= a < b < r@.len() implies (#[trigger] r@[a]).1 >= (
            #[trigger] r@[b]).1 by {
                if pos < before.len() {
                    assert(x.1 > before[pos as int].1);
                }
                if a < pos && b > pos {
                    assert(before[a].1 >= x.1);
                    assert(r@[b] == before[b - 1]);
                }
                if a == pos && b > pos {
                    assert(r@[b] == before[b - 1]);
                    assert(before[pos as int].1 >= before[b - 1].1);
                }
                if a > pos {
                    assert(r@[a] == before[a - 1] && r@[b] == before[b - 1]);
                    assert(before[a - 1].1 >= before[b - 1].1);
                }
                if b < pos {
                    assert(before[a].1 >= before[b].1);
                }
                if a < pos && b == pos {
                    assert(before[a].1 >= x.1);
                }
            }
        }
        i = i + 1;
    }
    proof {
        assert(counts@.subrange(0, counts@.len() as int) =~= counts@);
    }
    r
}

/// The IPs of `ranked`, in order.
pub open spec fn ips_of(ranked: Seq<(IpAddress, u32)>) -> Seq<IpAddress> {
    ranked.map_values(|p: (IpAddress, u32)| p.0)
}

/// `h` is the hop of `ttl` built from the counters of `a`.
pub open spec fn is_hop_of(a: MtrAggregate, ttl: u8, h: Hop) -> bool {
    let i = ttl - 1;
    &&& h.ttl == ttl
    &&& h.sent == a.sent@[i]
    &&& h.received == a.received@[i]
    &&& h.rtt_samples@ == samples_at(a.samples@, ttl)
    &&& exists|ranked: Seq<(IpAddress, u32)>|
        #![trigger ips_of(ranked)]
        ranked.to_multiset() == ips_at(a.ip_counts@, ttl).to_multiset() && by_decreasing_count(ranked)
            && h.ips_seen@ == ips_of(ranked)
    &&& h.primary_ip == (if h.ips_seen@.len() == 0 {
        None
    } else {
        Some(h.ips_seen@[0])
    })
    &&& h.hostname is None
    &&& h.as_info is None
    &&& !h.suspected_icmp_ratelimit
}

/// The TTLs among the first `upto` at which at least one probe was sent, in
/// increasing order.
pub open spec fn probed_ttls(sent: Seq<u32>, upto: int) -> Seq<u8>
    decreases upto,
{
    if upto <= 0 {
        Seq::empty()
    } else {
        let prev = probed_ttls(sent, upto - 1);
        if sent[upto - 1] > 0 {
            prev.push(upto as u8)
        } else {
            prev
        }
    }
}

impl MtrAggregate {
    fn hop_of(&self, ttl: u8) -> (h: Hop)
        requires
            self.wf(),
            1 <= ttl <= self.max_hops,
        ensures
            is_hop_of(*self, ttl, h),
    {
        let ranked = ranked_ips(&self.ip_counts, ttl);
        let mut ips: Vec<IpAddress> = Vec::new();
        let mut k: usize = 0;
        while k < ranked.len()
            invariant
                k <= ranked@.len(),
                ips@ == ips_of(ranked@.subrange(0, k as int)),
            decreases ranked@.len() - k,
        {
            ips.push(ranked[k].0);
            k = k + 1;
            assert(ips@ =~= ips_of(ranked@.subrange(0, k as int)));
        }
        assert(ranked@.subrange(0, ranked@.len() as int) =~= ranked@);
        let primary = if ips.len() == 0 {
            None
        } else {
            Some(ips[0])
        };
        let mut h = Hop::new(ttl);
        h.sent = self.sent[(ttl - 1) as usize];
        h.received = self.received[(ttl - 1) as usize];
        h.rtt_samples = samples_for(&self.samples, ttl);
        h.ips_seen = ips;
        h.primary_ip = primary;
        h
    }

    /// The hops of the traceroute: one per TTL up to the useful maximum at
    /// which at least one probe was sent, in TTL order.
    pub fn finish(&self) -> (r: Vec<Hop>)
        requires
            self.wf(),
        ensures
            r@.len() == probed_ttls(self.sent@, self.max_useful_ttl as int).len(),
            forall|i: int|
                0 <= i < r@.len() ==> is_hop_of(
                    *self,
                    probed_ttls(self.sent@, self.max_useful_ttl as int)[i],
                    #[trigger] r@[i],
                ),
    {
        let mut r: Vec<Hop> = Vec::new();
        let mut t: u8 = 0;
        while t < self.max_useful_ttl
            invariant
                self.wf(),
                t <= self.max_useful_ttl,
                r@.len() == probed_ttls(self.sent@, t as int).len(),
                forall|i: int|
                    0 <= i < r@.len() ==> is_hop_of(*self, probed_ttls(self.sent@, t as int)[i], #[trigger] r@[i]),
            decreases self.max_useful_ttl - t,
        {
            let ghost prev = probed_ttls(self.sent@, t as int);
            t = t + 1;
            if self.sent[(t - 1) as usize] > 0 {
                let h = self.hop_of(t);
                r.push(h);
                assert forall|i: int|
                    0 <= i < r@.len() implies is_hop_of(*self, probed_ttls(self.sent@, t as int)[i], #[trigger] r@[i]) by {
                    if i < r@.len() - 1 {
                        assert(probed_ttls(self.sent@, t as int)[i] == prev[i]);
                    }
                }
            }
        }
        r
    }
}

/// The counts of a hop never contradict each other: it has no more round-trip
/// times than answered probes, and no more answered probes than probes sent
/// (one probe is counted as sent per recorded result).
pub proof fn lemma_hop_counts_ordered(a: MtrAggregate, ttl: u8, h: Hop)
    requires
        a.wf(),
        1 <= ttl <= a.max_hops,
        is_hop_of(a, ttl, h),
    ensures
        h.rtt_samples@.len() <= h.received <= h.sent,
{
    assert(a.received@[ttl - 1] <= a.sent@[ttl - 1]);
    assert(((ttl - 1) + 1) as u8 == ttl);
}

/// The hops a finished traceroute gives (those of `finish`): TTLs strictly
/// increasing, each at least 1 and no higher than the lowest TTL at which the
/// target answered (the useful maximum), with a probe sent at each; for each
/// hop, no more round-trip times than answers and no more answers than
/// probes sent, the responders listed most frequent first, and the primary IP
/// the first of them.
pub proof fn lemma_finished_hops(a: MtrAggregate, hops: Seq<Hop>)
    requires
        a.wf(),
        hops.len() == probed_ttls(a.sent@, a.max_useful_ttl as int).len(),
        forall|i: int|
            0 <= i < hops.len() ==> is_hop_of(a, probed_ttls(a.sent@, a.max_useful_ttl as int)[i], #[trigger] hops[i]),
    ensures
        forall|i: int, j: int| 0 <= i < j < hops.len() ==> (#[trigger] hops[i]).ttl < (#[trigger] hops[j]).ttl,
        forall|i: int|
            0 <= i < hops.len() ==> {
                &&& 1 <= (#[trigger] hops[i]).ttl <= a.max_useful_ttl
                &&& hops[i].sent > 0
                &&& hops[i].rtt_samples@.len() <= hops[i].received <= hops[i].sent
                &&& hops[i].primary_ip == (if hops[i].ips_seen@.len() == 0 {
                    None
                } else {
                    Some(hops[i].ips_seen@[0])
                })
                &&& exists|ranked: Seq<(IpAddress, u32)>|
                    #![trigger ips_of(ranked)]
                    ranked.to_multiset() == ips_at(a.ip_counts@, hops[i].ttl).to_multiset() && by_decreasing_count(
                        ranked,
                    ) && hops[i].ips_seen@ == ips_of(ranked)
            },
{
    let t = probed_ttls(a.sent@, a.max_useful_ttl as int);
    lemma_probed_ttls_ordered(a.sent@, a.max_useful_ttl as int);
    assert forall|i: int, j: int| 0 <= i < j < hops.len() implies (#[trigger] hops[i]).ttl < (#[trigger] hops[j]).ttl by {
        assert(is_hop_of(a, t[i], hops[i]));
        assert(is_hop_of(a, t[j], hops[j]));
    }
    assert forall|i: int| 0 <= i < hops.len() implies {
        &&& 1 <= (#[trigger] hops[i]).ttl <= a.max_useful_ttl
        &&& hops[i].sent > 0
        &&& hops[i].rtt_samples@.len() <= hops[i].received <= hops[i].sent
        &&& hops[i].primary_ip == (if hops[i].ips_seen@.len() == 0 {
            None
        } else {
            Some(hops[i].ips_seen@[0])
        })
        &&& exists|ranked: Seq<(IpAddress, u32)>|
            #![trigger ips_of(ranked)]
            ranked.to_multiset() == ips_at(a.ip_counts@, hops[i].ttl).to_multiset() && by_decreasing_count(ranked)
                && hops[i].ips_seen@ == ips_of(ranked)
    } by {
        assert(is_hop_of(a, t[i], hops[i]));
        lemma_hop_counts_ordered(a, t[i], hops[i]);
    }
}

/// Sequence number of probe `probe_idx` of round `round` (round × 1000 + index,
/// kept to its low 16 bits).
pub fn probe_sequence(round: u32, probe_idx: u32) -> (r: u16)
    requires
        round * 1000 + probe_idx <= u32::MAX,
    ensures
        r == (round * 1000 + probe_idx) % 65536,
{
    let v: u32 = round * 1000 + probe_idx;
    (v % 65536) as u16
}

/// The primary IPs of `hops`, each once, in the order of first appearance.
pub open spec fn unique_primary(hops: Seq<Hop>) -> Seq<IpAddress>
    decreases hops.len(),
{
    if hops.len() == 0 {
        Seq::empty()
    } else {
        let prev = unique_primary(hops.drop_last());
        match hops.last().primary_ip {
            Some(ip) => if prev.contains(ip) {
                prev
            } else {
                prev.push(ip)
            },
            None => prev,
        }
    }
}

/// The distinct primary IPs of the hops, in order of first appearance (the
/// IPs whose AS is looked up).
pub fn unique_primary_ips(hops: &[Hop]) -> (r: Vec<IpAddress>)
    ensures
        r@ == unique_primary(hops@),
{
    let mut r: Vec<IpAddress> = Vec::new();
    let mut i: usize = 0;
    while i < hops.len()
        invariant
            i <= hops@.len(),
            r@ == unique_primary(hops@.subrange(0, i as int)),
        decreases hops@.len() - i,
    {
        proof {
            assert(hops@.subrange(0, i + 1).drop_last() =~= hops@.subrange(0, i as int));
        }
        match hops[i].primary_ip {
            Some(ip) => {
                let mut found = false;
                let mut k: usize = 0;
                while k < r.len()
                    invariant
                        k <= r@.len(),
                        found == (exists|j: int| 0 <= j < k && r@[j] == ip),
                    decreases r@.len() - k,
                {
                    if r[k] == ip {
                        found = true;
                    }
                    k = k + 1;
                }
                if !found {
                    r.push(ip);
                }
            },
            None => {},
        }
        i = i + 1;
    }
    proof {
        assert(hops@.subrange(0, hops@.len() as int) =~= hops@);
    }
    r
}

/// The hops of a finished traceroute come in strictly increasing TTL order,
/// each at a TTL no higher than the useful maximum and at which at least one
/// probe was sent.
pub proof fn lemma_probed_ttls_ordered(sent: Seq<u32>, upto: int)
    requires
        0 <= upto <= sent.len(),
        upto <= 255,
    ensures
        forall|i: int, j: int|
            0 <= i < j < probed_ttls(sent, upto).len() ==> (#[trigger] probed_ttls(sent, upto)[i]) < (
            #[trigger] probed_ttls(sent, upto)[j]),
        forall|i: int|
            0 <= i < probed_ttls(sent, upto).len() ==> 1 <= #[trigger] probed_ttls(sent, upto)[i] <= upto
                && sent[probed_ttls(sent, upto)[i] - 1] > 0,
    decreases upto,
{
    if upto > 0 {
        lemma_probed_ttls_ordered(sent, upto - 1);
        let prev = probed_ttls(sent, upto - 1);
        let cur = probed_ttls(sent, upto);
        if sent[upto - 1] > 0 {
            assert forall|i: int| 0 <= i < cur.len() implies 1 <= #[trigger] cur[i] <= upto && sent[cur[i] - 1]
                > 0 by {
                if i < prev.len() {
                    assert(cur[i] == prev[i]);
                }
            }
            assert forall|i: int, j: int| 0 <= i < j < cur.len() implies (#[trigger] cur[i]) < (
            #[trigger] cur[j]) by {
                assert(cur[i] == prev[i]);
                if j < prev.len() {
                    assert(cur[j] == prev[j]);
                }
            }
        }
    }
}

} // verus!
