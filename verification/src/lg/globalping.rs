//! Globalping probes, used for the return traceroutes, and the merge of
//! several traceroute rounds into one set of hops keyed by TTL.

use vstd::prelude::*;
use std::collections::BTreeMap;
use crate::types::IpAddress;

verus! {

/// The Globalping probe that ran a measurement.
#[derive(Debug)]
pub struct ProbeInfo {
    pub country: String,
    pub city: String,
    pub network: String,
    pub asn: u32,
}

/// One hop of one traceroute round: the resolved name and address, if the
/// probe gave them, and the timing samples of that hop (`T` is the sample
/// type chosen by the caller).
#[derive(Debug)]
pub struct RawHop<T> {
    pub host: Option<String>,
    pub ip: Option<IpAddress>,
    pub timings: Vec<T>,
}

impl<T> View for RawHop<T> {
    type V = (Option<String>, Option<IpAddress>, Seq<T>);

    open spec fn view(&self) -> Self::V {
        (self.host, self.ip, self.timings@)
    }
}

/// The TTL of the hop at position `i` of a round: `i + 1`, kept in a byte.
pub open spec fn round_ttl(i: int) -> u8 {
    ((i + 1) % 256) as u8
}

/// What a TTL holds after `hop` is merged into what it held before: the
/// first known name and address stay, the timings are appended.
pub open spec fn absorbed_hop<T>(
    prev: Option<(Option<String>, Option<IpAddress>, Seq<T>)>,
    hop: (Option<String>, Option<IpAddress>, Seq<T>),
) -> (Option<String>, Option<IpAddress>, Seq<T>) {
    match prev {
        None => hop,
        Some(e) => (
            if e.0 is None { hop.0 } else { e.0 },
            if e.1 is None { hop.1 } else { e.1 },
            e.2 + hop.2,
        ),
    }
}

/// The hops keyed by TTL, each taken by its view.
pub open spec fn hop_views<T>(m: Map<u8, RawHop<T>>) -> Map<u8, (Option<String>, Option<IpAddress>, Seq<T>)> {
    m.map_values(|h: RawHop<T>| h@)
}

/// The views of the hops of a round, in order.
pub open spec fn round_views<T>(hops: Seq<RawHop<T>>) -> Seq<(Option<String>, Option<IpAddress>, Seq<T>)> {
    hops.map_values(|h: RawHop<T>| h@)
}

/// `m` after the hops of `round` are merged into it, one after the other,
/// the hop at position `i` going to TTL `round_ttl(i)`.
pub open spec fn merged_round<T>(
    m: Map<u8, (Option<String>, Option<IpAddress>, Seq<T>)>,
    round: Seq<(Option<String>, Option<IpAddress>, Seq<T>)>,
) -> Map<u8, (Option<String>, Option<IpAddress>, Seq<T>)>
    decreases round.len(),
{
    if round.len() == 0 {
        m
    } else {
        let before = merged_round(m, round.drop_last());
        let k = round_ttl(round.len() - 1);
        let prev = if before.contains_key(k) { Some(before[k]) } else { None };
        before.insert(k, absorbed_hop(prev, round.last()))
    }
}

/// What `m` holds at `k`, if anything.
pub open spec fn held_at<T>(
    m: Map<u8, (Option<String>, Option<IpAddress>, Seq<T>)>,
    k: u8,
) -> Option<(Option<String>, Option<IpAddress>, Seq<T>)> {
    if m.contains_key(k) { Some(m[k]) } else { None }
}

/// A round of fewer than 256 hops lands hop by hop on TTLs 1, 2, …: TTL
/// `i + 1` holds what it held before with the hop at position `i` merged
/// in, and every other TTL is left as it was.
pub proof fn lemma_round_lands_by_ttl<T>(
    m: Map<u8, (Option<String>, Option<IpAddress>, Seq<T>)>,
    round: Seq<(Option<String>, Option<IpAddress>, Seq<T>)>,
)
    requires
        round.len() < 256,
    ensures
        forall|i: int|
            0 <= i < round.len() ==> #[trigger] held_at(merged_round(m, round), (i + 1) as u8)
                == Some(absorbed_hop(held_at(m, (i + 1) as u8), round[i])),
        forall|k: u8|
            (k == 0 || k > round.len()) ==> #[trigger] held_at(merged_round(m, round), k) == held_at(m, k),
    decreases round.len(),
{
    if round.len() > 0 {
        let rest = round.drop_last();
        lemma_round_lands_by_ttl(m, rest);
        let n = round.len() as int;
        let before = merged_round(m, rest);
        let key = round_ttl(n - 1);
        assert(key == n as u8);
        assert(merged_round(m, round) == before.insert(key, absorbed_hop(held_at(before, key), round.last())));
        assert(held_at(before, key) == held_at(m, key));
        assert forall|i: int| 0 <= i < round.len() implies #[trigger] held_at(merged_round(m, round), (i + 1) as u8)
            == Some(absorbed_hop(held_at(m, (i + 1) as u8), round[i])) by {
            if i < n - 1 {
                assert(held_at(before, (i + 1) as u8) == Some(absorbed_hop(held_at(m, (i + 1) as u8), rest[i])));
                assert(rest[i] == round[i]);
                assert((i + 1) as u8 != key);
            } else {
                assert((i + 1) as u8 == key);
            }
        }
        assert forall|k: u8| (k == 0 || k > round.len()) implies #[trigger] held_at(merged_round(m, round), k) == held_at(m, k) by {
            assert(k != key);
            assert(held_at(before, k) == held_at(m, k));
        }
    }
}

fn absorb_hop<T>(prev: Option<RawHop<T>>, hop: RawHop<T>) -> (r: RawHop<T>)
    ensures
        r@ == absorbed_hop(
            match prev {
                Some(e) => Some(e@),
                None => None,
            },
            hop@,
        ),
{
    match prev {
        None => hop,
        Some(e) => {
            let RawHop { host, ip, timings } = hop;
            let RawHop { host: e_host, ip: e_ip, timings: e_timings } = e;
            let new_host = if e_host.is_none() { host } else { e_host };
            let new_ip = if e_ip.is_none() { ip } else { e_ip };
            let mut all = e_timings;
            let mut more = timings;
            all.append(&mut more);
            RawHop { host: new_host, ip: new_ip, timings: all }
        },
    }
}

/// Merges one traceroute round into the hops gathered so far: the hop at
/// position `i` goes to TTL `i + 1` (kept in a byte), keeps the name and
/// address already known there, else takes its own, and appends its timings.
pub fn merge_raw_hops<T>(per_ttl: &mut BTreeMap<u8, RawHop<T>>, hops: Vec<RawHop<T>>)
    ensures
        hop_views(final(per_ttl)@) == merged_round(hop_views(old(per_ttl)@), round_views(hops@)),
{
    let ghost start = hop_views(per_ttl@);
    let ghost all = hops@;
    let mut ttl: u8 = 1;
    for h in it: hops.into_iter()
        invariant
            it.seq() == all,
            ttl == round_ttl(it.index()),
            hop_views(per_ttl@) == merged_round(start, round_views(all.take(it.index()))),
    {
        let ghost i = it.index();
        let prev = per_ttl.remove(&ttl);
        let merged = absorb_hop(prev, h);
        proof {
            let r = round_views(all.take(i + 1));
            assert(r.drop_last() =~= round_views(all.take(i)));
            assert(r.last() == h@);
        }
        per_ttl.insert(ttl, merged);
        proof {
            let before = merged_round(start, round_views(all.take(i)));
            assert(hop_views(per_ttl@) =~= before.insert(ttl, merged@));
        }
        ttl = if ttl == 255 { 0 } else { ttl + 1 };
        assert(ttl == round_ttl(i + 1)) by (nonlinear_arith)
            requires
                ttl == (if round_ttl(i) == 255 { 0 } else { round_ttl(i) + 1 }),
                i >= 0;
    }
    proof {
        assert(all.take(all.len() as int) =~= all);
    }
}

} // verus!
