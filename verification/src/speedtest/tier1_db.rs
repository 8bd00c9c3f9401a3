//! Static base of measurement endpoints for the Tier-1 and backbone ASes.
//!
//! Transit carriers (TATA, Cogent, Arelion, Lumen, Zayo, NTT...) never show
//! up in the local results of the Ookla CLI, since they are backbones and not
//! consumer ISPs: this base keeps known servers for them (Speedtest.net IDs,
//! public iperf3 servers, public HTTP test files).

use vstd::prelude::*;
use std::collections::HashMap;
use crate::text::{all_digits, digits_value, is_digit, parse_unsigned_spec};

verus! {

/// Kind of measurement server.
#[derive(Debug, Clone, Copy, PartialEq, Eq, Structural)]
pub enum MeasureMethod {
    /// Speedtest.net server in the exact AS.
    SpeedtestDirect,
    /// Speedtest.net server of this AS known from the static base.
    SpeedtestTier1Db,
    /// Public iperf3 server close by.
    Iperf3,
    /// HTTP download from a public test endpoint.
    HttpDownload,
    /// Speedtest.net server close by (not in the exact AS).
    SpeedtestGeo,
    /// Local proxy: approximate measure, AS not covered.
    Proxy,
}

/// Short label of a method.
pub open spec fn method_label(m: MeasureMethod) -> &'static str {
    match m {
        MeasureMethod::SpeedtestDirect => "direct",
        MeasureMethod::SpeedtestTier1Db => "tier1-db",
        MeasureMethod::Iperf3 => "iperf3",
        MeasureMethod::HttpDownload => "http",
        MeasureMethod::SpeedtestGeo => "géo",
        MeasureMethod::Proxy => "proxy",
    }
}

/// Reliability rank of a method: the lower, the more reliable.
pub open spec fn method_rank(m: MeasureMethod) -> int {
    match m {
        MeasureMethod::SpeedtestDirect => 1,
        MeasureMethod::SpeedtestTier1Db => 2,
        MeasureMethod::Iperf3 => 3,
        MeasureMethod::HttpDownload => 4,
        MeasureMethod::SpeedtestGeo => 5,
        MeasureMethod::Proxy => 6,
    }
}

impl MeasureMethod {
    pub fn label(&self) -> (r: &'static str)
        ensures
            r == method_label(*self),
    {
        match self {
            MeasureMethod::SpeedtestDirect => "direct",
            MeasureMethod::SpeedtestTier1Db => "tier1-db",
            MeasureMethod::Iperf3 => "iperf3",
            MeasureMethod::HttpDownload => "http",
            MeasureMethod::SpeedtestGeo => "géo",
            MeasureMethod::Proxy => "proxy",
        }
    }

    /// The lower the value, the more reliable the method.
    pub fn reliability_rank(&self) -> (r: u8)
        ensures
            r == method_rank(*self),
    {
        match self {
            MeasureMethod::SpeedtestDirect => 1,
            MeasureMethod::SpeedtestTier1Db => 2,
            MeasureMethod::Iperf3 => 3,
            MeasureMethod::HttpDownload => 4,
            MeasureMethod::SpeedtestGeo => 5,
            MeasureMethod::Proxy => 6,
        }
    }
}

/// A measurement endpoint known for an AS.
#[derive(Debug, Clone, Copy)]
pub struct KnownEndpoint {
    pub asn: u32,
    pub as_name: &'static str,
    pub method: MeasureMethod,
    pub location: &'static str,
    /// Speedtest.net server ID, "host:port" of an iperf3 server, or URL of a
    /// test file, depending on the method.
    pub endpoint: &'static str,
    pub description: &'static str,
}

/// The whole base, in its order.
pub open spec fn known_endpoints() -> Seq<KnownEndpoint> {
    seq![
        KnownEndpoint {
            asn: 6453,
            as_name: "TATA COMMUNICATIONS",
            method: MeasureMethod::Iperf3,
            location: "New York, US",
            endpoint: "iperf.he.net:5201",
            description: "Hurricane Electric NYC (adjacent TATA)",
        },
        KnownEndpoint {
            asn: 6453,
            as_name: "TATA COMMUNICATIONS",
            method: MeasureMethod::HttpDownload,
            location: "New Jersey, US",
            endpoint: "http://speedtest.reliablesite.net/100MB.test",
            description: "Fichier test 100MB US (secours TATA)",
        },
        KnownEndpoint {
            asn: 174,
            as_name: "COGENT-174",
            method: MeasureMethod::SpeedtestTier1Db,
            location: "Paris, FR",
            endpoint: "51308",
            description: "Cogent Paris Speedtest",
        },
        KnownEndpoint {
            asn: 174,
            as_name: "COGENT-174",
            method: MeasureMethod::Iperf3,
            location: "Paris, FR",
            endpoint: "iperf.par.fr.as5410.net:9200",
            description: "iperf3 Paris (via Bouygues/Cogent)",
        },
        KnownEndpoint {
            asn: 1299,
            as_name: "ARELION-AS",
            method: MeasureMethod::SpeedtestTier1Db,
            location: "Frankfurt, DE",
            endpoint: "14236",
            description: "Arelion Frankfurt Speedtest",
        },
        KnownEndpoint {
            asn: 1299,
            as_name: "ARELION-AS",
            method: MeasureMethod::Iperf3,
            location: "Stockholm, SE",
            endpoint: "speedtest.telia.net:5201",
            description: "Telia/Arelion iperf3 Stockholm",
        },
        KnownEndpoint {
            asn: 3356,
            as_name: "LEVEL3",
            method: MeasureMethod::Iperf3,
            location: "Dallas, US",
            endpoint: "iperf.he.net:5201",
            description: "iperf3 US (adjacent Lumen)",
        },
        KnownEndpoint {
            asn: 2914,
            as_name: "NTT-LTD-2914",
            method: MeasureMethod::Iperf3,
            location: "Frankfurt, DE",
            endpoint: "iperf.fra.de.as5410.net:9200",
            description: "iperf3 Frankfurt (adjacent NTT)",
        },
        KnownEndpoint {
            asn: 6461,
            as_name: "ZAYO-6461",
            method: MeasureMethod::HttpDownload,
            location: "Denver, US",
            endpoint: "http://speedtest.reliablesite.net/100MB.test",
            description: "Fichier test 100MB US",
        },
        KnownEndpoint {
            asn: 6939,
            as_name: "HURRICANE",
            method: MeasureMethod::Iperf3,
            location: "Fremont, US",
            endpoint: "iperf.he.net:5201",
            description: "Hurricane Electric iperf3 officiel",
        },
        KnownEndpoint {
            asn: 6939,
            as_name: "HURRICANE",
            method: MeasureMethod::Iperf3,
            location: "New York, US",
            endpoint: "iperf.nyc.he.net:5201",
            description: "Hurricane Electric NYC iperf3",
        },
        KnownEndpoint {
            asn: 6939,
            as_name: "HURRICANE",
            method: MeasureMethod::Iperf3,
            location: "Paris, FR",
            endpoint: "iperf.par.he.net:5201",
            description: "Hurricane Electric Paris iperf3",
        },
        KnownEndpoint {
            asn: 5511,
            as_name: "ORANGE-AS",
            method: MeasureMethod::SpeedtestTier1Db,
            location: "Paris, FR",
            endpoint: "10916",
            description: "Orange France Paris Speedtest",
        },
        KnownEndpoint {
            asn: 5410,
            as_name: "Bouygues Telecom",
            method: MeasureMethod::Iperf3,
            location: "Paris, FR",
            endpoint: "iperf.par.fr.as5410.net:9200",
            description: "Bouygues Telecom iperf3 officiel Paris",
        },
        KnownEndpoint {
            asn: 5410,
            as_name: "Bouygues Telecom",
            method: MeasureMethod::Iperf3,
            location: "Lyon, FR",
            endpoint: "iperf.lyo.fr.as5410.net:9200",
            description: "Bouygues Telecom iperf3 officiel Lyon",
        },
        KnownEndpoint {
            asn: 15557,
            as_name: "LDCOMNET",
            method: MeasureMethod::Iperf3,
            location: "Paris, FR",
            endpoint: "iperf.par.fr.as15557.net:9200",
            description: "SFR iperf3 Paris",
        },
        KnownEndpoint {
            asn: 12322,
            as_name: "PROXAD",
            method: MeasureMethod::Iperf3,
            location: "Paris, FR",
            endpoint: "iperf.par.fr.as12322.net:9200",
            description: "Free iperf3 Paris",
        },
        KnownEndpoint {
            asn: 24940,
            as_name: "HETZNER-AS",
            method: MeasureMethod::HttpDownload,
            location: "Nuremberg, DE",
            endpoint: "http://speed.hetzner.de/100MB.bin",
            description: "Hetzner fichier test officiel 100MB",
        },
        KnownEndpoint {
            asn: 24940,
            as_name: "HETZNER-AS",
            method: MeasureMethod::HttpDownload,
            location: "Helsinki, FI",
            endpoint: "http://hel.speed.hetzner.com/100MB.bin",
            description: "Hetzner Helsinki fichier test 100MB",
        },
        KnownEndpoint {
            asn: 16276,
            as_name: "OVH",
            method: MeasureMethod::HttpDownload,
            location: "Paris, FR",
            endpoint: "http://proof.ovh.net/files/100Mb.dat",
            description: "OVH fichier test officiel 100MB",
        },
        KnownEndpoint {
            asn: 19318,
            as_name: "Interserver, Inc",
            method: MeasureMethod::Iperf3,
            location: "New Jersey, US",
            endpoint: "iperf.nyc.he.net:5201",
            description: "iperf3 NYC (adjacent Interserver NJ)",
        },
    ]
}

/// The static base of known endpoints.
///
/// The Hurricane Electric iperf3 servers serve one client at a time and
/// answer "the server is busy" when taken: the cascade then moves on to the
/// next method.
pub fn get_known_endpoints() -> (v: Vec<KnownEndpoint>)
    ensures
        v@ == known_endpoints(),
{
    let mut v: Vec<KnownEndpoint> = Vec::new();
    v.push(
        KnownEndpoint {
            asn: 6453,
            as_name: "TATA COMMUNICATIONS",
            method: MeasureMethod::Iperf3,
            location: "New York, US",
            endpoint: "iperf.he.net:5201",
            description: "Hurricane Electric NYC (adjacent TATA)",
        },
    );
    v.push(
        KnownEndpoint {
            asn: 6453,
            as_name: "TATA COMMUNICATIONS",
            method: MeasureMethod::HttpDownload,
            location: "New Jersey, US",
            endpoint: "http://speedtest.reliablesite.net/100MB.test",
            description: "Fichier test 100MB US (secours TATA)",
        },
    );
    v.push(
        KnownEndpoint {
            asn: 174,
            as_name: "COGENT-174",
            method: MeasureMethod::SpeedtestTier1Db,
            location: "Paris, FR",
            endpoint: "51308",
            description: "Cogent Paris Speedtest",
        },
    );
    v.push(
        KnownEndpoint {
            asn: 174,
            as_name: "COGENT-174",
            method: MeasureMethod::Iperf3,
            location: "Paris, FR",
            endpoint: "iperf.par.fr.as5410.net:9200",
            description: "iperf3 Paris (via Bouygues/Cogent)",
        },
    );
    v.push(
        KnownEndpoint {
            asn: 1299,
            as_name: "ARELION-AS",
            method: MeasureMethod::SpeedtestTier1Db,
            location: "Frankfurt, DE",
            endpoint: "14236",
            description: "Arelion Frankfurt Speedtest",
        },
    );
    v.push(
        KnownEndpoint {
            asn: 1299,
            as_name: "ARELION-AS",
            method: MeasureMethod::Iperf3,
            location: "Stockholm, SE",
            endpoint: "speedtest.telia.net:5201",
            description: "Telia/Arelion iperf3 Stockholm",
        },
    );
    v.push(
        KnownEndpoint {
            asn: 3356,
            as_name: "LEVEL3",
            method: MeasureMethod::Iperf3,
            location: "Dallas, US",
            endpoint: "iperf.he.net:5201",
            description: "iperf3 US (adjacent Lumen)",
        },
    );
    v.push(
        KnownEndpoint {
            asn: 2914,
            as_name: "NTT-LTD-2914",
            method: MeasureMethod::Iperf3,
            location: "Frankfurt, DE",
            endpoint: "iperf.fra.de.as5410.net:9200",
            description: "iperf3 Frankfurt (adjacent NTT)",
        },
    );
    v.push(
        KnownEndpoint {
            asn: 6461,
            as_name: "ZAYO-6461",
            method: MeasureMethod::HttpDownload,
            location: "Denver, US",
            endpoint: "http://speedtest.reliablesite.net/100MB.test",
            description: "Fichier test 100MB US",
        },
    );
    v.push(
        KnownEndpoint {
            asn: 6939,
            as_name: "HURRICANE",
            method: MeasureMethod::Iperf3,
            location: "Fremont, US",
            endpoint: "iperf.he.net:5201",
            description: "Hurricane Electric iperf3 officiel",
        },
    );
    v.push(
        KnownEndpoint {
            asn: 6939,
            as_name: "HURRICANE",
            method: MeasureMethod::Iperf3,
            location: "New York, US",
            endpoint: "iperf.nyc.he.net:5201",
            description: "Hurricane Electric NYC iperf3",
        },
    );
    v.push(
        KnownEndpoint {
            asn: 6939,
            as_name: "HURRICANE",
            method: MeasureMethod::Iperf3,
            location: "Paris, FR",
            endpoint: "iperf.par.he.net:5201",
            description: "Hurricane Electric Paris iperf3",
        },
    );
    v.push(
        KnownEndpoint {
            asn: 5511,
            as_name: "ORANGE-AS",
            method: MeasureMethod::SpeedtestTier1Db,
            location: "Paris, FR",
            endpoint: "10916",
            description: "Orange France Paris Speedtest",
        },
    );
    v.push(
        KnownEndpoint {
            asn: 5410,
            as_name: "Bouygues Telecom",
            method: MeasureMethod::Iperf3,
            location: "Paris, FR",
            endpoint: "iperf.par.fr.as5410.net:9200",
            description: "Bouygues Telecom iperf3 officiel Paris",
        },
    );
    v.push(
        KnownEndpoint {
            asn: 5410,
            as_name: "Bouygues Telecom",
            method: MeasureMethod::Iperf3,
            location: "Lyon, FR",
            endpoint: "iperf.lyo.fr.as5410.net:9200",
            description: "Bouygues Telecom iperf3 officiel Lyon",
        },
    );
    v.push(
        KnownEndpoint {
            asn: 15557,
            as_name: "LDCOMNET",
            method: MeasureMethod::Iperf3,
            location: "Paris, FR",
            endpoint: "iperf.par.fr.as15557.net:9200",
            description: "SFR iperf3 Paris",
        },
    );
    v.push(
        KnownEndpoint {
            asn: 12322,
            as_name: "PROXAD",
            method: MeasureMethod::Iperf3,
            location: "Paris, FR",
            endpoint: "iperf.par.fr.as12322.net:9200",
            description: "Free iperf3 Paris",
        },
    );
    v.push(
        KnownEndpoint {
            asn: 24940,
            as_name: "HETZNER-AS",
            method: MeasureMethod::HttpDownload,
            location: "Nuremberg, DE",
            endpoint: "http://speed.hetzner.de/100MB.bin",
            description: "Hetzner fichier test officiel 100MB",
        },
    );
    v.push(
        KnownEndpoint {
            asn: 24940,
            as_name: "HETZNER-AS",
            method: MeasureMethod::HttpDownload,
            location: "Helsinki, FI",
            endpoint: "http://hel.speed.hetzner.com/100MB.bin",
            description: "Hetzner Helsinki fichier test 100MB",
        },
    );
    v.push(
        KnownEndpoint {
            asn: 16276,
            as_name: "OVH",
            method: MeasureMethod::HttpDownload,
            location: "Paris, FR",
            endpoint: "http://proof.ovh.net/files/100Mb.dat",
            description: "OVH fichier test officiel 100MB",
        },
    );
    v.push(
        KnownEndpoint {
            asn: 19318,
            as_name: "Interserver, Inc",
            method: MeasureMethod::Iperf3,
            location: "New Jersey, US",
            endpoint: "iperf.nyc.he.net:5201",
            description: "iperf3 NYC (adjacent Interserver NJ)",
        },
    );
    proof {
        assert(v@ =~= known_endpoints());
    }
    v
}

/// `e` belongs to the ASN `asn` and its method has rank `k`.
pub open spec fn of_asn_with_rank(asn: u32, k: int) -> spec_fn(KnownEndpoint) -> bool {
    |e: KnownEndpoint| e.asn == asn && method_rank(e.method) == k
}

/// `e` belongs to the ASN `asn`.
pub open spec fn of_asn(asn: u32) -> spec_fn(KnownEndpoint) -> bool {
    |e: KnownEndpoint| e.asn == asn
}

/// The endpoints of `asn` in `s` whose rank is at most `k`, grouped by rank
/// in increasing order, each group in the order of `s`.
pub open spec fn ranked_upto(s: Seq<KnownEndpoint>, asn: u32, k: int) -> Seq<KnownEndpoint>
    decreases k,
{
    if k <= 0 {
        Seq::empty()
    } else {
        ranked_upto(s, asn, k - 1) + s.filter(of_asn_with_rank(asn, k))
    }
}

/// The endpoints of `asn`, sorted by reliability (a stable sort: endpoints
/// of the same rank keep the order of the base).
pub open spec fn endpoints_for(asn: u32) -> Seq<KnownEndpoint> {
    ranked_upto(known_endpoints(), asn, 6)
}

fn push_rank(v: &Vec<KnownEndpoint>, asn: u32, k: u8, out: &mut Vec<KnownEndpoint>)
    requires
        1 <= k <= 6,
    ensures
        final(out)@ == old(out)@ + v@.filter(of_asn_with_rank(asn, k as int)),
{
    let ghost start = old(out)@;
    let mut i: usize = 0;
    proof {
        reveal(Seq::filter);
        assert(v@.subrange(0, 0).filter(of_asn_with_rank(asn, k as int)) =~= Seq::<KnownEndpoint>::empty());
        assert(out@ =~= start + v@.subrange(0, 0).filter(of_asn_with_rank(asn, k as int)));
    }
    while i < v.len()
        invariant
            1 <= k <= 6,
            i <= v@.len(),
            out@ == start + v@.subrange(0, i as int).filter(of_asn_with_rank(asn, k as int)),
        decreases v@.len() - i,
    {
        proof {
            assert(v@.subrange(0, i + 1).drop_last() =~= v@.subrange(0, i as int));
            reveal(Seq::filter);
        }
        let e = v[i];
        if e.asn == asn && e.method.reliability_rank() == k {
            out.push(e);
            proof {
                assert(out@ =~= start + v@.subrange(0, i + 1).filter(of_asn_with_rank(asn, k as int)));
            }
        }
        i = i + 1;
    }
    proof {
        assert(v@.subrange(0, v@.len() as int) =~= v@);
    }
}

/// The known endpoints of an ASN, sorted by reliability.
pub fn get_endpoints_for_asn(asn: u32) -> (r: Vec<KnownEndpoint>)
    ensures
        r@ == endpoints_for(asn),
{
    let all = get_known_endpoints();
    let mut r: Vec<KnownEndpoint> = Vec::new();
    let mut k: u8 = 1;
    while k <= 6
        invariant
            1 <= k <= 7,
            all@ == known_endpoints(),
            r@ == ranked_upto(all@, asn, k - 1),
        decreases 7 - k,
    {
        push_rank(&all, asn, k, &mut r);
        k = k + 1;
    }
    r
}

/// An index ASN → endpoints (sorted by reliability), for batches of lookups.
pub fn get_endpoints_index() -> (m: HashMap<u32, Vec<KnownEndpoint>>)
    ensures
        forall|asn: u32| #[trigger] m@.contains_key(asn) <==> known_endpoints().filter(of_asn(asn)).len() > 0,
        forall|asn: u32| #[trigger] m@.contains_key(asn) ==> m@[asn]@ == endpoints_for(asn),
{
    broadcast use vstd::std_specs::hash::group_hash_axioms;
    let all = get_known_endpoints();
    let mut m: HashMap<u32, Vec<KnownEndpoint>> = HashMap::new();
    let mut i: usize = 0;
    while i < all.len()
        invariant
            i <= all@.len(),
            all@ == known_endpoints(),
            forall|asn: u32| #[trigger] m@.contains_key(asn) <==> all@.subrange(0, i as int).filter(of_asn(asn)).len() > 0,
            forall|asn: u32| #[trigger] m@.contains_key(asn) ==> m@[asn]@ == endpoints_for(asn),
        decreases all@.len() - i,
    {
        let asn = all[i].asn;
        proof {
            reveal(Seq::filter);
            assert(all@.subrange(0, i + 1).drop_last() =~= all@.subrange(0, i as int));
            assert forall|a: u32| a != asn implies all@.subrange(0, i + 1).filter(of_asn(a))
                == all@.subrange(0, i as int).filter(of_asn(a)) by {}
            assert(all@.subrange(0, i + 1).filter(of_asn(asn)).len() > 0);
        }
        if !m.contains_key(&asn) {
            let v = get_endpoints_for_asn(asn);
            m.insert(asn, v);
        }
        i = i + 1;
    }
    proof {
        assert(all@.subrange(0, all@.len() as int) =~= all@);
    }
    m
}

proof fn lemma_ranked_upto(s: Seq<KnownEndpoint>, asn: u32, k: int)
    requires
        0 <= k,
    ensures
        forall|i: int|
            0 <= i < ranked_upto(s, asn, k).len() ==> (#[trigger] ranked_upto(s, asn, k)[i]).asn == asn
                && 1 <= method_rank(ranked_upto(s, asn, k)[i].method) <= k,
        forall|i: int, j: int|
            0 <= i < j < ranked_upto(s, asn, k).len() ==> method_rank(
                (#[trigger] ranked_upto(s, asn, k)[i]).method,
            ) <= method_rank((#[trigger] ranked_upto(s, asn, k)[j]).method),
        forall|i: int|
            0 <= i < s.len() && s[i].asn == asn && method_rank(s[i].method) <= k ==> #[trigger] ranked_upto(
                s,
                asn,
                k,
            ).contains(s[i]),
    decreases k,
{
    broadcast use Seq::lemma_filter_pred, Seq::lemma_filter_contains;
    if k > 0 {
        lemma_ranked_upto(s, asn, k - 1);
        let a = ranked_upto(s, asn, k - 1);
        let b = s.filter(of_asn_with_rank(asn, k));
        let r = ranked_upto(s, asn, k);
        assert(r == a + b);
        assert forall|i: int| 0 <= i < r.len() implies (#[trigger] r[i]).asn == asn && 1 <= method_rank(
            r[i].method,
        ) <= k by {
            if i >= a.len() {
                assert(r[i] == b[i - a.len()]);
                assert((of_asn_with_rank(asn, k))(b[i - a.len()]));
            } else {
                assert(r[i] == a[i]);
            }
        }
        assert forall|i: int, j: int| 0 <= i < j < r.len() implies method_rank((#[trigger] r[i]).method)
            <= method_rank((#[trigger] r[j]).method) by {
            if j >= a.len() {
                assert(r[j] == b[j - a.len()]);
                assert((of_asn_with_rank(asn, k))(b[j - a.len()]));
                if i >= a.len() {
                    assert(r[i] == b[i - a.len()]);
                    assert((of_asn_with_rank(asn, k))(b[i - a.len()]));
                } else {
                    assert(r[i] == a[i]);
                }
            } else {
                assert(r[i] == a[i] && r[j] == a[j]);
            }
        }
        assert forall|i: int| 0 <= i < s.len() && s[i].asn == asn && method_rank(s[i].method) <= k implies #[trigger] r.contains(
            s[i],
        ) by {
            if method_rank(s[i].method) == k {
                assert(b.contains(s[i]));
                let j = choose|j: int| 0 <= j < b.len() && b[j] == s[i];
                assert(r[a.len() + j] == s[i]);
            } else {
                assert(a.contains(s[i]));
                let j = choose|j: int| 0 <= j < a.len() && a[j] == s[i];
                assert(r[j] == s[i]);
            }
        }
    }
}

/// The endpoints given for an ASN all belong to that ASN, come sorted by
/// reliability rank, and include every endpoint of the base for that ASN.
pub proof fn lemma_endpoints_for_sorted_and_complete(asn: u32)
    ensures
        forall|i: int| 0 <= i < endpoints_for(asn).len() ==> (#[trigger] endpoints_for(asn)[i]).asn == asn,
        forall|i: int, j: int|
            0 <= i < j < endpoints_for(asn).len() ==> method_rank((#[trigger] endpoints_for(asn)[i]).method)
                <= method_rank((#[trigger] endpoints_for(asn)[j]).method),
        forall|i: int|
            0 <= i < known_endpoints().len() && known_endpoints()[i].asn == asn ==> #[trigger] endpoints_for(
                asn,
            ).contains(known_endpoints()[i]),
{
    lemma_ranked_upto(known_endpoints(), asn, 6);
    assert forall|i: int| 0 <= i < known_endpoints().len() implies method_rank(
        #[trigger] known_endpoints()[i].method,
    ) <= 6 by {}
}

/// `e` has reliability rank `k`.
pub open spec fn has_rank(k: int) -> spec_fn(KnownEndpoint) -> bool {
    |e: KnownEndpoint| method_rank(e.method) == k
}

/// The multiset with `x` once when `keep`, empty otherwise.
pub open spec fn one_if(keep: bool, x: KnownEndpoint) -> vstd::multiset::Multiset<KnownEndpoint> {
    if keep {
        vstd::multiset::Multiset::singleton(x)
    } else {
        vstd::multiset::Multiset::empty()
    }
}

proof fn lemma_ranked_push(t: Seq<KnownEndpoint>, x: KnownEndpoint, asn: u32, n: int)
    requires
        0 <= n,
    ensures
        ranked_upto(t.push(x), asn, n).to_multiset() == ranked_upto(t, asn, n).to_multiset().add(
            one_if(x.asn == asn && 1 <= method_rank(x.method) <= n, x),
        ),
    decreases n,
{
    broadcast use vstd::multiset::group_multiset_axioms, vstd::seq_lib::lemma_multiset_commutative,
        vstd::seq_lib::to_multiset_build;

    if n > 0 {
        lemma_ranked_push(t, x, asn, n - 1);
        t.lemma_filter_push(x, of_asn_with_rank(asn, n));
        let a = ranked_upto(t, asn, n - 1);
        let b = t.filter(of_asn_with_rank(asn, n));
        assert(ranked_upto(t.push(x), asn, n) == ranked_upto(t.push(x), asn, n - 1) + t.push(x).filter(
            of_asn_with_rank(asn, n),
        ));
        assert(ranked_upto(t, asn, n) == a + b);
        assert(ranked_upto(t.push(x), asn, n).to_multiset() =~= ranked_upto(t, asn, n).to_multiset().add(
            one_if(x.asn == asn && 1 <= method_rank(x.method) <= n, x),
        ));
    } else {
        assert(ranked_upto(t.push(x), asn, n).to_multiset() =~= ranked_upto(t, asn, n).to_multiset().add(
            one_if(x.asn == asn && 1 <= method_rank(x.method) <= n, x),
        ));
    }
}

proof fn lemma_ranked_is_permutation(s: Seq<KnownEndpoint>, asn: u32)
    ensures
        ranked_upto(s, asn, 6).to_multiset() == s.filter(of_asn(asn)).to_multiset(),
    decreases s.len(),
{
    broadcast use vstd::multiset::group_multiset_axioms, vstd::seq_lib::to_multiset_build;

    if s.len() == 0 {
        assert(s.filter(of_asn(asn)) =~= Seq::<KnownEndpoint>::empty()) by {
            reveal(Seq::filter);
        }
        lemma_ranked_empty(s, asn, 6);
        assert(ranked_upto(s, asn, 6) =~= Seq::<KnownEndpoint>::empty());
        assert(ranked_upto(s, asn, 6).to_multiset() =~= s.filter(of_asn(asn)).to_multiset());
    } else {
        let t = s.drop_last();
        let x = s.last();
        assert(t.push(x) =~= s);
        lemma_ranked_is_permutation(t, asn);
        lemma_ranked_push(t, x, asn, 6);
        t.lemma_filter_push(x, of_asn(asn));
        assert(ranked_upto(s, asn, 6).to_multiset() =~= s.filter(of_asn(asn)).to_multiset());
    }
}

proof fn lemma_ranked_empty(s: Seq<KnownEndpoint>, asn: u32, n: int)
    requires
        s.len() == 0,
        0 <= n,
    ensures
        ranked_upto(s, asn, n).len() == 0,
    decreases n,
{
    if n > 0 {
        lemma_ranked_empty(s, asn, n - 1);
        assert(s.filter(of_asn_with_rank(asn, n)) =~= Seq::<KnownEndpoint>::empty()) by {
            reveal(Seq::filter);
        }
    }
}

proof fn lemma_filter_rank_of_rank(s: Seq<KnownEndpoint>, asn: u32, j: int, k: int)
    ensures
        s.filter(of_asn_with_rank(asn, j)).filter(has_rank(k)) == (if j == k {
            s.filter(of_asn_with_rank(asn, j))
        } else {
            Seq::<KnownEndpoint>::empty()
        }),
    decreases s.len(),
{
    if s.len() == 0 {
        reveal(Seq::filter);
        assert(s.filter(of_asn_with_rank(asn, j)) =~= Seq::<KnownEndpoint>::empty());
        assert(Seq::<KnownEndpoint>::empty().filter(has_rank(k)) =~= Seq::<KnownEndpoint>::empty());
    } else {
        let t = s.drop_last();
        let x = s.last();
        assert(t.push(x) =~= s);
        lemma_filter_rank_of_rank(t, asn, j, k);
        t.lemma_filter_push(x, of_asn_with_rank(asn, j));
        t.filter(of_asn_with_rank(asn, j)).lemma_filter_push(x, has_rank(k));
    }
}

proof fn lemma_ranked_rank_part(s: Seq<KnownEndpoint>, asn: u32, n: int, k: int)
    requires
        0 <= n,
    ensures
        ranked_upto(s, asn, n).filter(has_rank(k)) == (if 1 <= k <= n {
            s.filter(of_asn_with_rank(asn, k))
        } else {
            Seq::<KnownEndpoint>::empty()
        }),
    decreases n,
{
    if n == 0 {
        reveal(Seq::filter);
        assert(ranked_upto(s, asn, n) =~= Seq::<KnownEndpoint>::empty());
        assert(Seq::<KnownEndpoint>::empty().filter(has_rank(k)) =~= Seq::<KnownEndpoint>::empty());
    } else {
        lemma_ranked_rank_part(s, asn, n - 1, k);
        lemma_filter_rank_of_rank(s, asn, n, k);
        Seq::filter_distributes_over_add(ranked_upto(s, asn, n - 1), s.filter(of_asn_with_rank(asn, n)), has_rank(k));
        if k == n {
            assert(Seq::<KnownEndpoint>::empty() + s.filter(of_asn_with_rank(asn, n)) =~= s.filter(
                of_asn_with_rank(asn, n),
            ));
        } else if 1 <= k < n {
            assert(s.filter(of_asn_with_rank(asn, k)) + Seq::<KnownEndpoint>::empty() =~= s.filter(
                of_asn_with_rank(asn, k),
            ));
        } else {
            assert(Seq::<KnownEndpoint>::empty() + Seq::<KnownEndpoint>::empty() =~= Seq::<KnownEndpoint>::empty());
        }
    }
}

/// The endpoints given for an ASN are a stable sort of that ASN's entries of
/// the base: the same entries as often as in the base, and, rank by rank,
/// the entries of each reliability rank in the order of the base.
pub proof fn lemma_endpoints_for_stable_sort(asn: u32)
    ensures
        endpoints_for(asn).to_multiset() == known_endpoints().filter(of_asn(asn)).to_multiset(),
        forall|k: int|
            1 <= k <= 6 ==> #[trigger] endpoints_for(asn).filter(has_rank(k)) == known_endpoints().filter(
                of_asn_with_rank(asn, k),
            ),
{
    lemma_ranked_is_permutation(known_endpoints(), asn);
    assert forall|k: int| 1 <= k <= 6 implies #[trigger] endpoints_for(asn).filter(has_rank(k))
        == known_endpoints().filter(of_asn_with_rank(asn, k)) by {
        lemma_ranked_rank_part(known_endpoints(), asn, 6, k);
    }
}

proof fn lemma_filter_count(s: Seq<KnownEndpoint>, asn: u32, e: KnownEndpoint)
    ensures
        s.filter(of_asn(asn)).to_multiset().count(e) == (if e.asn == asn {
            s.to_multiset().count(e)
        } else {
            0
        }),
    decreases s.len(),
{
    broadcast use vstd::multiset::group_multiset_axioms, vstd::seq_lib::to_multiset_build;

    if s.len() == 0 {
        reveal(Seq::filter);
        assert(s.filter(of_asn(asn)) =~= Seq::<KnownEndpoint>::empty());
        assert(s =~= Seq::<KnownEndpoint>::empty());
        vstd::seq_lib::to_multiset_len(s);
        vstd::seq_lib::to_multiset_len(s.filter(of_asn(asn)));
        assert(s.to_multiset().len() == 0);
        assert(s.to_multiset() =~= vstd::multiset::Multiset::empty());
        assert(s.filter(of_asn(asn)).to_multiset() =~= vstd::multiset::Multiset::empty());
    } else {
        let t = s.drop_last();
        let x = s.last();
        assert(t.push(x) =~= s);
        lemma_filter_count(t, asn, e);
        t.lemma_filter_push(x, of_asn(asn));
        vstd::seq_lib::to_multiset_build(t, x);
        vstd::seq_lib::to_multiset_build(t.filter(of_asn(asn)), x);
        if x.asn == asn {
            assert(s.filter(of_asn(asn)) == t.filter(of_asn(asn)).push(x));
        } else {
            assert(s.filter(of_asn(asn)) == t.filter(of_asn(asn)));
        }
        assert(s.to_multiset() == t.to_multiset().insert(x));
    }
}

/// The index ASN → endpoints covers the base exactly once: the list of an
/// ASN holds each entry of that ASN as many times as the base does, and no
/// entry of another ASN.
pub proof fn lemma_index_covers_base_once(asn: u32, e: KnownEndpoint)
    ensures
        endpoints_for(asn).to_multiset().count(e) == (if e.asn == asn {
            known_endpoints().to_multiset().count(e)
        } else {
            0
        }),
{
    lemma_endpoints_for_stable_sort(asn);
    lemma_filter_count(known_endpoints(), asn, e);
}

/// 10 to the power `n`.
pub open spec fn ten_to(n: nat) -> nat
    decreases n,
{
    if n == 0 {
        1
    } else {
        10 * ten_to((n - 1) as nat)
    }
}

proof fn lemma_digits_value_bound(s: Seq<char>)
    requires
        all_digits(s),
    ensures
        digits_value(s) < ten_to(s.len()),
    decreases s.len(),
{
    if s.len() > 0 {
        lemma_digits_value_bound(s.drop_last());
        assert(is_digit(s[s.len() - 1]));
    }
}

/// A short string of digits parses as a port number (and as a `u32`).
proof fn lemma_digits_below(s: Seq<char>)
    requires
        1 <= s.len() <= 4 || (s.len() == 5 && s[0] <= '5'),
        forall|i: int| 0 <= i < s.len() ==> '0' <= #[trigger] s[i] <= '9',
    ensures
        parse_unsigned_spec(s, 65535) is Some,
        parse_unsigned_spec(s, 4294967295) is Some,
{
    assert(all_digits(s));
    lemma_digits_value_bound(s);
    if s.len() == 5 {
        lemma_digits_value_bound(s.drop_last());
        reveal_with_fuel(ten_to, 5);
        assert(ten_to(4) == 10000);
        assert(digits_value(s) == digits_value(s.drop_last()) * 10 + ((s.last() as int - '0' as int) as nat));
        assert(s.drop_last().len() == 4 && all_digits(s.drop_last()));
        assert(digits_value(s.drop_last()) < 10000);
        // five digits: below 60000 when the first is at most 5
        lemma_first_digit_bound(s);
    } else {
        assert(ten_to(s.len()) <= 10000) by {
            reveal_with_fuel(ten_to, 5);
        }
    }
}

proof fn lemma_first_digit_bound(s: Seq<char>)
    requires
        s.len() == 5,
        s[0] <= '5',
        forall|i: int| 0 <= i < s.len() ==> '0' <= #[trigger] s[i] <= '9',
    ensures
        digits_value(s) < 60000,
{
    let s1 = s.subrange(0, 1);
    let s2 = s.subrange(0, 2);
    let s3 = s.subrange(0, 3);
    let s4 = s.subrange(0, 4);
    assert(s.drop_last() =~= s4);
    assert(s4.drop_last() =~= s3);
    assert(s3.drop_last() =~= s2);
    assert(s2.drop_last() =~= s1);
    assert(s1.drop_last() =~= Seq::<char>::empty());
    assert(s1.last() == s[0] && s2.last() == s[1] && s3.last() == s[2] && s4.last() == s[3]);
    assert(s.last() == s[4]);
    assert(digits_value(Seq::<char>::empty()) == 0);
    assert(digits_value(s1) <= 5);
    assert(digits_value(s2) <= 59);
    assert(digits_value(s3) <= 599);
    assert(digits_value(s4) <= 5999);
}

/// `s` parses as a `u32` (a Speedtest.net server ID).
pub open spec fn is_server_id(s: Seq<char>) -> bool {
    parse_unsigned_spec(s, 4294967295) is Some
}

/// `s` is "host:port": a non-empty host, a ':' and a port that parses as a
/// `u16`.
pub open spec fn is_host_port(s: Seq<char>) -> bool {
    exists|c: int|
        0 < c < s.len() && s[c] == ':' && parse_unsigned_spec(#[trigger] s.subrange(c + 1, s.len() as int), 65535) is Some
}

proof fn lemma_host_port_at(s: Seq<char>, c: int)
    requires
        0 < c < s.len(),
        s[c] == ':',
        parse_unsigned_spec(s.subrange(c + 1, s.len() as int), 65535) is Some,
    ensures
        is_host_port(s),
{
}

/// `s` starts with "http://" or "https://".
pub open spec fn is_http_url(s: Seq<char>) -> bool {
    (s.len() >= 7 && s.subrange(0, 7) == seq!['h', 't', 't', 'p', ':', '/', '/']) || (s.len() >= 8 && s.subrange(0, 8)
        == seq!['h', 't', 't', 'p', 's', ':', '/', '/'])
}

/// The endpoint of `e` has the form its method reads: a server ID, "host:port"
/// or an HTTP(S) URL; the base holds no other method.
pub open spec fn endpoint_well_formed(e: KnownEndpoint) -> bool {
    match e.method {
        MeasureMethod::SpeedtestTier1Db => is_server_id(e.endpoint@),
        MeasureMethod::Iperf3 => is_host_port(e.endpoint@),
        MeasureMethod::HttpDownload => is_http_url(e.endpoint@),
        _ => false,
    }
}

proof fn lemma_entry_well_formed_0()
    ensures
        endpoint_well_formed(known_endpoints()[0]),
{
    reveal_strlit("iperf.he.net:5201");
    let t = known_endpoints()[0].endpoint@;
    assert(t =~= seq!['i', 'p', 'e', 'r', 'f', '.', 'h', 'e', '.', 'n', 'e', 't', ':', '5', '2', '0', '1']);
    let port = t.subrange(13, t.len() as int);
    assert(port =~= seq!['5', '2', '0', '1']);
    lemma_digits_below(port);
    lemma_host_port_at(t, 12);
}

proof fn lemma_entry_well_formed_1()
    ensures
        endpoint_well_formed(known_endpoints()[1]),
{
    reveal_strlit("http://speedtest.reliablesite.net/100MB.test");
    let t = known_endpoints()[1].endpoint@;
    assert(t =~= seq!['h', 't', 't', 'p', ':', '/', '/', 's', 'p', 'e', 'e', 'd', 't', 'e', 's', 't', '.', 'r', 'e', 'l', 'i', 'a', 'b', 'l', 'e', 's', 'i', 't', 'e', '.', 'n', 'e', 't', '/', '1', '0', '0', 'M', 'B', '.', 't', 'e', 's', 't']);
    assert(t.subrange(0, 7) =~= seq!['h', 't', 't', 'p', ':', '/', '/']);
}

proof fn lemma_entry_well_formed_2()
    ensures
        endpoint_well_formed(known_endpoints()[2]),
{
    reveal_strlit("51308");
    let t = known_endpoints()[2].endpoint@;
    assert(t =~= seq!['5', '1', '3', '0', '8']);
    lemma_digits_below(t);
}

proof fn lemma_entry_well_formed_3()
    ensures
        endpoint_well_formed(known_endpoints()[3]),
{
    reveal_strlit("iperf.par.fr.as5410.net:9200");
    let t = known_endpoints()[3].endpoint@;
    assert(t =~= seq!['i', 'p', 'e', 'r', 'f', '.', 'p', 'a', 'r', '.', 'f', 'r', '.', 'a', 's', '5', '4', '1', '0', '.', 'n', 'e', 't', ':', '9', '2', '0', '0']);
    let port = t.subrange(24, t.len() as int);
    assert(port =~= seq!['9', '2', '0', '0']);
    lemma_digits_below(port);
    lemma_host_port_at(t, 23);
}

proof fn lemma_entry_well_formed_4()
    ensures
        endpoint_well_formed(known_endpoints()[4]),
{
    reveal_strlit("14236");
    let t = known_endpoints()[4].endpoint@;
    assert(t =~= seq!['1', '4', '2', '3', '6']);
    lemma_digits_below(t);
}

proof fn lemma_entry_well_formed_5()
    ensures
        endpoint_well_formed(known_endpoints()[5]),
{
    reveal_strlit("speedtest.telia.net:5201");
    let t = known_endpoints()[5].endpoint@;
    assert(t =~= seq!['s', 'p', 'e', 'e', 'd', 't', 'e', 's', 't', '.', 't', 'e', 'l', 'i', 'a', '.', 'n', 'e', 't', ':', '5', '2', '0', '1']);
    let port = t.subrange(20, t.len() as int);
    assert(port =~= seq!['5', '2', '0', '1']);
    lemma_digits_below(port);
    lemma_host_port_at(t, 19);
}

proof fn lemma_entry_well_formed_6()
    ensures
        endpoint_well_formed(known_endpoints()[6]),
{
    reveal_strlit("iperf.he.net:5201");
    let t = known_endpoints()[6].endpoint@;
    assert(t =~= seq!['i', 'p', 'e', 'r', 'f', '.', 'h', 'e', '.', 'n', 'e', 't', ':', '5', '2', '0', '1']);
    let port = t.subrange(13, t.len() as int);
    assert(port =~= seq!['5', '2', '0', '1']);
    lemma_digits_below(port);
    lemma_host_port_at(t, 12);
}

proof fn lemma_entry_well_formed_7()
    ensures
        endpoint_well_formed(known_endpoints()[7]),
{
    reveal_strlit("iperf.fra.de.as5410.net:9200");
    let t = known_endpoints()[7].endpoint@;
    assert(t =~= seq!['i', 'p', 'e', 'r', 'f', '.', 'f', 'r', 'a', '.', 'd', 'e', '.', 'a', 's', '5', '4', '1', '0', '.', 'n', 'e', 't', ':', '9', '2', '0', '0']);
    let port = t.subrange(24, t.len() as int);
    assert(port =~= seq!['9', '2', '0', '0']);
    lemma_digits_below(port);
    lemma_host_port_at(t, 23);
}

proof fn lemma_entry_well_formed_8()
    ensures
        endpoint_well_formed(known_endpoints()[8]),
{
    reveal_strlit("http://speedtest.reliablesite.net/100MB.test");
    let t = known_endpoints()[8].endpoint@;
    assert(t =~= seq!['h', 't', 't', 'p', ':', '/', '/', 's', 'p', 'e', 'e', 'd', 't', 'e', 's', 't', '.', 'r', 'e', 'l', 'i', 'a', 'b', 'l', 'e', 's', 'i', 't', 'e', '.', 'n', 'e', 't', '/', '1', '0', '0', 'M', 'B', '.', 't', 'e', 's', 't']);
    assert(t.subrange(0, 7) =~= seq!['h', 't', 't', 'p', ':', '/', '/']);
}

proof fn lemma_entry_well_formed_9()
    ensures
        endpoint_well_formed(known_endpoints()[9]),
{
    reveal_strlit("iperf.he.net:5201");
    let t = known_endpoints()[9].endpoint@;
    assert(t =~= seq!['i', 'p', 'e', 'r', 'f', '.', 'h', 'e', '.', 'n', 'e', 't', ':', '5', '2', '0', '1']);
    let port = t.subrange(13, t.len() as int);
    assert(port =~= seq!['5', '2', '0', '1']);
    lemma_digits_below(port);
    lemma_host_port_at(t, 12);
}

proof fn lemma_entry_well_formed_10()
    ensures
        endpoint_well_formed(known_endpoints()[10]),
{
    reveal_strlit("iperf.nyc.he.net:5201");
    let t = known_endpoints()[10].endpoint@;
    assert(t =~= seq!['i', 'p', 'e', 'r', 'f', '.', 'n', 'y', 'c', '.', 'h', 'e', '.', 'n', 'e', 't', ':', '5', '2', '0', '1']);
    let port = t.subrange(17, t.len() as int);
    assert(port =~= seq!['5', '2', '0', '1']);
    lemma_digits_below(port);
    lemma_host_port_at(t, 16);
}

proof fn lemma_entry_well_formed_11()
    ensures
        endpoint_well_formed(known_endpoints()[11]),
{
    reveal_strlit("iperf.par.he.net:5201");
    let t = known_endpoints()[11].endpoint@;
    assert(t =~= seq!['i', 'p', 'e', 'r', 'f', '.', 'p', 'a', 'r', '.', 'h', 'e', '.', 'n', 'e', 't', ':', '5', '2', '0', '1']);
    let port = t.subrange(17, t.len() as int);
    assert(port =~= seq!['5', '2', '0', '1']);
    lemma_digits_below(port);
    lemma_host_port_at(t, 16);
}

proof fn lemma_entry_well_formed_12()
    ensures
        endpoint_well_formed(known_endpoints()[12]),
{
    reveal_strlit("10916");
    let t = known_endpoints()[12].endpoint@;
    assert(t =~= seq!['1', '0', '9', '1', '6']);
    lemma_digits_below(t);
}

proof fn lemma_entry_well_formed_13()
    ensures
        endpoint_well_formed(known_endpoints()[13]),
{
    reveal_strlit("iperf.par.fr.as5410.net:9200");
    let t = known_endpoints()[13].endpoint@;
    assert(t =~= seq!['i', 'p', 'e', 'r', 'f', '.', 'p', 'a', 'r', '.', 'f', 'r', '.', 'a', 's', '5', '4', '1', '0', '.', 'n', 'e', 't', ':', '9', '2', '0', '0']);
    let port = t.subrange(24, t.len() as int);
    assert(port =~= seq!['9', '2', '0', '0']);
    lemma_digits_below(port);
    lemma_host_port_at(t, 23);
}

proof fn lemma_entry_well_formed_14()
    ensures
        endpoint_well_formed(known_endpoints()[14]),
{
    reveal_strlit("iperf.lyo.fr.as5410.net:9200");
    let t = known_endpoints()[14].endpoint@;
    assert(t =~= seq!['i', 'p', 'e', 'r', 'f', '.', 'l', 'y', 'o', '.', 'f', 'r', '.', 'a', 's', '5', '4', '1', '0', '.', 'n', 'e', 't', ':', '9', '2', '0', '0']);
    let port = t.subrange(24, t.len() as int);
    assert(port =~= seq!['9', '2', '0', '0']);
    lemma_digits_below(port);
    lemma_host_port_at(t, 23);
}

proof fn lemma_entry_well_formed_15()
    ensures
        endpoint_well_formed(known_endpoints()[15]),
{
    reveal_strlit("iperf.par.fr.as15557.net:9200");
    let t = known_endpoints()[15].endpoint@;
    assert(t =~= seq!['i', 'p', 'e', 'r', 'f', '.', 'p', 'a', 'r', '.', 'f', 'r', '.', 'a', 's', '1', '5', '5', '5', '7', '.', 'n', 'e', 't', ':', '9', '2', '0', '0']);
    let port = t.subrange(25, t.len() as int);
    assert(port =~= seq!['9', '2', '0', '0']);
    lemma_digits_below(port);
    lemma_host_port_at(t, 24);
}

proof fn lemma_entry_well_formed_16()
    ensures
        endpoint_well_formed(known_endpoints()[16]),
{
    reveal_strlit("iperf.par.fr.as12322.net:9200");
    let t = known_endpoints()[16].endpoint@;
    assert(t =~= seq!['i', 'p', 'e', 'r', 'f', '.', 'p', 'a', 'r', '.', 'f', 'r', '.', 'a', 's', '1', '2', '3', '2', '2', '.', 'n', 'e', 't', ':', '9', '2', '0', '0']);
    let port = t.subrange(25, t.len() as int);
    assert(port =~= seq!['9', '2', '0', '0']);
    lemma_digits_below(port);
    lemma_host_port_at(t, 24);
}

proof fn lemma_entry_well_formed_17()
    ensures
        endpoint_well_formed(known_endpoints()[17]),
{
    reveal_strlit("http://speed.hetzner.de/100MB.bin");
    let t = known_endpoints()[17].endpoint@;
    assert(t =~= seq!['h', 't', 't', 'p', ':', '/', '/', 's', 'p', 'e', 'e', 'd', '.', 'h', 'e', 't', 'z', 'n', 'e', 'r', '.', 'd', 'e', '/', '1', '0', '0', 'M', 'B', '.', 'b', 'i', 'n']);
    assert(t.subrange(0, 7) =~= seq!['h', 't', 't', 'p', ':', '/', '/']);
}

proof fn lemma_entry_well_formed_18()
    ensures
        endpoint_well_formed(known_endpoints()[18]),
{
    reveal_strlit("http://hel.speed.hetzner.com/100MB.bin");
    let t = known_endpoints()[18].endpoint@;
    assert(t =~= seq!['h', 't', 't', 'p', ':', '/', '/', 'h', 'e', 'l', '.', 's', 'p', 'e', 'e', 'd', '.', 'h', 'e', 't', 'z', 'n', 'e', 'r', '.', 'c', 'o', 'm', '/', '1', '0', '0', 'M', 'B', '.', 'b', 'i', 'n']);
    assert(t.subrange(0, 7) =~= seq!['h', 't', 't', 'p', ':', '/', '/']);
}

proof fn lemma_entry_well_formed_19()
    ensures
        endpoint_well_formed(known_endpoints()[19]),
{
    reveal_strlit("http://proof.ovh.net/files/100Mb.dat");
    let t = known_endpoints()[19].endpoint@;
    assert(t =~= seq!['h', 't', 't', 'p', ':', '/', '/', 'p', 'r', 'o', 'o', 'f', '.', 'o', 'v', 'h', '.', 'n', 'e', 't', '/', 'f', 'i', 'l', 'e', 's', '/', '1', '0', '0', 'M', 'b', '.', 'd', 'a', 't']);
    assert(t.subrange(0, 7) =~= seq!['h', 't', 't', 'p', ':', '/', '/']);
}

proof fn lemma_entry_well_formed_20()
    ensures
        endpoint_well_formed(known_endpoints()[20]),
{
    reveal_strlit("iperf.nyc.he.net:5201");
    let t = known_endpoints()[20].endpoint@;
    assert(t =~= seq!['i', 'p', 'e', 'r', 'f', '.', 'n', 'y', 'c', '.', 'h', 'e', '.', 'n', 'e', 't', ':', '5', '2', '0', '1']);
    let port = t.subrange(17, t.len() as int);
    assert(port =~= seq!['5', '2', '0', '1']);
    lemma_digits_below(port);
    lemma_host_port_at(t, 16);
}

/// Every entry of the base is a Speedtest.net server ID, an iperf3
/// "host:port" or an HTTP(S) URL, as its method requires.
pub proof fn lemma_endpoints_well_formed()
    ensures
        forall|i: int| 0 <= i < known_endpoints().len() ==> endpoint_well_formed(#[trigger] known_endpoints()[i]),
{
    lemma_entry_well_formed_0();
    lemma_entry_well_formed_1();
    lemma_entry_well_formed_2();
    lemma_entry_well_formed_3();
    lemma_entry_well_formed_4();
    lemma_entry_well_formed_5();
    lemma_entry_well_formed_6();
    lemma_entry_well_formed_7();
    lemma_entry_well_formed_8();
    lemma_entry_well_formed_9();
    lemma_entry_well_formed_10();
    lemma_entry_well_formed_11();
    lemma_entry_well_formed_12();
    lemma_entry_well_formed_13();
    lemma_entry_well_formed_14();
    lemma_entry_well_formed_15();
    lemma_entry_well_formed_16();
    lemma_entry_well_formed_17();
    lemma_entry_well_formed_18();
    lemma_entry_well_formed_19();
    lemma_entry_well_formed_20();
    assert(known_endpoints().len() == 21);
}

/// The ASNs of `s`, each once, in the order they first appear.
pub open spec fn distinct_asns(s: Seq<KnownEndpoint>) -> Seq<u32>
    decreases s.len(),
{
    if s.len() == 0 {
        Seq::empty()
    } else {
        let prev = distinct_asns(s.drop_last());
        if prev.contains(s.last().asn) {
            prev
        } else {
            prev.push(s.last().asn)
        }
    }
}

/// The sum, over the ASNs of `l`, of the number of entries of `s` of each.
pub open spec fn sum_counts(l: Seq<u32>, s: Seq<KnownEndpoint>) -> int
    decreases l.len(),
{
    if l.len() == 0 {
        0
    } else {
        sum_counts(l.drop_last(), s) + s.filter(of_asn(l.last())).len()
    }
}

/// The sum, over the ASNs of `l`, of the lengths of their lists.
pub open spec fn sum_list_lens(l: Seq<u32>) -> int
    decreases l.len(),
{
    if l.len() == 0 {
        0
    } else {
        sum_list_lens(l.drop_last()) + endpoints_for(l.last()).len()
    }
}

proof fn lemma_distinct_asns(s: Seq<KnownEndpoint>)
    ensures
        distinct_asns(s).no_duplicates(),
        forall|a: u32| #[trigger] distinct_asns(s).contains(a) <==> exists|i: int| 0 <= i < s.len() && s[i].asn == a,
    decreases s.len(),
{
    if s.len() > 0 {
        let t = s.drop_last();
        lemma_distinct_asns(t);
        let p = distinct_asns(t);
        assert forall|a: u32| #[trigger] distinct_asns(s).contains(a) <==> exists|i: int| 0 <= i < s.len() && s[i].asn == a by {
            if distinct_asns(s).contains(a) {
                if p.contains(a) {
                    let i = choose|i: int| 0 <= i < t.len() && t[i].asn == a;
                    assert(s[i] == t[i]);
                } else {
                    assert(distinct_asns(s) == p.push(s.last().asn));
                    let k = choose|k: int| 0 <= k < distinct_asns(s).len() && distinct_asns(s)[k] == a;
                    assert(a == s.last().asn);
                    assert(s[s.len() - 1].asn == a);
                }
            }
            if exists|i: int| 0 <= i < s.len() && s[i].asn == a {
                let i = choose|i: int| 0 <= i < s.len() && s[i].asn == a;
                if i < s.len() - 1 {
                    assert(t[i] == s[i]);
                    assert(p.contains(a));
                    if !p.contains(s.last().asn) {
                        let k = choose|k: int| 0 <= k < p.len() && p[k] == a;
                        assert(p.push(s.last().asn)[k] == a);
                    }
                } else if !p.contains(s.last().asn) {
                    assert(p.push(s.last().asn)[p.len() as int] == a);
                }
            }
        }
    }
}

proof fn lemma_sum_counts_push(l: Seq<u32>, t: Seq<KnownEndpoint>, x: KnownEndpoint)
    requires
        l.no_duplicates(),
    ensures
        sum_counts(l, t.push(x)) == sum_counts(l, t) + (if l.contains(x.asn) {
            1int
        } else {
            0int
        }),
    decreases l.len(),
{
    if l.len() > 0 {
        let m = l.drop_last();
        assert(m.no_duplicates());
        lemma_sum_counts_push(m, t, x);
        t.lemma_filter_push(x, of_asn(l.last()));
        if l.contains(x.asn) {
            let k = choose|k: int| 0 <= k < l.len() && l[k] == x.asn;
            if k < l.len() - 1 {
                assert(m[k] == x.asn);
                assert(l.last() != x.asn);
            } else {
                assert(!m.contains(x.asn)) by {
                    if m.contains(x.asn) {
                        let j = choose|j: int| 0 <= j < m.len() && m[j] == x.asn;
                        assert(l[j] == l[l.len() - 1]);
                    }
                }
            }
        } else {
            assert(!m.contains(x.asn)) by {
                if m.contains(x.asn) {
                    let j = choose|j: int| 0 <= j < m.len() && m[j] == x.asn;
                    assert(l[j] == x.asn);
                }
            }
            assert(l.last() != x.asn) by {
                assert(l[l.len() - 1] == l.last());
            }
        }
    }
}

proof fn lemma_sum_counts_all(l: Seq<u32>, s: Seq<KnownEndpoint>)
    requires
        l.no_duplicates(),
        forall|i: int| 0 <= i < s.len() ==> l.contains(#[trigger] s[i].asn),
    ensures
        sum_counts(l, s) == s.len(),
    decreases s.len(),
{
    if s.len() == 0 {
        lemma_sum_counts_empty(l, s);
    } else {
        let t = s.drop_last();
        assert(t.push(s.last()) =~= s);
        assert forall|i: int| 0 <= i < t.len() implies l.contains(#[trigger] t[i].asn) by {
            assert(t[i] == s[i]);
        }
        lemma_sum_counts_all(l, t);
        lemma_sum_counts_push(l, t, s.last());
        assert(l.contains(s[s.len() - 1].asn));
    }
}

proof fn lemma_sum_counts_empty(l: Seq<u32>, s: Seq<KnownEndpoint>)
    requires
        s.len() == 0,
    ensures
        sum_counts(l, s) == 0,
    decreases l.len(),
{
    if l.len() > 0 {
        lemma_sum_counts_empty(l.drop_last(), s);
        assert(s.filter(of_asn(l.last())) =~= Seq::<KnownEndpoint>::empty()) by {
            reveal(Seq::filter);
        }
    }
}

proof fn lemma_sum_lens_is_counts(l: Seq<u32>)
    ensures
        sum_list_lens(l) == sum_counts(l, known_endpoints()),
    decreases l.len(),
{
    if l.len() > 0 {
        lemma_sum_lens_is_counts(l.drop_last());
        lemma_endpoints_for_stable_sort(l.last());
        vstd::seq_lib::to_multiset_len(endpoints_for(l.last()));
        vstd::seq_lib::to_multiset_len(known_endpoints().filter(of_asn(l.last())));
    }
}

/// The index covers the base exactly: its keys are the ASNs of the base
/// (each once), and the lengths of their lists add up to the size of the
/// base.
pub proof fn lemma_index_lengths_add_up()
    ensures
        distinct_asns(known_endpoints()).no_duplicates(),
        forall|a: u32| #[trigger] distinct_asns(known_endpoints()).contains(a) <==> known_endpoints().filter(of_asn(a)).len() > 0,
        sum_list_lens(distinct_asns(known_endpoints())) == known_endpoints().len(),
{
    let s = known_endpoints();
    let l = distinct_asns(s);
    lemma_distinct_asns(s);
    assert forall|a: u32| #[trigger] l.contains(a) <==> s.filter(of_asn(a)).len() > 0 by {
        broadcast use Seq::lemma_filter_pred, Seq::lemma_filter_contains;
        if l.contains(a) {
            let i = choose|i: int| 0 <= i < s.len() && s[i].asn == a;
            assert(s.filter(of_asn(a)).contains(s[i]));
        }
        if s.filter(of_asn(a)).len() > 0 {
            assert((of_asn(a))(s.filter(of_asn(a))[0]));
            s.lemma_filter_contains_rev(of_asn(a), s.filter(of_asn(a))[0]);
        }
    }
    assert forall|i: int| 0 <= i < s.len() implies l.contains(#[trigger] s[i].asn) by {}
    lemma_sum_counts_all(l, s);
    lemma_sum_lens_is_counts(l);
}

} // verus!
