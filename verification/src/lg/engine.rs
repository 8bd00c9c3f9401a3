//! Decisions of the return-path diagnosis: the AS path of the forward
//! traceroute, where the return traceroute is launched from, and which
//! looking-glass servers are offered.

use vstd::prelude::*;
use crate::geo::{to_upper, uppercase};
use crate::lg::db::{lg_db_spec, serves_asn, servers_for_asn, LgServer, QueryMethod};
use crate::text::{
    chars_of, decimal, owned, push_decimal, push_str, replace_all, replace_chars, string_from_chars,
};
use crate::types::Hop;

verus! {

/// The ASes of `hops` in path order, each once, with their names.
pub open spec fn as_path(hops: Seq<Hop>) -> Seq<(u32, Seq<char>)>
    decreases hops.len(),
{
    if hops.len() == 0 {
        Seq::empty()
    } else {
        let prev = as_path(hops.drop_last());
        match hops.last().as_info {
            Some(info) => if exists|k: int| 0 <= k < prev.len() && prev[k].0 == info.asn {
                prev
            } else {
                prev.push((info.asn, info.name@))
            },
            None => prev,
        }
    }
}

/// The views of (ASN, name) pairs.
pub open spec fn pair_views(v: Seq<(u32, String)>) -> Seq<(u32, Seq<char>)> {
    v.map_values(|p: (u32, String)| (p.0, p.1@))
}

/// The ASes crossed by the forward path, in order, each once.
pub fn path_asns(hops: &[Hop]) -> (r: Vec<(u32, String)>)
    ensures
        pair_views(r@) == as_path(hops@),
{
    let mut r: Vec<(u32, String)> = Vec::new();
    let mut i: usize = 0;
    while i < hops.len()
        invariant
            i <= hops@.len(),
            pair_views(r@) == as_path(hops@.subrange(0, i as int)),
        decreases hops@.len() - i,
    {
        proof {
            assert(hops@.subrange(0, i + 1).drop_last() =~= hops@.subrange(0, i as int));
        }
        match &hops[i].as_info {
            Some(info) => {
                let mut seen = false;
                let mut k: usize = 0;
                while k < r.len()
                    invariant
                        k <= r@.len(),
                        seen == exists|j: int| 0 <= j < k && pair_views(r@)[j].0 == info.asn,
                    decreases r@.len() - k,
                {
                    assert(pair_views(r@)[k as int].0 == r@[k as int].0);
                    if r[k].0 == info.asn {
                        seen = true;
                    }
                    k = k + 1;
                }
                if !seen {
                    let ghost before = r@;
                    r.push((info.asn, info.name.clone()));
                    assert(pair_views(r@) =~= pair_views(before).push((info.asn, info.name@)));
                }
            },
            None => {},
        }
        i = i + 1;
    }
    assert(hops@.subrange(0, hops@.len() as int) =~= hops@);
    r
}

/// The country of the last hop (in path order) whose AS has one.
pub open spec fn last_country(hops: Seq<Hop>) -> Option<Seq<char>>
    decreases hops.len(),
{
    if hops.len() == 0 {
        None
    } else {
        match hops.last().as_info {
            Some(info) => match info.country {
                Some(c) => Some(c@),
                None => last_country(hops.drop_last()),
            },
            None => last_country(hops.drop_last()),
        }
    }
}

/// Country where the return traceroute is launched from: that of the last
/// AS of the path that has one, "US" otherwise.
pub fn target_country(hops: &[Hop]) -> (r: String)
    ensures
        r@ == (match last_country(hops@) {
            Some(c) => c,
            None => "US"@,
        }),
{
    let mut n: usize = hops.len();
    assert(hops@.subrange(0, n as int) =~= hops@);
    while n > 0
        invariant
            n <= hops@.len(),
            last_country(hops@) == last_country(hops@.subrange(0, n as int)),
        decreases n,
    {
        let ghost pre = hops@.subrange(0, n as int);
        assert(pre.last() == hops@[n - 1]);
        assert(pre.drop_last() =~= hops@.subrange(0, n - 1));
        match &hops[n - 1].as_info {
            Some(info) => match &info.country {
                Some(c) => return c.clone(),
                None => {},
            },
            None => {},
        }
        n = n - 1;
    }
    owned("US")
}

/// The ASN at which the return traceroute should start: the last AS of the
/// forward path.
pub fn destination_asn(path: &Vec<(u32, String)>) -> (r: Option<u32>)
    ensures
        path@.len() == 0 ==> r is None,
        path@.len() > 0 ==> r == Some(path@.last().0),
{
    if path.len() == 0 {
        None
    } else {
        Some(path[path.len() - 1].0)
    }
}

/// Where a Globalping probe is asked for.
#[derive(Debug)]
pub enum ProbeLocation {
    Asn(u32),
    City(String),
    Country(String),
}

/// The locations tried in turn for the return traceroute: the destination
/// AS, then the city seen on the path, then the country (upper-cased).
pub open spec fn spec_location_candidates(dest_asn: Option<u32>, city: Option<Seq<char>>, country: Seq<char>) -> Seq<
    (int, Seq<char>),
> {
    (match dest_asn {
        Some(a) => seq![(a as int, Seq::empty())],
        None => Seq::empty(),
    }) + (match city {
        Some(c) => seq![(-1int, c)],
        None => Seq::empty(),
    }) + seq![(-2int, uppercase(country))]
}

/// A location as a pair: the ASN, or -1 and a city, or -2 and a country.
pub open spec fn location_view(l: ProbeLocation) -> (int, Seq<char>) {
    match l {
        ProbeLocation::Asn(a) => (a as int, Seq::empty()),
        ProbeLocation::City(c) => (-1int, c@),
        ProbeLocation::Country(c) => (-2int, c@),
    }
}

/// The locations from which a return traceroute is tried, in order: the
/// destination AS, the city hint, then the country.
pub fn location_candidates(dest_asn: Option<u32>, city_hint: Option<&str>, country_code: &str) -> (r: Vec<
    ProbeLocation,
>)
    ensures
        r@.map_values(|l: ProbeLocation| location_view(l)) == spec_location_candidates(
            dest_asn,
            match city_hint {
                Some(c) => Some(c@),
                None => None,
            },
            country_code@,
        ),
{
    let mut v: Vec<ProbeLocation> = Vec::new();
    match dest_asn {
        Some(a) => v.push(ProbeLocation::Asn(a)),
        None => {},
    }
    match city_hint {
        Some(c) => v.push(ProbeLocation::City(owned(c))),
        None => {},
    }
    v.push(ProbeLocation::Country(to_upper(country_code)));
    proof {
        let city_view: Option<Seq<char>> = match city_hint {
            Some(c) => Some(c@),
            None => None,
        };
        assert(v@.map_values(|l: ProbeLocation| location_view(l)) =~= spec_location_candidates(
            dest_asn,
            city_view,
            country_code@,
        ));
    }
    v
}

// ─── Looking glasses offered ──────────────────────────────────────────────────

/// The looking glasses offered for one AS.
#[derive(Debug)]
pub struct LgEntry {
    pub asn: u32,
    pub as_name: String,
    pub servers: Vec<LgServer>,
    /// Hurricane Electric added as the Tier-1 of reference (not on the path).
    pub is_reference: bool,
}

/// The entries for the ASes of the path that have looking glasses, in
/// order, as (ASN, name, servers, reference).
pub open spec fn path_entries(path: Seq<(u32, Seq<char>)>) -> Seq<(u32, Seq<char>, Seq<LgServer>, bool)>
    decreases path.len(),
{
    if path.len() == 0 {
        Seq::empty()
    } else {
        let prev = path_entries(path.drop_last());
        let (asn, name) = path.last();
        let servers = lg_db_spec().filter(serves_asn(asn));
        if servers.len() > 0 {
            prev.push((asn, name, servers, false))
        } else {
            prev
        }
    }
}

/// `asn` is an AS of the path that has looking glasses.
pub open spec fn covered(path: Seq<(u32, Seq<char>)>, asn: u32) -> bool {
    exists|i: int| 0 <= i < path.len() && path[i].0 == asn && lg_db_spec().filter(serves_asn(asn)).len() > 0
}

/// The looking glasses offered for a path: those of its ASes, then Hurricane
/// Electric (AS6939) as the reference Tier-1 when the path does not cross it.
pub open spec fn spec_lg_entries(path: Seq<(u32, Seq<char>)>) -> Seq<(u32, Seq<char>, Seq<LgServer>, bool)> {
    let he = lg_db_spec().filter(serves_asn(6939));
    if !covered(path, 6939) && he.len() > 0 {
        path_entries(path).push((6939u32, "Hurricane Electric"@, he, true))
    } else {
        path_entries(path)
    }
}

/// The view of an entry.
pub open spec fn entry_view(e: LgEntry) -> (u32, Seq<char>, Seq<LgServer>, bool) {
    (e.asn, e.as_name@, e.servers@, e.is_reference)
}

/// The looking-glass servers to offer for the ASes of a path.
pub fn lg_entries(path: &Vec<(u32, String)>) -> (r: Vec<LgEntry>)
    ensures
        r@.map_values(|e: LgEntry| entry_view(e)) == spec_lg_entries(pair_views(path@)),
{
    let ghost pv = pair_views(path@);
    let mut r: Vec<LgEntry> = Vec::new();
    let mut he_covered = false;
    let mut i: usize = 0;
    while i < path.len()
        invariant
            i <= path@.len(),
            pv == pair_views(path@),
            r@.map_values(|e: LgEntry| entry_view(e)) == path_entries(pv.subrange(0, i as int)),
            he_covered == covered(pv.subrange(0, i as int), 6939),
        decreases path@.len() - i,
    {
        proof {
            assert(pv.subrange(0, i + 1).drop_last() =~= pv.subrange(0, i as int));
            assert(pv.subrange(0, i + 1).last() == (path@[i as int].0, path@[i as int].1@));
        }
        let asn = path[i].0;
        let servers = servers_for_asn(asn);
        let ghost before = r@;
        if servers.len() > 0 {
            r.push(LgEntry { asn, as_name: path[i].1.clone(), servers, is_reference: false });
            assert(r@.map_values(|e: LgEntry| entry_view(e)) =~= before.map_values(|e: LgEntry| entry_view(e)).push(
                entry_view(r@.last()),
            ));
            if asn == 6939 {
                he_covered = true;
            }
        }
        proof {
            let next = pv.subrange(0, i + 1);
            if he_covered {
                if !covered(pv.subrange(0, i as int), 6939) {
                    assert(next[i as int].0 == 6939);
                }
                else {
                    let w = choose|k: int| 0 <= k < i && pv.subrange(0, i as int)[k].0 == 6939u32 && lg_db_spec().filter(
                        serves_asn(6939),
                    ).len() > 0;
                    assert(next[w] == pv.subrange(0, i as int)[w]);
                }
            } else {
                if covered(next, 6939) {
                    let w = choose|k: int| 0 <= k < i + 1 && next[k].0 == 6939u32 && lg_db_spec().filter(
                        serves_asn(6939),
                    ).len() > 0;
                    if w < i {
                        assert(pv.subrange(0, i as int)[w] == next[w]);
                    }
                }
            }
        }
        i = i + 1;
    }
    assert(pv.subrange(0, pv.len() as int) =~= pv);
    if !he_covered {
        let he = servers_for_asn(6939);
        if he.len() > 0 {
            let ghost before = r@;
            r.push(LgEntry { asn: 6939, as_name: owned("Hurricane Electric"), servers: he, is_reference: true });
            assert(r@.map_values(|e: LgEntry| entry_view(e)) =~= before.map_values(|e: LgEntry| entry_view(e)).push(
                entry_view(r@.last()),
            ));
        }
    }
    r
}

/// Title of an entry: "AS{asn} · {name}", marked when it is the reference.
pub open spec fn spec_entry_label(asn: u32, name: Seq<char>, is_reference: bool) -> Seq<char> {
    "AS"@ + decimal(asn as nat) + " · "@ + name + if is_reference {
        " (Tier-1 de référence)"@
    } else {
        Seq::empty()
    }
}

impl LgEntry {
    /// Title of the entry.
    pub fn label(&self) -> (s: String)
        ensures
            s@ == spec_entry_label(self.asn, self.as_name@, self.is_reference),
    {
        let mut out: Vec<char> = Vec::new();
        push_str(&mut out, "AS");
        push_decimal(&mut out, self.asn as u64);
        push_str(&mut out, " · ");
        push_str(&mut out, self.as_name.as_str());
        if self.is_reference {
            push_str(&mut out, " (Tier-1 de référence)");
        }
        assert(out@ =~= spec_entry_label(self.asn, self.as_name@, self.is_reference));
        string_from_chars(&out)
    }
}

/// The URL to open by hand for a server: its page, or for a server queried
/// by GET its URL with `{IP}` replaced by the user's IP.
pub open spec fn spec_manual_url(server: LgServer, ip: Seq<char>) -> Seq<char> {
    match server.method {
        QueryMethod::HttpGet { url_template } => replace_all(url_template@, "{IP}"@, ip),
        QueryMethod::Manual { url, .. } => url@,
    }
}

/// The URL to open by hand for a server, for the user's IP `ip`.
pub fn manual_url(server: &LgServer, ip: &str) -> (r: String)
    ensures
        r@ == spec_manual_url(*server, ip@),
{
    match server.method {
        QueryMethod::HttpGet { url_template } => {
            let t = chars_of(url_template);
            let p = chars_of("{IP}");
            let q = chars_of(ip);
            proof {
                reveal_strlit("{IP}");
            }
            let out = replace_chars(t.as_slice(), p.as_slice(), q.as_slice());
            string_from_chars(&out)
        },
        QueryMethod::Manual { url, .. } => owned(url),
    }
}

} // verus!
