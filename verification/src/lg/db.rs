//! Static base of the public looking-glass servers, by ASN.
//!
//! A server is queried either by an HTTP GET whose answer is parsed
//! directly, or by hand through its web interface, for which the URL and
//! instructions are given to the user. The base covers the Tier-1 and large
//! transit carriers common on Europe ↔ North America paths.

use vstd::prelude::*;

verus! {

/// How a looking-glass server is queried.
#[derive(Debug, Clone, Copy, PartialEq, Eq)]
pub enum QueryMethod {
    /// HTTP GET; `{IP}` in the template is replaced by the user's IP.
    HttpGet { url_template: &'static str },
    /// Web interface that cannot be queried automatically: URL and
    /// instructions for a human.
    Manual { url: &'static str, note: &'static str },
}

/// A looking-glass server.
#[derive(Debug, Clone, Copy, PartialEq, Eq)]
pub struct LgServer {
    pub asn: u32,
    pub as_name: &'static str,
    /// Location of the node, e.g. "Frankfurt", "New York".
    pub node: &'static str,
    pub method: QueryMethod,
}

/// The whole base, in its order.
pub open spec fn lg_db_spec() -> Seq<LgServer> {
    seq![
        LgServer {
            asn: 6939,
            as_name: "Hurricane Electric",
            node: "Frankfurt / Amsterdam / London",
            method: QueryMethod::Manual {
                url: "https://lg.he.net/",
                note: "Sélectionner : Traceroute → nœud FRA, AMS ou LON → saisir l'IP",
            },
        },
        LgServer {
            asn: 6939,
            as_name: "Hurricane Electric",
            node: "New York / Los Angeles",
            method: QueryMethod::Manual {
                url: "https://lg.he.net/",
                note: "Sélectionner : Traceroute → nœud NYC ou LAX → saisir l'IP",
            },
        },
        LgServer {
            asn: 6453,
            as_name: "TATA Communications",
            node: "Paris / Frankfurt",
            method: QueryMethod::Manual {
                url: "https://looking.tatacommunications.com/",
                note: "Sélectionner : Traceroute → nœud Paris ou Frankfurt → saisir l'IP",
            },
        },
        LgServer {
            asn: 174,
            as_name: "Cogent",
            node: "Paris / Frankfurt",
            method: QueryMethod::Manual {
                url: "http://lg.cogentco.com/",
                note: "Sélectionner : nœud Paris ou Frankfurt → Traceroute → saisir l'IP",
            },
        },
        LgServer {
            asn: 3356,
            as_name: "Lumen (Level3)",
            node: "Paris / Frankfurt",
            method: QueryMethod::Manual {
                url: "https://lookingglass.centurylink.net/",
                note: "Sélectionner : Traceroute → nœud Paris ou Frankfurt → saisir l'IP",
            },
        },
        LgServer {
            asn: 1299,
            as_name: "Arelion (Telia)",
            node: "Frankfurt",
            method: QueryMethod::Manual {
                url: "https://lg.arelion.com/",
                note: "Sélectionner : Traceroute → nœud Frankfurt → saisir l'IP",
            },
        },
        LgServer {
            asn: 2914,
            as_name: "NTT",
            node: "Frankfurt",
            method: QueryMethod::Manual {
                url: "https://www.gin.ntt.net/support/looking-glass/",
                note: "Sélectionner : Traceroute → nœud Frankfurt → saisir l'IP",
            },
        },
        LgServer {
            asn: 3257,
            as_name: "GTT",
            node: "Frankfurt",
            method: QueryMethod::Manual {
                url: "https://lg.gtt.net/",
                note: "Sélectionner : Traceroute → nœud Frankfurt → saisir l'IP",
            },
        },
        LgServer {
            asn: 6461,
            as_name: "Zayo",
            node: "Frankfurt",
            method: QueryMethod::Manual {
                url: "https://lg.zayo.com/",
                note: "Sélectionner : Traceroute → nœud Frankfurt → saisir l'IP",
            },
        },
        LgServer {
            asn: 6762,
            as_name: "Telecom Italia Sparkle",
            node: "Frankfurt",
            method: QueryMethod::Manual {
                url: "https://www.tisparkle.com/our-business/business-products/looking-glass",
                note: "Sélectionner : Traceroute → nœud Frankfurt → saisir l'IP",
            },
        },
        LgServer {
            asn: 3491,
            as_name: "PCCW Global",
            node: "Frankfurt",
            method: QueryMethod::Manual {
                url: "https://www.pccwglobal.com/en/network/looking-glass",
                note: "Sélectionner : Traceroute → nœud Frankfurt → saisir l'IP",
            },
        },
        LgServer {
            asn: 8220,
            as_name: "Colt",
            node: "Paris / Frankfurt",
            method: QueryMethod::Manual {
                url: "https://lg.colt.net/",
                note: "Sélectionner : Traceroute → nœud Paris ou Frankfurt → saisir l'IP",
            },
        },
        LgServer {
            asn: 9002,
            as_name: "RETN",
            node: "Frankfurt",
            method: QueryMethod::Manual {
                url: "https://lg.retn.net/",
                note: "Sélectionner : Traceroute → nœud Frankfurt → saisir l'IP",
            },
        },
    ]
}

/// The whole base.
pub fn lg_db() -> (v: Vec<LgServer>)
    ensures
        v@ == lg_db_spec(),
{
    let mut v: Vec<LgServer> = Vec::new();
    v.push(
        LgServer {
            asn: 6939,
            as_name: "Hurricane Electric",
            node: "Frankfurt / Amsterdam / London",
            method: QueryMethod::Manual {
                url: "https://lg.he.net/",
                note: "Sélectionner : Traceroute → nœud FRA, AMS ou LON → saisir l'IP",
            },
        },
    );
    v.push(
        LgServer {
            asn: 6939,
            as_name: "Hurricane Electric",
            node: "New York / Los Angeles",
            method: QueryMethod::Manual {
                url: "https://lg.he.net/",
                note: "Sélectionner : Traceroute → nœud NYC ou LAX → saisir l'IP",
            },
        },
    );
    v.push(
        LgServer {
            asn: 6453,
            as_name: "TATA Communications",
            node: "Paris / Frankfurt",
            method: QueryMethod::Manual {
                url: "https://looking.tatacommunications.com/",
                note: "Sélectionner : Traceroute → nœud Paris ou Frankfurt → saisir l'IP",
            },
        },
    );
    v.push(
        LgServer {
            asn: 174,
            as_name: "Cogent",
            node: "Paris / Frankfurt",
            method: QueryMethod::Manual {
                url: "http://lg.cogentco.com/",
                note: "Sélectionner : nœud Paris ou Frankfurt → Traceroute → saisir l'IP",
            },
        },
    );
    v.push(
        LgServer {
            asn: 3356,
            as_name: "Lumen (Level3)",
            node: "Paris / Frankfurt",
            method: QueryMethod::Manual {
                url: "https://lookingglass.centurylink.net/",
                note: "Sélectionner : Traceroute → nœud Paris ou Frankfurt → saisir l'IP",
            },
        },
    );
    v.push(
        LgServer {
            asn: 1299,
            as_name: "Arelion (Telia)",
            node: "Frankfurt",
            method: QueryMethod::Manual {
                url: "https://lg.arelion.com/",
                note: "Sélectionner : Traceroute → nœud Frankfurt → saisir l'IP",
            },
        },
    );
    v.push(
        LgServer {
            asn: 2914,
            as_name: "NTT",
            node: "Frankfurt",
            method: QueryMethod::Manual {
                url: "https://www.gin.ntt.net/support/looking-glass/",
                note: "Sélectionner : Traceroute → nœud Frankfurt → saisir l'IP",
            },
        },
    );
    v.push(
        LgServer {
            asn: 3257,
            as_name: "GTT",
            node: "Frankfurt",
            method: QueryMethod::Manual {
                url: "https://lg.gtt.net/",
                note: "Sélectionner : Traceroute → nœud Frankfurt → saisir l'IP",
            },
        },
    );
    v.push(
        LgServer {
            asn: 6461,
            as_name: "Zayo",
            node: "Frankfurt",
            method: QueryMethod::Manual {
                url: "https://lg.zayo.com/",
                note: "Sélectionner : Traceroute → nœud Frankfurt → saisir l'IP",
            },
        },
    );
    v.push(
        LgServer {
            asn: 6762,
            as_name: "Telecom Italia Sparkle",
            node: "Frankfurt",
            method: QueryMethod::Manual {
                url: "https://www.tisparkle.com/our-business/business-products/looking-glass",
                note: "Sélectionner : Traceroute → nœud Frankfurt → saisir l'IP",
            },
        },
    );
    v.push(
        LgServer {
            asn: 3491,
            as_name: "PCCW Global",
            node: "Frankfurt",
            method: QueryMethod::Manual {
                url: "https://www.pccwglobal.com/en/network/looking-glass",
                note: "Sélectionner : Traceroute → nœud Frankfurt → saisir l'IP",
            },
        },
    );
    v.push(
        LgServer {
            asn: 8220,
            as_name: "Colt",
            node: "Paris / Frankfurt",
            method: QueryMethod::Manual {
                url: "https://lg.colt.net/",
                note: "Sélectionner : Traceroute → nœud Paris ou Frankfurt → saisir l'IP",
            },
        },
    );
    v.push(
        LgServer {
            asn: 9002,
            as_name: "RETN",
            node: "Frankfurt",
            method: QueryMethod::Manual {
                url: "https://lg.retn.net/",
                note: "Sélectionner : Traceroute → nœud Frankfurt → saisir l'IP",
            },
        },
    );
    proof {
        assert(v@ =~= lg_db_spec());
    }
    v
}

/// `srv` is a server of the ASN `asn`.
pub open spec fn serves_asn(asn: u32) -> spec_fn(LgServer) -> bool {
    |srv: LgServer| srv.asn == asn
}

/// `srv` can be queried automatically.
pub open spec fn is_auto() -> spec_fn(LgServer) -> bool {
    |srv: LgServer| srv.method is HttpGet
}

/// All the known looking-glass servers for an ASN, in the order of the base.
pub fn servers_for_asn(asn: u32) -> (r: Vec<LgServer>)
    ensures
        r@ == lg_db_spec().filter(serves_asn(asn)),
{
    let db = lg_db();
    let mut r: Vec<LgServer> = Vec::new();
    let mut i: usize = 0;
    while i < db.len()
        invariant
            i <= db@.len(),
            db@ == lg_db_spec(),
            r@ == db@.subrange(0, i as int).filter(serves_asn(asn)),
        decreases db@.len() - i,
    {
        proof {
            assert(db@.subrange(0, i + 1).drop_last() =~= db@.subrange(0, i as int));
            reveal(Seq::filter);
        }
        if db[i].asn == asn {
            r.push(db[i]);
        }
        i = i + 1;
    }
    proof {
        assert(db@.subrange(0, db@.len() as int) =~= db@);
    }
    r
}

/// All the servers of the base that can be queried automatically (HTTP GET).
pub fn auto_servers() -> (r: Vec<LgServer>)
    ensures
        r@ == lg_db_spec().filter(is_auto()),
{
    let db = lg_db();
    let mut r: Vec<LgServer> = Vec::new();
    let mut i: usize = 0;
    while i < db.len()
        invariant
            i <= db@.len(),
            db@ == lg_db_spec(),
            r@ == db@.subrange(0, i as int).filter(is_auto()),
        decreases db@.len() - i,
    {
        proof {
            assert(db@.subrange(0, i + 1).drop_last() =~= db@.subrange(0, i as int));
            reveal(Seq::filter);
        }
        match db[i].method {
            QueryMethod::HttpGet { .. } => r.push(db[i]),
            QueryMethod::Manual { .. } => {},
        }
        i = i + 1;
    }
    proof {
        assert(db@.subrange(0, db@.len() as int) =~= db@);
    }
    r
}

/// No server of the base can be queried automatically: every entry is
/// consulted by hand through its web interface.
pub proof fn lemma_no_auto_servers()
    ensures
        lg_db_spec().filter(is_auto()).len() == 0,
{
    let db = lg_db_spec();
    assert forall|i: int| 0 <= i < db.len() implies !(is_auto())(db[i]) by {}
    lemma_filter_none(db, is_auto());
}

/// A filter that keeps no element of `s` is empty.
proof fn lemma_filter_none<A>(s: Seq<A>, pred: spec_fn(A) -> bool)
    requires
        forall|i: int| 0 <= i < s.len() ==> !pred(#[trigger] s[i]),
    ensures
        s.filter(pred).len() == 0,
    decreases s.len(),
{
    reveal(Seq::filter);
    if s.len() > 0 {
        assert forall|i: int| 0 <= i < s.drop_last().len() implies !pred(#[trigger] s.drop_last()[i]) by {
            assert(s.drop_last()[i] == s[i]);
        }
        lemma_filter_none(s.drop_last(), pred);
    }
}

} // verus!
