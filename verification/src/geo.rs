//! Where a path goes: cities recognised in router hostnames, detours, and
//! the AS path of a traceroute.

use vstd::prelude::*;
use crate::text::{chars_of, contains_chars, contains_seq, owned};
use crate::types::Hop;

verus! {

/// What `str::to_lowercase` makes of a string.
pub uninterp spec fn lowercase(s: Seq<char>) -> Seq<char>;

/// Lower-cases `s` with `str::to_lowercase` (Unicode case mapping; the result
/// is named, not described: it depends on `s` alone).
#[verifier::external_body]
pub(crate) fn to_lower(s: &str) -> (r: String)
    ensures
        r@ == lowercase(s@),
{
    s.to_lowercase()
}

/// What `str::to_uppercase` makes of a string.
pub uninterp spec fn uppercase(s: Seq<char>) -> Seq<char>;

/// Upper-cases `s` with `str::to_uppercase` (Unicode case mapping; the result
/// is named, not described: it depends on `s` alone).
#[verifier::external_body]
pub(crate) fn to_upper(s: &str) -> (r: String)
    ensures
        r@ == uppercase(s@),
{
    s.to_uppercase()
}

/// Keywords of router hostnames and the city each stands for, looked up in
/// this order to choose where the return path is measured from.
pub open spec fn city_keywords() -> Seq<(&'static str, &'static str)> {
    seq![
        ("njy", "Newark"),
        ("newark", "Newark"),
        ("ewr", "Newark"),
        ("nto", "New York"),
        ("nyc", "New York"),
        ("newyork", "New York"),
        ("jfk", "New York"),
        ("lax", "Los Angeles"),
        ("losangeles", "Los Angeles"),
        ("chi", "Chicago"),
        ("chicago", "Chicago"),
        ("ord", "Chicago"),
        ("ash", "Ashburn"),
        ("ashburn", "Ashburn"),
        ("iad", "Ashburn"),
        ("dfw", "Dallas"),
        ("dallas", "Dallas"),
        ("sfo", "San Francisco"),
        ("sjc", "San Jose"),
        ("sea", "Seattle"),
        ("seattle", "Seattle"),
        ("mia", "Miami"),
        ("miami", "Miami"),
        ("atl", "Atlanta"),
        ("atlanta", "Atlanta"),
        ("fra", "Frankfurt"),
        ("frankfurt", "Frankfurt"),
        ("ams", "Amsterdam"),
        ("amsterdam", "Amsterdam"),
        ("lon", "London"),
        ("london", "London"),
        ("lhr", "London"),
        ("par", "Paris"),
        ("paris", "Paris"),
        ("pye", "Paris"),
        ("sin", "Singapore"),
        ("singapore", "Singapore"),
        ("tyo", "Tokyo"),
        ("tokyo", "Tokyo"),
        ("hkg", "Hong Kong"),
        ("hongkong", "Hong Kong"),
    ]
}

fn city_keywords_vec() -> (v: Vec<(&'static str, &'static str)>)
    ensures
        v@ == city_keywords(),
{
    let mut v: Vec<(&'static str, &'static str)> = Vec::new();
    v.push(("njy", "Newark"));
    v.push(("newark", "Newark"));
    v.push(("ewr", "Newark"));
    v.push(("nto", "New York"));
    v.push(("nyc", "New York"));
    v.push(("newyork", "New York"));
    v.push(("jfk", "New York"));
    v.push(("lax", "Los Angeles"));
    v.push(("losangeles", "Los Angeles"));
    v.push(("chi", "Chicago"));
    v.push(("chicago", "Chicago"));
    v.push(("ord", "Chicago"));
    v.push(("ash", "Ashburn"));
    v.push(("ashburn", "Ashburn"));
    v.push(("iad", "Ashburn"));
    v.push(("dfw", "Dallas"));
    v.push(("dallas", "Dallas"));
    v.push(("sfo", "San Francisco"));
    v.push(("sjc", "San Jose"));
    v.push(("sea", "Seattle"));
    v.push(("seattle", "Seattle"));
    v.push(("mia", "Miami"));
    v.push(("miami", "Miami"));
    v.push(("atl", "Atlanta"));
    v.push(("atlanta", "Atlanta"));
    v.push(("fra", "Frankfurt"));
    v.push(("frankfurt", "Frankfurt"));
    v.push(("ams", "Amsterdam"));
    v.push(("amsterdam", "Amsterdam"));
    v.push(("lon", "London"));
    v.push(("london", "London"));
    v.push(("lhr", "London"));
    v.push(("par", "Paris"));
    v.push(("paris", "Paris"));
    v.push(("pye", "Paris"));
    v.push(("sin", "Singapore"));
    v.push(("singapore", "Singapore"));
    v.push(("tyo", "Tokyo"));
    v.push(("tokyo", "Tokyo"));
    v.push(("hkg", "Hong Kong"));
    v.push(("hongkong", "Hong Kong"));
    assert(v@ =~= city_keywords());
    v
}

/// Keywords of router hostnames and the city each stands for, looked up in
/// this order to find the Speedtest servers close to the path.
pub open spec fn hint_keywords() -> Seq<(&'static str, &'static str)> {
    seq![
        ("newark", "Newark"),
        ("njy", "Newark"),
        ("newyork", "New York"),
        ("nto", "New York"),
        ("chicago", "Chicago"),
        ("chi", "Chicago"),
        ("ashburn", "Ashburn"),
        ("ash", "Ashburn"),
        ("losangeles", "Los Angeles"),
        ("lax", "Los Angeles"),
        ("dallas", "Dallas"),
        ("dfw", "Dallas"),
        ("london", "London"),
        ("ldn", "London"),
        ("paris", "Paris"),
        ("pvu", "Paris"),
        ("pye", "Paris"),
        ("frankfurt", "Frankfurt"),
        ("fra", "Frankfurt"),
        ("amsterdam", "Amsterdam"),
        ("ams", "Amsterdam"),
    ]
}

fn hint_keywords_vec() -> (v: Vec<(&'static str, &'static str)>)
    ensures
        v@ == hint_keywords(),
{
    let mut v: Vec<(&'static str, &'static str)> = Vec::new();
    v.push(("newark", "Newark"));
    v.push(("njy", "Newark"));
    v.push(("newyork", "New York"));
    v.push(("nto", "New York"));
    v.push(("chicago", "Chicago"));
    v.push(("chi", "Chicago"));
    v.push(("ashburn", "Ashburn"));
    v.push(("ash", "Ashburn"));
    v.push(("losangeles", "Los Angeles"));
    v.push(("lax", "Los Angeles"));
    v.push(("dallas", "Dallas"));
    v.push(("dfw", "Dallas"));
    v.push(("london", "London"));
    v.push(("ldn", "London"));
    v.push(("paris", "Paris"));
    v.push(("pvu", "Paris"));
    v.push(("pye", "Paris"));
    v.push(("frankfurt", "Frankfurt"));
    v.push(("fra", "Frankfurt"));
    v.push(("amsterdam", "Amsterdam"));
    v.push(("ams", "Amsterdam"));
    assert(v@ =~= hint_keywords());
    v
}

/// The city of the first keyword of `table` that occurs in `lower`.
pub open spec fn first_city(table: Seq<(&'static str, &'static str)>, lower: Seq<char>) -> Option<Seq<char>>
    decreases table.len(),
{
    if table.len() == 0 {
        None
    } else if contains_seq(lower, table[0].0@) {
        Some(table[0].1@)
    } else {
        first_city(table.drop_first(), lower)
    }
}

fn first_city_exec(table: &Vec<(&'static str, &'static str)>, lower: &[char]) -> (r: Option<&'static str>)
    ensures
        match first_city(table@, lower@) {
            Some(c) => r matches Some(s) && s@ == c,
            None => r is None,
        },
{
    let mut i: usize = 0;
    assert(table@.subrange(0, table@.len() as int) =~= table@);
    while i < table.len()
        invariant
            i <= table@.len(),
            first_city(table@, lower@) == first_city(table@.subrange(i as int, table@.len() as int), lower@),
        decreases table@.len() - i,
    {
        let ghost rest = table@.subrange(i as int, table@.len() as int);
        assert(rest[0] == table@[i as int]);
        let kw = chars_of(table[i].0);
        if contains_chars(lower, kw.as_slice()) {
            return Some(table[i].1);
        }
        assert(rest.drop_first() =~= table@.subrange(i + 1, table@.len() as int));
        i = i + 1;
    }
    None
}

/// The city of the last hop (in path order) whose lower-cased hostname holds
/// a keyword of `table`.
pub open spec fn city_from_hops(table: Seq<(&'static str, &'static str)>, hops: Seq<Hop>) -> Option<Seq<char>>
    decreases hops.len(),
{
    if hops.len() == 0 {
        None
    } else {
        let found = match hops.last().hostname {
            Some(h) => first_city(table, lowercase(h@)),
            None => None,
        };
        match found {
            Some(c) => Some(c),
            None => city_from_hops(table, hops.drop_last()),
        }
    }
}

fn city_from_hops_exec(table: &Vec<(&'static str, &'static str)>, hops: &[Hop]) -> (r: Option<String>)
    ensures
        match city_from_hops(table@, hops@) {
            Some(c) => r matches Some(s) && s@ == c,
            None => r is None,
        },
{
    let mut n: usize = hops.len();
    assert(hops@.subrange(0, n as int) =~= hops@);
    while n > 0
        invariant
            n <= hops@.len(),
            city_from_hops(table@, hops@) == city_from_hops(table@, hops@.subrange(0, n as int)),
        decreases n,
    {
        let ghost pre = hops@.subrange(0, n as int);
        assert(pre.last() == hops@[n - 1]);
        assert(pre.drop_last() =~= hops@.subrange(0, n - 1));
        match &hops[n - 1].hostname {
            Some(h) => {
                let lower = chars_of(to_lower(h.as_str()).as_str());
                match first_city_exec(table, lower.as_slice()) {
                    Some(c) => return Some(owned(c)),
                    None => {},
                }
            },
            None => {},
        }
        n = n - 1;
    }
    None
}

/// The city the path reaches last, recognised from the hostnames of its hops
/// (used to choose where the return path is measured from).
pub fn detect_city_from_hops(hops: &[Hop]) -> (r: Option<String>)
    ensures
        match city_from_hops(city_keywords(), hops@) {
            Some(c) => r matches Some(s) && s@ == c,
            None => r is None,
        },
{
    let table = city_keywords_vec();
    city_from_hops_exec(&table, hops)
}

/// The city the path reaches last, from a shorter list of keywords (used to
/// look for Speedtest servers close to the path).
pub fn detect_geo_hint(hops: &[Hop]) -> (r: Option<String>)
    ensures
        match city_from_hops(hint_keywords(), hops@) {
            Some(c) => r matches Some(s) && s@ == c,
            None => r is None,
        },
{
    let table = hint_keywords_vec();
    city_from_hops_exec(&table, hops)
}

/// `c` separates the labels of a hostname ('.', '-' or '_').
pub open spec fn is_label_sep(c: char) -> bool {
    c == '.' || c == '-' || c == '_'
}

/// The labels of a hostname, split at each separator (empty labels kept).
pub open spec fn labels(s: Seq<char>) -> Seq<Seq<char>>
    decreases s.len(),
{
    if s.len() == 0 {
        seq![Seq::empty()]
    } else {
        let prev = labels(s.drop_last());
        if is_label_sep(s.last()) {
            prev.push(Seq::empty())
        } else {
            prev.update(prev.len() - 1, prev.last().push(s.last()))
        }
    }
}

proof fn lemma_labels_nonempty(s: Seq<char>)
    ensures
        labels(s).len() >= 1,
    decreases s.len(),
{
    if s.len() > 0 {
        lemma_labels_nonempty(s.drop_last());
    }
}

/// Whether `code` is a whole label of `hostname` (so that "fra" is found in
/// "ae1.fra2" but not in "infra" or "france").
pub fn hostname_has_code(hostname: &str, code: &str) -> (r: bool)
    ensures
        r == labels(hostname@).contains(code@),
{
    let cs = chars_of(hostname);
    let code_cs = chars_of(code);
    let mut cur: Vec<char> = Vec::new();
    let mut found = false;
    let mut i: usize = 0;
    proof {
        assert(cs@.subrange(0, 0) =~= Seq::<char>::empty());
        assert(labels(Seq::<char>::empty()) =~= seq![Seq::<char>::empty()]);
    }
    while i < cs.len()
        invariant
            i <= cs@.len(),
            code_cs@ == code@,
            cs@ == hostname@,
            labels(cs@.subrange(0, i as int)).len() >= 1,
            cur@ == labels(cs@.subrange(0, i as int)).last(),
            found == labels(cs@.subrange(0, i as int)).drop_last().contains(code@),
        decreases cs@.len() - i,
    {
        let ghost prev = labels(cs@.subrange(0, i as int));
        assert(cs@.subrange(0, i + 1).drop_last() =~= cs@.subrange(0, i as int));
        let c = cs[i];
        if c == '.' || c == '-' || c == '_' {
            let same = crate::text::str_eq_chars(cur.as_slice(), code_cs.as_slice());
            proof {
                let next = labels(cs@.subrange(0, i + 1));
                assert(next == prev.push(Seq::empty()));
                assert(next.drop_last() =~= prev);
                assert(prev =~= prev.drop_last().push(prev.last()));
                if prev.contains(code@) {
                    let k = choose|k: int| 0 <= k < prev.len() && prev[k] == code@;
                    if k < prev.len() - 1 {
                        assert(prev.drop_last()[k] == code@);
                    }
                }
                if prev.drop_last().contains(code@) {
                    let k = choose|k: int| 0 <= k < prev.drop_last().len() && prev.drop_last()[k] == code@;
                    assert(prev[k] == code@);
                }
            }
            if same {
                found = true;
            }
            cur = Vec::new();
        } else {
            cur.push(c);
            proof {
                let next = labels(cs@.subrange(0, i + 1));
                assert(next.drop_last() =~= prev.drop_last());
            }
        }
        i = i + 1;
    }
    assert(cs@.subrange(0, cs@.len() as int) =~= cs@);
    let last_same = crate::text::str_eq_chars(cur.as_slice(), code_cs.as_slice());
    proof {
        let all = labels(cs@);
        assert(all =~= all.drop_last().push(all.last()));
        if all.contains(code@) {
            let k = choose|k: int| 0 <= k < all.len() && all[k] == code@;
            if k < all.len() - 1 {
                assert(all.drop_last()[k] == code@);
            }
        }
        if all.drop_last().contains(code@) {
            let k = choose|k: int| 0 <= k < all.drop_last().len() && all.drop_last()[k] == code@;
            assert(all[k] == code@);
        }
    }
    found || last_same
}

/// The city that a lower-cased hostname names, if any, on either path
/// ("fra" and "ams" only as whole labels, so that "infra" or "france" do not
/// name Frankfurt).
pub open spec fn host_city(l: Seq<char>) -> Option<Seq<char>> {
    if contains_seq(l, "paris"@) || contains_seq(l, "pvu"@) || contains_seq(l, "pye"@) {
        Some("Paris"@)
    } else if contains_seq(l, "london"@) || contains_seq(l, "ldn"@) || contains_seq(l, "lhr"@) {
        Some("Londres"@)
    } else if contains_seq(l, "frankfurt"@) || labels(l).contains("fra"@) {
        Some("Frankfurt"@)
    } else if contains_seq(l, "amsterdam"@) || labels(l).contains("ams"@) {
        Some("Amsterdam"@)
    } else if contains_seq(l, "newark"@) || contains_seq(l, "njy"@) {
        Some("Newark"@)
    } else if contains_seq(l, "newyork"@) || contains_seq(l, "nto"@) {
        Some("New York"@)
    } else if contains_seq(l, "ashburn"@) {
        Some("Ashburn"@)
    } else {
        None
    }
}

fn has(l: &[char], kw: &str) -> (r: bool)
    ensures
        r == contains_seq(l@, kw@),
{
    let k = chars_of(kw);
    contains_chars(l, k.as_slice())
}

fn host_city_exec(lower: &str) -> (r: Option<&'static str>)
    ensures
        match host_city(lower@) {
            Some(c) => r matches Some(x) && x@ == c,
            None => r is None,
        },
{
    let l = chars_of(lower);
    let l = l.as_slice();
    if has(l, "paris") || has(l, "pvu") || has(l, "pye") {
        Some("Paris")
    } else if has(l, "london") || has(l, "ldn") || has(l, "lhr") {
        Some("Londres")
    } else if has(l, "frankfurt") || hostname_has_code(lower, "fra") {
        Some("Frankfurt")
    } else if has(l, "amsterdam") || hostname_has_code(lower, "ams") {
        Some("Amsterdam")
    } else if has(l, "newark") || has(l, "njy") {
        Some("Newark")
    } else if has(l, "newyork") || has(l, "nto") {
        Some("New York")
    } else if has(l, "ashburn") {
        Some("Ashburn")
    } else {
        None
    }
}

/// The cities named along a path, in order, from the optional hostnames of
/// its hops.
pub open spec fn city_sequence(hosts: Seq<Option<Seq<char>>>) -> Seq<Seq<char>>
    decreases hosts.len(),
{
    if hosts.len() == 0 {
        Seq::empty()
    } else {
        let prev = city_sequence(hosts.drop_last());
        match hosts.last() {
            Some(h) => match host_city(lowercase(h)) {
                Some(c) => prev.push(c),
                None => prev,
            },
            None => prev,
        }
    }
}

/// Cities `i < j < k` form a detour: the path leaves a city and comes back.
pub open spec fn is_detour(c: Seq<Seq<char>>, i: int, j: int, k: int) -> bool {
    0 <= i < j < k < c.len() && c[i] == c[k] && c[i] != c[j]
}

/// `(i, j, k)` comes before `(a, b, d)` in lexicographic order.
pub open spec fn lex_before(i: int, j: int, k: int, a: int, b: int, d: int) -> bool {
    i < a || (i == a && j < b) || (i == a && j == b && k < d)
}

/// The first detour in lexicographic order of its three positions.
pub open spec fn first_detour(c: Seq<Seq<char>>) -> Option<(Seq<char>, Seq<char>, Seq<char>)> {
    if exists|i: int, j: int, k: int| is_detour(c, i, j, k) {
        let (i, j, k) = choose|i: int, j: int, k: int|
            is_detour(c, i, j, k) && forall|a: int, b: int, d: int|
                lex_before(a, b, d, i, j, k) ==> !is_detour(c, a, b, d);
        Some((c[i], c[j], c[k]))
    } else {
        None
    }
}

proof fn lemma_lex_min_exists(c: Seq<Seq<char>>, i: int, j: int, k: int)
    requires
        is_detour(c, i, j, k),
        forall|a: int, b: int, d: int| lex_before(a, b, d, i, j, k) ==> !is_detour(c, a, b, d),
    ensures
        first_detour(c) == Some((c[i], c[j], c[k])),
{
    let (x, y, z) = choose|x: int, y: int, z: int|
        is_detour(c, x, y, z) && forall|a: int, b: int, d: int| lex_before(a, b, d, x, y, z) ==> !is_detour(c, a, b, d);
    if lex_before(x, y, z, i, j, k) {
        assert(!is_detour(c, x, y, z));
    } else if lex_before(i, j, k, x, y, z) {
        assert(!is_detour(c, i, j, k));
    }
    assert(x == i && y == j && z == k);
}

fn find_detour(c: &Vec<String>) -> (r: Option<(String, String, String)>)
    ensures
        match first_detour(c@.map_values(|s: String| s@)) {
            Some((a, b, d)) => r matches Some(t) && t.0@ == a && t.1@ == b && t.2@ == d,
            None => r is None,
        },
{
    let ghost v = c@.map_values(|s: String| s@);
    let n = c.len();
    let mut i: usize = 0;
    while i < n
        invariant
            n == c@.len(),
            v == c@.map_values(|s: String| s@),
            i <= n,
            forall|a: int, b: int, d: int| #![trigger is_detour(v, a, b, d)] a < i ==> !is_detour(v, a, b, d),
        decreases n - i,
    {
        let mut j: usize = i + 1;
        while j < n
            invariant
                n == c@.len(),
                v == c@.map_values(|s: String| s@),
                i < n,
                i + 1 <= j <= n,
                forall|a: int, b: int, d: int| #![trigger is_detour(v, a, b, d)] a < i ==> !is_detour(v, a, b, d),
                forall|b: int, d: int| #![trigger is_detour(v, i as int, b, d)] b < j ==> !is_detour(v, i as int, b, d),
            decreases n - j,
        {
            let mut k: usize = j + 1;
            while k < n
                invariant
                    n == c@.len(),
                    v == c@.map_values(|s: String| s@),
                    i < j < n,
                    j + 1 <= k <= n,
                    forall|a: int, b: int, d: int| #![trigger is_detour(v, a, b, d)] a < i ==> !is_detour(v, a, b, d),
                    forall|b: int, d: int| #![trigger is_detour(v, i as int, b, d)] b < j ==> !is_detour(v, i as int, b, d),
                    forall|d: int| #![trigger is_detour(v, i as int, j as int, d)] d < k ==> !is_detour(v, i as int, j as int, d),
                decreases n - k,
            {
                let same_ac = crate::text::str_eq(c[i].as_str(), c[k].as_str());
                let same_ab = crate::text::str_eq(c[i].as_str(), c[j].as_str());
                if same_ac && !same_ab {
                    proof {
                        assert(v[i as int] == c@[i as int]@ && v[j as int] == c@[j as int]@ && v[k as int] == c@[k as int]@);
                        assert(is_detour(v, i as int, j as int, k as int));
                        assert forall|a: int, b: int, d: int| lex_before(a, b, d, i as int, j as int, k as int) implies !is_detour(v, a, b, d) by {
                            if a < i {
                            } else if a == i && b < j {
                            } else {
                            }
                        }
                        lemma_lex_min_exists(v, i as int, j as int, k as int);
                    }
                    return Some((c[i].clone(), c[j].clone(), c[k].clone()));
                }
                proof {
                    assert(v[i as int] == c@[i as int]@ && v[j as int] == c@[j as int]@ && v[k as int] == c@[k as int]@);
                    assert(!is_detour(v, i as int, j as int, k as int));
                }
                k = k + 1;
            }
            proof {
                assert forall|d: int| #![trigger is_detour(v, i as int, j as int, d)] !is_detour(v, i as int, j as int, d) by {
                    if d < k {
                    }
                }
            }
            j = j + 1;
        }
        proof {
            assert forall|b: int, d: int| #![trigger is_detour(v, i as int, b, d)] !is_detour(v, i as int, b, d) by {
                if b < j {
                }
            }
        }
        i = i + 1;
    }
    proof {
        assert forall|a: int, b: int, d: int| !is_detour(v, a, b, d) by {
            if a < i {
            }
        }
    }
    None
}

/// The views of optional strings.
pub open spec fn opt_views(v: Seq<Option<String>>) -> Seq<Option<Seq<char>>> {
    v.map_values(|o: Option<String>| match o {
        Some(s) => Some(s@),
        None => None,
    })
}

fn cities_of(hosts: &Vec<Option<String>>) -> (r: Vec<String>)
    ensures
        r@.map_values(|s: String| s@) == city_sequence(opt_views(hosts@)),
{
    let mut r: Vec<String> = Vec::new();
    let mut i: usize = 0;
    while i < hosts.len()
        invariant
            i <= hosts@.len(),
            r@.map_values(|s: String| s@) == city_sequence(opt_views(hosts@.subrange(0, i as int))),
        decreases hosts@.len() - i,
    {
        proof {
            assert(opt_views(hosts@.subrange(0, i + 1)).drop_last() =~= opt_views(hosts@.subrange(0, i as int)));
        }
        let ghost before = r@;
        match &hosts[i] {
            Some(h) => {
                let lower = to_lower(h.as_str());
                let city = host_city_exec(lower.as_str());
                match city {
                    Some(c) => {
                        r.push(owned(c));
                        assert(r@.map_values(|s: String| s@) =~= before.map_values(|s: String| s@).push(c@));
                    },
                    None => {},
                }
            },
            None => {},
        }
        i = i + 1;
    }
    assert(hosts@.subrange(0, hosts@.len() as int) =~= hosts@);
    r
}

/// Looks for a detour on the forward path: a city that the path leaves for
/// another one and then comes back to (A → B → A), from the hostnames of the
/// hops; the first such triple in path order. The cities are read as on the
/// return path ("fra" and "ams" only as whole hostname labels).
pub fn detect_geo_detour(hosts: &Vec<Option<String>>) -> (r: Option<(String, String, String)>)
    ensures
        match first_detour(city_sequence(opt_views(hosts@))) {
            Some((a, b, d)) => r matches Some(t) && t.0@ == a && t.1@ == b && t.2@ == d,
            None => r is None,
        },
{
    let cities = cities_of(hosts);
    find_detour(&cities)
}

/// Looks for a detour on the return path: the same check as on the forward
/// path.
pub fn detect_return_detour(hosts: &Vec<Option<String>>) -> (r: Option<(String, String, String)>)
    ensures
        match first_detour(city_sequence(opt_views(hosts@))) {
            Some((a, b, d)) => r matches Some(t) && t.0@ == a && t.1@ == b && t.2@ == d,
            None => r is None,
        },
{
    let cities = cities_of(hosts);
    find_detour(&cities)
}

proof fn lemma_lex_min(c: Seq<Seq<char>>, i: int, j: int, k: int)
    requires
        is_detour(c, i, j, k),
    ensures
        exists|x: int, y: int, z: int|
            is_detour(c, x, y, z) && forall|a: int, b: int, d: int| lex_before(a, b, d, x, y, z) ==> !is_detour(c, a, b, d),
    decreases i, j, k,
{
    if exists|a: int, b: int, d: int| lex_before(a, b, d, i, j, k) && is_detour(c, a, b, d) {
        let (a, b, d) = choose|a: int, b: int, d: int| lex_before(a, b, d, i, j, k) && is_detour(c, a, b, d);
        lemma_lex_min(c, a, b, d);
    }
}

/// A detour is reported only when the path leaves a city for another one and
/// comes back to it: the first and last cities are the same and differ from
/// the middle one.
pub proof fn lemma_detour_shape(c: Seq<Seq<char>>)
    ensures
        match first_detour(c) {
            Some((a, b, d)) => a == d && a != b,
            None => forall|i: int, j: int, k: int| !is_detour(c, i, j, k),
        },
{
    if exists|i: int, j: int, k: int| is_detour(c, i, j, k) {
        let (i, j, k) = choose|i: int, j: int, k: int| is_detour(c, i, j, k);
        lemma_lex_min(c, i, j, k);
    }
}

/// A lower-cased hostname names a US city of the forward path.
pub open spec fn us_host_forward(l: Seq<char>) -> bool {
    contains_seq(l, "newark"@) || contains_seq(l, "njy"@) || contains_seq(l, "newyork"@) || contains_seq(l, "nto"@)
        || contains_seq(l, "chicago"@) || contains_seq(l, "ashburn"@)
}

/// A lower-cased hostname names a US city of the return path.
pub open spec fn us_host_return(l: Seq<char>) -> bool {
    us_host_forward(l) || contains_seq(l, "losangeles"@) || contains_seq(l, "dallas"@)
}

/// A hop is in the US, by its hostname (lower-cased) or the country of its AS.
pub open spec fn hop_in_us(host: Option<Seq<char>>, country: Option<Seq<char>>, forward: bool) -> bool {
    (match host {
        Some(h) => if forward {
            us_host_forward(lowercase(h))
        } else {
            us_host_return(lowercase(h))
        },
        None => false,
    }) || country == Some("US"@)
}

/// Whether some hop of the path is in the US: its hostname names a US city
/// or its AS is registered there (`forward` selects the city list of the
/// forward path; the return path also knows Los Angeles and Dallas).
pub fn crosses_to_us(hosts: &Vec<Option<String>>, countries: &Vec<Option<String>>, forward: bool) -> (r: bool)
    requires
        hosts@.len() == countries@.len(),
    ensures
        r == exists|i: int|
            0 <= i < hosts@.len() && hop_in_us(
                #[trigger] opt_views(hosts@)[i],
                opt_views(countries@)[i],
                forward,
            ),
{
    let mut i: usize = 0;
    while i < hosts.len()
        invariant
            i <= hosts@.len() == countries@.len(),
            forall|k: int| 0 <= k < i ==> !hop_in_us(#[trigger] opt_views(hosts@)[k], opt_views(countries@)[k], forward),
        decreases hosts@.len() - i,
    {
        let by_host = match &hosts[i] {
            Some(h) => {
                let l = chars_of(to_lower(h.as_str()).as_str());
                let l = l.as_slice();
                let fwd = has(l, "newark") || has(l, "njy") || has(l, "newyork") || has(l, "nto") || has(l, "chicago")
                    || has(l, "ashburn");
                if forward {
                    fwd
                } else {
                    fwd || has(l, "losangeles") || has(l, "dallas")
                }
            },
            None => false,
        };
        let by_country = match &countries[i] {
            Some(c) => crate::text::str_eq(c.as_str(), "US"),
            None => false,
        };
        assert(opt_views(hosts@)[i as int] == match hosts@[i as int] {
            Some(s) => Some(s@),
            None => None::<Seq<char>>,
        });
        assert(opt_views(countries@)[i as int] == match countries@[i as int] {
            Some(s) => Some(s@),
            None => None::<Seq<char>>,
        });
        if by_host || by_country {
            return true;
        }
        i = i + 1;
    }
    false
}

} // verus!
