//! AS lookup: what the library reads of the two lookup services (Team Cymru
//! whois in bulk, ipinfo.io as the fallback), and which addresses are never
//! looked up.

use vstd::prelude::*;
use crate::lg::query::first_char_from;
use crate::text::{
    chars_of, contains_chars, contains_seq, has_prefix, parse_unsigned, parse_unsigned_spec, split_at_char,
    split_chars, starts_with_chars, str_eq_chars, string_from_chars, trim_chars, trim_spec,
};
use crate::types::{AsInfo, IpAddress};

verus! {

/// The plain values of an `AsInfo`.
pub open spec fn as_info_view(a: AsInfo) -> (u32, Seq<char>, Option<Seq<char>>, Option<Seq<char>>) {
    (
        a.asn,
        a.name@,
        match a.country {
            Some(c) => Some(c@),
            None => None,
        },
        match a.prefix {
            Some(p) => Some(p@),
            None => None,
        },
    )
}

// ─── ipinfo.io ────────────────────────────────────────────────────────────────

/// The answer of ipinfo.io, as far as the lookup reads it:
/// `{ "org": "AS24940 Hetzner Online GmbH", "country": "DE", ... }`.
#[derive(Debug)]
pub struct IpInfoResponse {
    pub org: Option<String>,
    pub country: Option<String>,
}

/// The AS that an ipinfo.io answer gives: `org` must read "AS<number>",
/// then optionally a space and the name (trimmed).
pub open spec fn spec_into_as_info(org: Option<Seq<char>>, country: Option<Seq<char>>) -> Option<
    (u32, Seq<char>, Option<Seq<char>>, Option<Seq<char>>),
> {
    match org {
        None => None,
        Some(o) => if has_prefix(o, "AS"@) {
            let rest = o.subrange(2, o.len() as int);
            let (num, name) = match first_char_from(rest, ' ', 0) {
                Some(k) => (rest.subrange(0, k), trim_spec(rest.subrange(k + 1, rest.len() as int))),
                None => (rest, Seq::empty()),
            };
            match parse_unsigned_spec(num, u32::MAX as int) {
                Some(a) => Some((a as u32, name, country, None)),
                None => None,
            }
        } else {
            None
        },
    }
}

fn find_space(s: &Vec<char>) -> (r: Option<usize>)
    ensures
        match r {
            Some(i) => first_char_from(s@, ' ', 0) == Some(i as int) && i < s@.len(),
            None => first_char_from(s@, ' ', 0) is None,
        },
{
    let mut i: usize = 0;
    while i < s.len()
        invariant
            i <= s@.len(),
            first_char_from(s@, ' ', 0) == first_char_from(s@, ' ', i as int),
        decreases s@.len() - i,
    {
        if s[i] == ' ' {
            return Some(i);
        }
        i = i + 1;
    }
    None
}

fn slice_of(s: &Vec<char>, a: usize, b: usize) -> (r: Vec<char>)
    requires
        a <= b <= s@.len(),
    ensures
        r@ == s@.subrange(a as int, b as int),
{
    let mut r: Vec<char> = Vec::new();
    let mut i: usize = a;
    while i < b
        invariant
            a <= i <= b <= s@.len(),
            r@ == s@.subrange(a as int, i as int),
        decreases b - i,
    {
        r.push(s[i]);
        i = i + 1;
        assert(r@ =~= s@.subrange(a as int, i as int));
    }
    r
}

impl IpInfoResponse {
    /// The AS of the answer, when its `org` field names one.
    pub fn into_as_info(self) -> (r: Option<AsInfo>)
        ensures
            match spec_into_as_info(
                match self.org {
                    Some(o) => Some(o@),
                    None => None,
                },
                match self.country {
                    Some(c) => Some(c@),
                    None => None,
                },
            ) {
                Some(v) => r matches Some(a) && as_info_view(a) == v,
                None => r is None,
            },
    {
        let org = match &self.org {
            Some(o) => chars_of(o.as_str()),
            None => return None,
        };
        let prefix = chars_of("AS");
        if !starts_with_chars(org.as_slice(), prefix.as_slice()) {
            return None;
        }
        proof {
            reveal_strlit("AS");
        }
        let rest = slice_of(&org, 2, org.len());
        let (num, name) = match find_space(&rest) {
            Some(k) => {
                let tail = slice_of(&rest, k + 1, rest.len());
                (slice_of(&rest, 0, k), trim_chars(tail.as_slice()))
            },
            None => (rest.clone(), Vec::new()),
        };
        assert(num@ == (match first_char_from(rest@, ' ', 0) {
            Some(k) => rest@.subrange(0, k),
            None => rest@,
        }));
        match parse_unsigned(num.as_slice(), 0xffff_ffff) {
            Some(a) => Some(
                AsInfo { asn: a as u32, name: string_from_chars(&name), country: self.country, prefix: None },
            ),
            None => None,
        }
    }
}

// ─── Addresses never looked up ────────────────────────────────────────────────

/// The address is private, loopback, link-local, broadcast, documentation,
/// unspecified or shared (100.64.0.0/10) for IPv4; loopback, unspecified or
/// multicast for IPv6.
pub open spec fn spec_private_or_special(ip: IpAddress) -> bool {
    match ip {
        IpAddress::V4(v) => {
            let a = v / 0x100_0000;
            let b = (v / 0x1_0000) % 256;
            let c = (v / 256) % 256;
            ||| a == 10
            ||| (a == 172 && 16 <= b && b < 32)
            ||| (a == 192 && b == 168)
            ||| a == 127
            ||| (a == 169 && b == 254)
            ||| v == 0xffff_ffff
            ||| (a == 192 && b == 0 && c == 2)
            ||| (a == 198 && b == 51 && c == 100)
            ||| (a == 203 && b == 0 && c == 113)
            ||| v == 0
            ||| (a == 100 && 64 <= b && b < 128)
        },
        IpAddress::V6(v) => v == 1 || v == 0 || v / 0x0100_0000_0000_0000_0000_0000_0000_0000 == 0xff,
    }
}

/// Whether the address is one that no lookup service can resolve.
pub fn is_private_or_special(ip: &IpAddress) -> (r: bool)
    ensures
        r == spec_private_or_special(*ip),
{
    match ip {
        IpAddress::V4(v) => {
            let a = *v / 0x100_0000;
            let b = (*v / 0x1_0000) % 256;
            let c = (*v / 256) % 256;
            a == 10 || (a == 172 && 16 <= b && b < 32) || (a == 192 && b == 168) || a == 127 || (a == 169 && b == 254)
                || *v == 0xffff_ffff || (a == 192 && b == 0 && c == 2) || (a == 198 && b == 51 && c == 100) || (a
                == 203 && b == 0 && c == 113) || *v == 0 || (a == 100 && 64 <= b && b < 128)
        },
        IpAddress::V6(v) => *v == 1 || *v == 0 || *v / 0x0100_0000_0000_0000_0000_0000_0000_0000 == 0xff,
    }
}

/// `v` lies in the IPv4 block of `len` addresses starting at `start`.
pub open spec fn in_block(v: u32, start: int, len: int) -> bool {
    start <= v < start + len
}

/// The IPv4 addresses never looked up are exactly those of the blocks
/// 10.0.0.0/8, 172.16.0.0/12, 192.168.0.0/16 (private), 127.0.0.0/8
/// (loopback), 169.254.0.0/16 (link-local), 192.0.2.0/24, 198.51.100.0/24,
/// 203.0.113.0/24 (documentation), 100.64.0.0/10 (shared), and the
/// addresses 0.0.0.0 and 255.255.255.255; the IPv6 ones are ::, ::1 and the
/// multicast block ff00::/8.
pub proof fn lemma_special_addresses(v4: u32, v6: u128)
    ensures
        spec_private_or_special(IpAddress::V4(v4)) <==> (in_block(v4, 0x0a00_0000, 0x100_0000) || in_block(
            v4,
            0xac10_0000,
            0x10_0000,
        ) || in_block(v4, 0xc0a8_0000, 0x1_0000) || in_block(v4, 0x7f00_0000, 0x100_0000) || in_block(
            v4,
            0xa9fe_0000,
            0x1_0000,
        ) || in_block(v4, 0xc000_0200, 0x100) || in_block(v4, 0xc633_6400, 0x100) || in_block(
            v4,
            0xcb00_7100,
            0x100,
        ) || in_block(v4, 0x6440_0000, 0x40_0000) || v4 == 0 || v4 == 0xffff_ffff),
        spec_private_or_special(IpAddress::V6(v6)) <==> (v6 == 0 || v6 == 1 || v6
            >= 0xff00_0000_0000_0000_0000_0000_0000_0000),
{
    let a = v4 / 0x100_0000;
    let b = (v4 / 0x1_0000) % 256;
    let c = (v4 / 256) % 256;
    assert(v4 == a * 0x100_0000 + b * 0x1_0000 + c * 256 + v4 % 256) by (nonlinear_arith)
        requires
            a == v4 / 0x100_0000,
            b == (v4 / 0x1_0000) % 256,
            c == (v4 / 256) % 256,
    ;
    assert(0 <= b < 256 && 0 <= c < 256 && 0 <= v4 % 256 < 256 && 0 <= a < 256);
}

/// A bulk lookup answers `None` at once exactly for the addresses never
/// looked up, and looks up exactly the others.
pub proof fn lemma_bulk_split_law(ip: IpAddress)
    ensures
        (special_ip())(ip) == spec_private_or_special(ip),
        (public_ip())(ip) == !spec_private_or_special(ip),
{
}

// ─── Team Cymru bulk whois ────────────────────────────────────────────────────

/// One answer line of the Cymru verbose bulk whois:
/// `AS | IP | BGP Prefix | CC | Registry | Allocated | AS Name`.
#[derive(Debug)]
pub struct CymruRecord {
    /// The IP as written in the answer (read as an address by the caller).
    pub ip_text: String,
    pub info: AsInfo,
}

/// A field of the answer, absent when empty or "NA".
pub open spec fn opt_field(p: Seq<char>) -> Option<Seq<char>> {
    if p.len() == 0 || p == "NA"@ {
        None
    } else {
        Some(p)
    }
}

/// The trimmed fields of a line.
pub open spec fn fields_of(t: Seq<char>) -> Seq<Seq<char>> {
    split_at_char(t, '|').map_values(|f: Seq<char>| trim_spec(f))
}

/// What a trimmed answer line gives: nothing for headers, errors, short
/// lines and lines whose AS is not a number; else the IP text and the AS.
pub open spec fn cymru_line(t: Seq<char>) -> Option<(Seq<char>, (u32, Seq<char>, Option<Seq<char>>, Option<Seq<char>>))> {
    if t.len() == 0 || has_prefix(t, "Bulk"@) || has_prefix(t, "Error:"@) || (has_prefix(t, "AS "@) && contains_seq(
        t,
        "BGP Prefix"@,
    )) {
        None
    } else {
        let parts = fields_of(t);
        if parts.len() < 7 {
            None
        } else {
            match parse_unsigned_spec(parts[0], u32::MAX as int) {
                Some(a) => Some((parts[1], (a as u32, parts[6], opt_field(parts[3]), opt_field(parts[2])))),
                None => None,
            }
        }
    }
}

/// The records of a whole answer, line by line, in order.
pub open spec fn cymru_records(lines: Seq<Seq<char>>) -> Seq<(Seq<char>, (u32, Seq<char>, Option<Seq<char>>, Option<Seq<char>>))>
    decreases lines.len(),
{
    if lines.len() == 0 {
        Seq::empty()
    } else {
        let prev = cymru_records(lines.drop_last());
        match cymru_line(trim_spec(lines.last())) {
            Some(r) => prev.push(r),
            None => prev,
        }
    }
}

/// The plain values of a record.
pub open spec fn record_view(r: CymruRecord) -> (Seq<char>, (u32, Seq<char>, Option<Seq<char>>, Option<Seq<char>>)) {
    (r.ip_text@, as_info_view(r.info))
}

fn has_str(t: &[char], kw: &str) -> (r: bool)
    ensures
        r == contains_seq(t@, kw@),
{
    let k = chars_of(kw);
    contains_chars(t, k.as_slice())
}

fn starts(t: &[char], kw: &str) -> (r: bool)
    ensures
        r == has_prefix(t@, kw@),
{
    let k = chars_of(kw);
    starts_with_chars(t, k.as_slice())
}

fn field_opt(p: &Vec<char>) -> (r: Option<String>)
    ensures
        match opt_field(p@) {
            Some(f) => r matches Some(s) && s@ == f,
            None => r is None,
        },
{
    let na = chars_of("NA");
    if p.len() == 0 || str_eq_chars(p.as_slice(), na.as_slice()) {
        None
    } else {
        Some(string_from_chars(p))
    }
}

fn parse_cymru_line(t: &Vec<char>) -> (r: Option<CymruRecord>)
    ensures
        match cymru_line(t@) {
            Some(v) => r matches Some(x) && record_view(x) == v,
            None => r is None,
        },
{
    if t.len() == 0 || starts(t.as_slice(), "Bulk") || starts(t.as_slice(), "Error:") || (starts(t.as_slice(), "AS ")
        && has_str(t.as_slice(), "BGP Prefix")) {
        return None;
    }
    let raw = split_chars(t.as_slice(), '|');
    let mut parts: Vec<Vec<char>> = Vec::new();
    let mut i: usize = 0;
    while i < raw.len()
        invariant
            i <= raw@.len(),
            raw@.map_values(|v: Vec<char>| v@) == split_at_char(t@, '|'),
            parts@.map_values(|v: Vec<char>| v@) == split_at_char(t@, '|').subrange(0, i as int).map_values(
                |f: Seq<char>| trim_spec(f),
            ),
        decreases raw@.len() - i,
    {
        let ghost before = parts@.map_values(|v: Vec<char>| v@);
        assert(raw@.map_values(|v: Vec<char>| v@)[i as int] == raw@[i as int]@);
        assert(split_at_char(t@, '|')[i as int] == raw@[i as int]@);
        let piece = trim_chars(raw[i].as_slice());
        parts.push(piece);
        assert(parts@.map_values(|v: Vec<char>| v@) =~= before.push(trim_spec(split_at_char(t@, '|')[i as int])));
        assert(parts@.map_values(|v: Vec<char>| v@) =~= split_at_char(t@, '|').subrange(0, i + 1).map_values(
            |f: Seq<char>| trim_spec(f),
        ));
        i = i + 1;
    }
    assert(split_at_char(t@, '|').subrange(0, raw@.len() as int) =~= split_at_char(t@, '|'));
    let ghost pv = parts@.map_values(|v: Vec<char>| v@);
    assert(pv =~= fields_of(t@));
    if parts.len() < 7 {
        return None;
    }
    assert(pv[0] == parts@[0]@ && pv[1] == parts@[1]@ && pv[2] == parts@[2]@ && pv[3] == parts@[3]@ && pv[6]
        == parts@[6]@);
    match parse_unsigned(parts[0].as_slice(), 0xffff_ffff) {
        Some(a) => Some(
            CymruRecord {
                ip_text: string_from_chars(&parts[1]),
                info: AsInfo {
                    asn: a as u32,
                    name: string_from_chars(&parts[6]),
                    country: field_opt(&parts[3]),
                    prefix: field_opt(&parts[2]),
                },
            },
        ),
        None => None,
    }
}

/// Reads the answer of the Cymru verbose bulk whois: one record per line
/// that names an AS, in order (headers, errors and unknown ASes skipped).
pub fn parse_cymru_response(response: &str) -> (r: Vec<CymruRecord>)
    ensures
        r@.map_values(|x: CymruRecord| record_view(x)) == cymru_records(split_at_char(response@, '\n')),
{
    let cs = chars_of(response);
    let lines = split_chars(cs.as_slice(), '\n');
    let ghost lv = lines@.map_values(|v: Vec<char>| v@);
    let mut r: Vec<CymruRecord> = Vec::new();
    let mut i: usize = 0;
    while i < lines.len()
        invariant
            i <= lines@.len(),
            lv == lines@.map_values(|v: Vec<char>| v@),
            r@.map_values(|x: CymruRecord| record_view(x)) == cymru_records(lv.subrange(0, i as int)),
        decreases lines@.len() - i,
    {
        proof {
            assert(lv.subrange(0, i + 1).drop_last() =~= lv.subrange(0, i as int));
            assert(lv[i as int] == lines@[i as int]@);
        }
        let t = trim_chars(lines[i].as_slice());
        let ghost before = r@.map_values(|x: CymruRecord| record_view(x));
        match parse_cymru_line(&t) {
            Some(rec) => {
                r.push(rec);
                assert(r@.map_values(|x: CymruRecord| record_view(x)) =~= before.push(record_view(r@.last())));
            },
            None => {},
        }
        i = i + 1;
    }
    assert(lv.subrange(0, lv.len() as int) =~= lv);
    r
}

/// The address is private or special.
pub open spec fn special_ip() -> spec_fn(IpAddress) -> bool {
    |ip: IpAddress| spec_private_or_special(ip)
}

/// The address is public.
pub open spec fn public_ip() -> spec_fn(IpAddress) -> bool {
    |ip: IpAddress| !spec_private_or_special(ip)
}

/// The addresses of a bulk lookup, split: those answered `None` at once
/// (private or special ranges), and those to look up (in a cache, then by
/// query), each in the order given.
#[derive(Debug)]
pub struct BulkPlan {
    pub answered_none: Vec<IpAddress>,
    pub to_look_up: Vec<IpAddress>,
}

/// Splits the addresses of a bulk lookup: private and special addresses
/// are answered `None` without a query, the others are to be looked up.
/// Every address lands in exactly one of the two lists.
pub fn plan_bulk_lookup(ips: &Vec<IpAddress>) -> (p: BulkPlan)
    ensures
        p.answered_none@ == ips@.filter(special_ip()),
        p.to_look_up@ == ips@.filter(public_ip()),
        p.answered_none@.len() + p.to_look_up@.len() == ips@.len(),
{
    let mut answered_none: Vec<IpAddress> = Vec::new();
    let mut to_look_up: Vec<IpAddress> = Vec::new();
    let mut i: usize = 0;
    while i < ips.len()
        invariant
            i <= ips@.len(),
            answered_none@ == ips@.subrange(0, i as int).filter(special_ip()),
            to_look_up@ == ips@.subrange(0, i as int).filter(public_ip()),
            answered_none@.len() + to_look_up@.len() == i,
        decreases ips@.len() - i,
    {
        proof {
            assert(ips@.subrange(0, i + 1) =~= ips@.subrange(0, i as int).push(ips@[i as int]));
            ips@.subrange(0, i as int).lemma_filter_push(ips@[i as int], special_ip());
            ips@.subrange(0, i as int).lemma_filter_push(ips@[i as int], public_ip());
        }
        let ip = ips[i];
        if is_private_or_special(&ip) {
            answered_none.push(ip);
        } else {
            to_look_up.push(ip);
        }
        i = i + 1;
    }
    assert(ips@.subrange(0, ips@.len() as int) =~= ips@);
    BulkPlan { answered_none, to_look_up }
}

/// The fields `f` joined by '|'.
pub open spec fn join_pipes(f: Seq<Seq<char>>) -> Seq<char>
    decreases f.len(),
{
    if f.len() <= 1 {
        if f.len() == 1 {
            f[0]
        } else {
            Seq::empty()
        }
    } else {
        join_pipes(f.drop_last()) + seq!['|'] + f.last()
    }
}

/// `x` holds no '|'.
pub open spec fn pipe_free(x: Seq<char>) -> bool {
    forall|k: int| 0 <= k < x.len() ==> x[k] != '|'
}

proof fn lemma_split_pipe_free(x: Seq<char>)
    requires
        pipe_free(x),
    ensures
        split_at_char(x, '|') == seq![x],
    decreases x.len(),
{
    if x.len() > 0 {
        lemma_split_pipe_free(x.drop_last());
        assert(pipe_free(x.drop_last()));
        assert(x.drop_last().push(x.last()) =~= x);
    } else {
        assert(x =~= Seq::<char>::empty());
    }
}

proof fn lemma_split_after_pipe(a: Seq<char>, b: Seq<char>)
    requires
        pipe_free(b),
    ensures
        split_at_char(a + seq!['|'] + b, '|') == split_at_char(a, '|').push(b),
    decreases b.len(),
{
    if b.len() == 0 {
        assert(a + seq!['|'] + b =~= a.push('|'));
        assert((a.push('|')).drop_last() =~= a);
        assert(b =~= Seq::<char>::empty());
    } else {
        let c = b.drop_last();
        assert(pipe_free(c));
        lemma_split_after_pipe(a, c);
        assert((a + seq!['|'] + b).drop_last() =~= a + seq!['|'] + c);
        assert((a + seq!['|'] + b).last() == b.last());
        assert(c.push(b.last()) =~= b);
        crate::text::lemma_split_nonempty(a, '|');
    }
}

proof fn lemma_split_join(f: Seq<Seq<char>>)
    requires
        f.len() >= 1,
        forall|k: int| 0 <= k < f.len() ==> pipe_free(#[trigger] f[k]),
    ensures
        split_at_char(join_pipes(f), '|') == f,
    decreases f.len(),
{
    if f.len() == 1 {
        lemma_split_pipe_free(f[0]);
        assert(f =~= seq![f[0]]);
    } else {
        let g = f.drop_last();
        assert forall|k: int| 0 <= k < g.len() implies pipe_free(#[trigger] g[k]) by {
            assert(g[k] == f[k]);
        }
        lemma_split_join(g);
        assert(pipe_free(f[f.len() - 1]));
        lemma_split_after_pipe(join_pipes(g), f.last());
        assert(g.push(f.last()) =~= f);
    }
}

/// How one answer line of the Cymru bulk whois is read, over its seven
/// '|'-separated fields (each already trimmed and free of '|'), the first a
/// decimal AS number that fits in 32 bits: the record gives the IP of the
/// second field, the AS number, the AS name of the seventh field, the
/// country of the fourth and the BGP prefix of the third, a country or
/// prefix that is empty or "NA" being absent.
pub proof fn lemma_cymru_line_fields(f: Seq<Seq<char>>, asn: nat)
    requires
        f.len() == 7,
        forall|k: int| 0 <= k < 7 ==> pipe_free(#[trigger] f[k]) && trim_spec(f[k]) == f[k],
        f[0].len() > 0,
        forall|k: int| 0 <= k < f[0].len() ==> '0' <= #[trigger] f[0][k] <= '9',
        parse_unsigned_spec(f[0], u32::MAX as int) == Some(asn),
    ensures
        cymru_line(join_pipes(f)) == Some(
            (
                f[1],
                (
                    asn as u32,
                    f[6],
                    if f[3].len() == 0 || f[3] == seq!['N', 'A'] {
                        None
                    } else {
                        Some(f[3])
                    },
                    if f[2].len() == 0 || f[2] == seq!['N', 'A'] {
                        None
                    } else {
                        Some(f[2])
                    },
                ),
            ),
        ),
{
    let t = join_pipes(f);
    lemma_split_join(f);
    assert(fields_of(t) =~= f);
    lemma_join_starts(f);
    reveal_strlit("Bulk");
    reveal_strlit("Error:");
    reveal_strlit("AS ");
    reveal_strlit("NA");
    assert("NA"@ =~= seq!['N', 'A']);
    assert(t.len() > 0);
    assert(!has_prefix(t, "Bulk"@)) by {
        if has_prefix(t, "Bulk"@) {
            assert(t.subrange(0, 4)[0] == 'B');
        }
    }
    assert(!has_prefix(t, "Error:"@)) by {
        if has_prefix(t, "Error:"@) {
            assert(t.subrange(0, 6)[0] == 'E');
        }
    }
    assert(!has_prefix(t, "AS "@)) by {
        if has_prefix(t, "AS "@) {
            assert(t.subrange(0, 3)[0] == 'A');
        }
    }
}

proof fn lemma_join_starts(f: Seq<Seq<char>>)
    requires
        f.len() >= 1,
        f[0].len() > 0,
    ensures
        join_pipes(f).len() > 0,
        join_pipes(f)[0] == f[0][0],
    decreases f.len(),
{
    if f.len() > 1 {
        let g = f.drop_last();
        assert(g[0] == f[0]);
        lemma_join_starts(g);
    }
}

proof fn lemma_first_char_at(s: Seq<char>, c: char, from: int, n: int)
    requires
        0 <= from <= n <= s.len(),
        forall|k: int| from <= k < n ==> s[k] != c,
    ensures
        first_char_from(s, c, from) == (if n < s.len() && s[n] == c {
            Some(n)
        } else if n == s.len() {
            None
        } else {
            first_char_from(s, c, n)
        }),
    decreases n - from,
{
    if from < n {
        lemma_first_char_at(s, c, from + 1, n);
    }
}

/// How an ipinfo.io `org` field is read: "AS" then a decimal AS number that
/// fits in 32 bits, then optionally a space and the (trimmed) AS name, gives
/// that number and name with the answer's country and no prefix; a field
/// that does not start with "AS", or no field, gives nothing.
pub proof fn lemma_ipinfo_org_law(num: Seq<char>, name: Seq<char>, country: Option<Seq<char>>, asn: nat)
    requires
        num.len() > 0,
        forall|k: int| 0 <= k < num.len() ==> '0' <= #[trigger] num[k] <= '9',
        parse_unsigned_spec(num, u32::MAX as int) == Some(asn),
        trim_spec(name) == name,
    ensures
        spec_into_as_info(Some(seq!['A', 'S'] + num + seq![' '] + name), country) == Some(
            (asn as u32, name, country, None::<Seq<char>>),
        ),
        spec_into_as_info(Some(seq!['A', 'S'] + num), country) == Some(
            (asn as u32, Seq::<char>::empty(), country, None::<Seq<char>>),
        ),
        forall|o: Seq<char>|
            !(o.len() >= 2 && o[0] == 'A' && o[1] == 'S') ==> #[trigger] spec_into_as_info(Some(o), country) is None,
        spec_into_as_info(None, country) is None,
{
    reveal_strlit("AS");
    assert("AS"@ =~= seq!['A', 'S']);
    let o1 = seq!['A', 'S'] + num + seq![' '] + name;
    let r1 = o1.subrange(2, o1.len() as int);
    assert(r1 =~= num + seq![' '] + name);
    assert(has_prefix(o1, "AS"@)) by {
        assert(o1.subrange(0, 2) =~= seq!['A', 'S']);
    }
    lemma_first_char_at(r1, ' ', 0, num.len() as int);
    assert(r1.subrange(0, num.len() as int) =~= num);
    assert(r1.subrange(num.len() as int + 1, r1.len() as int) =~= name);
    let o2 = seq!['A', 'S'] + num;
    let r2 = o2.subrange(2, o2.len() as int);
    assert(r2 =~= num);
    assert(has_prefix(o2, "AS"@)) by {
        assert(o2.subrange(0, 2) =~= seq!['A', 'S']);
    }
    lemma_first_char_at(r2, ' ', 0, num.len() as int);
    assert forall|o: Seq<char>| !(o.len() >= 2 && o[0] == 'A' && o[1] == 'S') implies #[trigger] spec_into_as_info(
        Some(o),
        country,
    ) is None by {
        if has_prefix(o, "AS"@) {
            assert(o.subrange(0, 2)[0] == 'A' && o.subrange(0, 2)[1] == 'S');
        }
    }
}

/// The records of an answer are those of its lines, in order: the records
/// of two runs of lines one after the other are the records of the first
/// followed by those of the second; a line that reads "Bulk…" or "Error:…"
/// (once trimmed), or an empty line, gives none.
pub proof fn lemma_cymru_records_law(a: Seq<Seq<char>>, b: Seq<Seq<char>>, t: Seq<char>)
    ensures
        cymru_records(a + b) == cymru_records(a) + cymru_records(b),
        (t.len() == 0 || (t.len() >= 4 && t.subrange(0, 4) == seq!['B', 'u', 'l', 'k']) || (t.len() >= 6 && t.subrange(
            0,
            6,
        ) == seq!['E', 'r', 'r', 'o', 'r', ':'])) ==> cymru_line(t) is None,
    decreases b.len(),
{
    if b.len() > 0 {
        lemma_cymru_records_law(a, b.drop_last(), t);
        assert((a + b).drop_last() =~= a + b.drop_last());
        assert((a + b).last() == b.last());
    } else {
        assert(a + b =~= a);
        assert(cymru_records(a) + cymru_records(b) =~= cymru_records(a));
    }
    reveal_strlit("Bulk");
    reveal_strlit("Error:");
    assert("Bulk"@ =~= seq!['B', 'u', 'l', 'k']);
    assert("Error:"@ =~= seq!['E', 'r', 'r', 'o', 'r', ':']);
}

} // verus!
