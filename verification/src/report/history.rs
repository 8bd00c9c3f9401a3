//! Reading back stored runs: timestamps, verdicts and the parameters of the
//! history queries.

use vstd::prelude::*;
use crate::geo::{to_upper, uppercase};
use crate::text::{
    chars_of, decimal, owned, parse_i64, parse_i64_spec, parse_unsigned, parse_unsigned_spec, push_decimal,
    push_str, str_eq, string_from_chars,
};

verus! {

/// Index of the first `c` in `s`.
pub open spec fn first_index_of(s: Seq<char>, c: char) -> Option<int> {
    if exists|i: int| 0 <= i < s.len() && s[i] == c {
        Some(choose|i: int| 0 <= i < s.len() && s[i] == c && forall|k: int| 0 <= k < i ==> s[k] != c)
    } else {
        None
    }
}

/// The number written by the two characters of `s` at `i` and `i + 1`.
pub open spec fn field_number(s: Seq<char>, i: int) -> Option<int> {
    if 0 <= i && i + 1 < s.len() {
        match parse_unsigned_spec(s.subrange(i, i + 2), 255) {
            Some(v) => Some(v as int),
            None => None,
        }
    } else {
        None
    }
}

/// The first '+' or '-' of `s` at index `j` or later.
pub open spec fn zone_start(s: Seq<char>, j: int) -> Option<int>
    decreases s.len() - j,
{
    if j < 0 || j >= s.len() {
        None
    } else if s[j] == '+' || s[j] == '-' {
        Some(j)
    } else {
        zone_start(s, j + 1)
    }
}

/// The offset from UTC, in minutes, written after the time that starts at
/// the 'T' at `k` ("+HH:MM" or "-HH:MM"; none, as in "Z", is 0).
pub open spec fn offset_minutes(s: Seq<char>, k: int) -> int {
    match zone_start(s, k + 1) {
        Some(j) => match field_number(s, j + 1) {
            Some(oh) => {
                let om = match field_number(s, j + 4) {
                    Some(v) => v,
                    None => 0,
                };
                if s[j] == '-' {
                    -(oh * 60 + om)
                } else {
                    oh * 60 + om
                }
            },
            None => 0,
        },
        None => 0,
    }
}

/// The UTC hour (0-23) of an RFC 3339 timestamp: the local hour and minute
/// after the first 'T', minus the offset from UTC, taken around the day; 0
/// when the hour cannot be read or is not below 24 (minutes that cannot be
/// read, or above 59, count as 0).
pub open spec fn spec_hour_from_ts(ts: Seq<char>) -> u8 {
    match first_index_of(ts, 'T') {
        Some(k) => match field_number(ts, k + 1) {
            Some(h) => if h <= 23 {
                let m = match field_number(ts, k + 4) {
                    Some(v) => if v <= 59 { v } else { 0 },
                    None => 0,
                };
                (((h * 60 + m - offset_minutes(ts, k)) % 1440) / 60) as u8
            } else {
                0
            },
            None => 0,
        },
        None => 0,
    }
}

fn field_number_exec(cs: &Vec<char>, i: usize) -> (r: Option<u64>)
    ensures
        match field_number(cs@, i as int) {
            Some(v) => r == Some(v as u64),
            None => r is None,
        },
{
    if i < cs.len() && cs.len() - i > 1 {
        let two = vec![cs[i], cs[i + 1]];
        assert(two@ =~= cs@.subrange(i as int, i + 2));
        parse_unsigned(two.as_slice(), 255)
    } else {
        None
    }
}

fn offset_minutes_exec(cs: &Vec<char>, k: usize) -> (r: i64)
    requires
        k < cs@.len(),
    ensures
        r == offset_minutes(cs@, k as int),
        -15555 <= r <= 15555,
{
    let n = cs.len();
    let mut j: usize = k + 1;
    while j < n
        invariant
            k < j <= cs@.len(),
            n == cs@.len(),
            zone_start(cs@, k + 1) == zone_start(cs@, j as int),
        decreases cs@.len() - j,
    {
        if cs[j] == '+' || cs[j] == '-' {
            let oh = match field_number_exec(cs, j + 1) {
                Some(v) => v,
                None => return 0,
            };
            let om: u64 = if n - j > 5 {
                match field_number_exec(cs, j + 4) {
                    Some(v) => v,
                    None => 0,
                }
            } else {
                0
            };
            let mag: i64 = (oh * 60 + om) as i64;
            return if cs[j] == '-' { -mag } else { mag };
        }
        j = j + 1;
    }
    0
}

/// `s` holds no '+' or '-'.
pub open spec fn signless(s: Seq<char>) -> bool {
    forall|k: int| 0 <= k < s.len() ==> s[k] != '+' && s[k] != '-'
}

proof fn lemma_zone_start_skips(s: Seq<char>, j: int, e: int)
    requires
        0 <= j <= e <= s.len(),
        forall|k: int| j <= k < e ==> s[k] != '+' && s[k] != '-',
    ensures
        zone_start(s, j) == (if e < s.len() {
            zone_start(s, e)
        } else {
            None
        }),
    decreases e - j,
{
    if j < e {
        lemma_zone_start_skips(s, j + 1, e);
    }
}

proof fn lemma_first_t(d: Seq<char>, ts: Seq<char>)
    requires
        forall|k: int| 0 <= k < d.len() ==> d[k] != 'T',
        d.len() < ts.len(),
        ts.subrange(0, d.len() as int) == d,
        ts[d.len() as int] == 'T',
    ensures
        first_index_of(ts, 'T') == Some(d.len() as int),
{
    let n = d.len() as int;
    assert forall|k: int| 0 <= k < n implies ts[k] != 'T' by {
        assert(ts.subrange(0, n)[k] == ts[k]);
    }
    assert(0 <= n < ts.len() && ts[n] == 'T' && forall|k: int| 0 <= k < n ==> ts[k] != 'T');
    let c = choose|i: int| 0 <= i < ts.len() && ts[i] == 'T' && forall|k: int| 0 <= k < i ==> ts[k] != 'T';
    if c < n {
        assert(ts[c] != 'T');
    } else if c > n {
        assert(ts[n] != 'T');
    }
}

/// The UTC hour of a timestamp "…THH:MM…" whose time carries no offset
/// (such as "Z") is its hour HH, whatever precedes the 'T' (with no 'T' in
/// it) and whatever follows the minutes (with no sign in it).
pub proof fn lemma_hour_without_offset(d: Seq<char>, hh: Seq<char>, mm: Seq<char>, rest: Seq<char>, h: nat, m: nat)
    requires
        forall|k: int| 0 <= k < d.len() ==> d[k] != 'T',
        hh.len() == 2 && mm.len() == 2 && signless(hh) && signless(mm) && signless(rest),
        parse_unsigned_spec(hh, 255) == Some(h) && h < 24,
        parse_unsigned_spec(mm, 255) == Some(m) && m < 60,
    ensures
        spec_hour_from_ts(d + seq!['T'] + hh + seq![':'] + mm + rest) == h,
{
    let ts = d + seq!['T'] + hh + seq![':'] + mm + rest;
    let n = d.len() as int;
    assert(ts.subrange(0, n) =~= d);
    lemma_first_t(d, ts);
    assert(ts.subrange(n + 1, n + 3) =~= hh);
    assert(ts.subrange(n + 4, n + 6) =~= mm);
    lemma_zone_start_skips(ts, n + 1, ts.len() as int);
    assert(offset_minutes(ts, n) == 0);
    assert((h * 60 + m - 0) % 1440 == h * 60 + m);
    assert((h * 60 + m) / 60 == h) by (nonlinear_arith)
        requires
            m < 60,
    ;
}

/// The UTC hour of a timestamp "…THH:MM…±OH:OM…" is the local time minus the
/// offset, taken around the day: ((HH·60 + MM ∓ (OH·60 + OM)) mod 1440) / 60.
#[verifier::rlimit(80)]
pub proof fn lemma_hour_with_offset(
    d: Seq<char>,
    hh: Seq<char>,
    mm: Seq<char>,
    z: Seq<char>,
    sign: char,
    oh: Seq<char>,
    om: Seq<char>,
    tail: Seq<char>,
    h: nat,
    m: nat,
    a: nat,
    b: nat,
)
    requires
        forall|k: int| 0 <= k < d.len() ==> d[k] != 'T',
        hh.len() == 2 && mm.len() == 2 && signless(hh) && signless(mm) && signless(z),
        sign == '+' || sign == '-',
        oh.len() == 2 && om.len() == 2,
        parse_unsigned_spec(hh, 255) == Some(h) && h < 24,
        parse_unsigned_spec(mm, 255) == Some(m) && m < 60,
        parse_unsigned_spec(oh, 255) == Some(a),
        parse_unsigned_spec(om, 255) == Some(b),
    ensures
        spec_hour_from_ts(
            d + seq!['T'] + hh + seq![':'] + mm + z + seq![sign] + oh + seq![':'] + om + tail,
        ) == ((h * 60 + m - (if sign == '-' {
            -(a * 60 + b)
        } else {
            (a * 60 + b) as int
        })) % 1440) / 60,
{
    let ts = d + seq!['T'] + hh + seq![':'] + mm + z + seq![sign] + oh + seq![':'] + om + tail;
    let n = d.len() as int;
    let j = n + 6 + z.len();
    assert(ts.subrange(0, n) =~= d);
    lemma_first_t(d, ts);
    assert(ts.subrange(n + 1, n + 3) =~= hh);
    assert(ts.subrange(n + 4, n + 6) =~= mm);
    assert forall|k: int| n + 1 <= k < j implies ts[k] != '+' && ts[k] != '-' by {
        if k < n + 3 {
            assert(ts[k] == hh[k - n - 1]);
        } else if k == n + 3 {
        } else if k < n + 6 {
            assert(ts[k] == mm[k - n - 4]);
        } else {
            assert(ts[k] == z[k - n - 6]);
        }
    }
    lemma_zone_start_skips(ts, n + 1, j);
    assert(ts[j] == sign);
    assert(zone_start(ts, j) == Some(j));
    assert(ts.subrange(j + 1, j + 3) =~= oh);
    assert(ts.subrange(j + 4, j + 6) =~= om);
    assert(field_number(ts, n + 1) == Some(h as int));
    assert(field_number(ts, n + 4) == Some(m as int));
    assert(field_number(ts, j + 1) == Some(a as int));
    assert(field_number(ts, j + 4) == Some(b as int));
    assert(offset_minutes(ts, n) == (if sign == '-' {
        -(a * 60 + b)
    } else {
        (a * 60 + b) as int
    }));
    let t = (h * 60 + m - (if sign == '-' {
        -(a * 60 + b)
    } else {
        (a * 60 + b) as int
    })) % 1440;
    assert(0 <= t < 1440);
    assert(0 <= t / 60 < 24);
}

/// The UTC hour (0-23) of an RFC 3339 timestamp, 0 when it cannot be read.
pub fn hour_from_ts(ts: &str) -> (h: u8)
    ensures
        h == spec_hour_from_ts(ts@),
        h <= 23,
{
    let cs = chars_of(ts);
    let mut i: usize = 0;
    while i < cs.len()
        invariant
            cs@ == ts@,
            i <= cs@.len(),
            forall|k: int| 0 <= k < i ==> cs@[k] != 'T',
        decreases cs@.len() - i,
    {
        if cs[i] == 'T' {
            proof {
                let c = choose|j: int| 0 <= j < cs@.len() && cs@[j] == 'T' && forall|k: int| 0 <= k < j ==> cs@[k] != 'T';
                if c < i {
                } else if c > i {
                    assert(cs@[i as int] != 'T');
                }
                assert(first_index_of(ts@, 'T') == Some(i as int));
            }
            let hh = match field_number_exec(&cs, i + 1) {
                Some(v) => v,
                None => return 0,
            };
            if hh > 23 {
                return 0;
            }
            let mm: u64 = if cs.len() - i > 5 {
                match field_number_exec(&cs, i + 4) {
                    Some(v) => if v <= 59 { v } else { 0 },
                    None => 0,
                }
            } else {
                0
            };
            let off = offset_minutes_exec(&cs, i);
            let t: i64 = (hh * 60 + mm) as i64 - off + 28800;
            let r: i64 = (t % 1440) / 60;
            proof {
                let tt = hh * 60 + mm - off;
                assert(t == tt + 1440 * 20);
                assert((tt + 1440 * 20) % 1440 == tt % 1440) by (nonlinear_arith);
            }
            return r as u8;
        }
        i = i + 1;
    }
    0
}

// ─── Stored report payloads ───────────────────────────────────────────────────

/// A finding of a stored report, as far as the history reads it.
#[derive(Debug)]
pub struct FindingView {
    pub severity: Option<String>,
    pub description: Option<String>,
}

/// A stored report (its JSON payload), as far as the history reads it.
#[derive(Debug)]
pub struct PayloadView {
    /// `verdict.status`, when it is a string.
    pub status: Option<String>,
    /// `findings`, when it is an array.
    pub findings: Option<Vec<FindingView>>,
}

/// The plain values of a finding.
pub open spec fn finding_plain(f: FindingView) -> (Option<Seq<char>>, Option<Seq<char>>) {
    (
        match f.severity {
            Some(s) => Some(s@),
            None => None,
        },
        match f.description {
            Some(s) => Some(s@),
            None => None,
        },
    )
}

/// The plain values of a payload.
pub open spec fn payload_plain(p: Option<PayloadView>) -> Option<
    (Option<Seq<char>>, Option<Seq<(Option<Seq<char>>, Option<Seq<char>>)>>),
> {
    match p {
        Some(v) => Some(
            (
                match v.status {
                    Some(s) => Some(s@),
                    None => None,
                },
                match v.findings {
                    Some(fs) => Some(fs@.map_values(|f: FindingView| finding_plain(f))),
                    None => None,
                },
            ),
        ),
        None => None,
    }
}

/// What `serde_json` reads of a report payload: `None` when it is not valid
/// JSON; else the string at `verdict.status` and, when `findings` is an
/// array, the `severity` and `description` strings of each of its elements.
pub uninterp spec fn parsed_payload(payload: Seq<char>) -> Option<
    (Option<Seq<char>>, Option<Seq<(Option<Seq<char>>, Option<Seq<char>>)>>),
>;

/// Parses a report payload with `serde_json::from_str` into a
/// `serde_json::Value` and picks the fields the history reads. The result is
/// named, not described: it depends on the payload alone.
#[verifier::external_body]
fn read_payload(payload: &str) -> (r: Option<PayloadView>)
    ensures
        payload_plain(r) == parsed_payload(payload@),
{
    let v: serde_json::Value = serde_json::from_str(payload).ok()?;
    let text = |x: &serde_json::Value| x.as_str().map(|s| s.to_string());
    let findings = v["findings"].as_array().map(
        |fs| fs.iter().map(|f| FindingView { severity: text(&f["severity"]), description: text(&f["description"]) }).collect(),
    );
    Some(PayloadView { status: text(&v["verdict"]["status"]), findings })
}

/// A severity that makes a finding the key finding of a run.
pub open spec fn is_key_severity(s: Option<Seq<char>>) -> bool {
    s == Some("Critical"@) || s == Some("Warning"@)
}

/// Index of the first key finding.
pub open spec fn first_key(fs: Seq<(Option<Seq<char>>, Option<Seq<char>>)>) -> Option<int> {
    if exists|i: int| 0 <= i < fs.len() && is_key_severity(fs[i].0) {
        Some(choose|i: int| 0 <= i < fs.len() && is_key_severity(fs[i].0) && forall|k: int| 0 <= k < i ==> !is_key_severity(fs[k].0))
    } else {
        None
    }
}

/// Verdict and key finding of a run, from what its payload parses to.
pub open spec fn verdict_and_finding(parsed: Option<
    (Option<Seq<char>>, Option<Seq<(Option<Seq<char>>, Option<Seq<char>>)>>),
>) -> (Seq<char>, Seq<char>) {
    match parsed {
        None => ("?"@, "—"@),
        Some((status, findings)) => (
            match status {
                Some(s) => s,
                None => "?"@,
            },
            match findings {
                Some(fs) => match first_key(fs) {
                    Some(i) => match fs[i].1 {
                        Some(d) => d,
                        None => "—"@,
                    },
                    None => "—"@,
                },
                None => "—"@,
            },
        ),
    }
}

fn key_finding(fs: &Vec<FindingView>) -> (r: String)
    ensures
        r@ == (match first_key(fs@.map_values(|f: FindingView| finding_plain(f))) {
            Some(i) => match fs@.map_values(|f: FindingView| finding_plain(f))[i].1 {
                Some(d) => d,
                None => "—"@,
            },
            None => "—"@,
        }),
{
    let ghost plain = fs@.map_values(|f: FindingView| finding_plain(f));
    let mut i: usize = 0;
    while i < fs.len()
        invariant
            i <= fs@.len(),
            plain == fs@.map_values(|f: FindingView| finding_plain(f)),
            forall|k: int| 0 <= k < i ==> !is_key_severity(plain[k].0),
        decreases fs@.len() - i,
    {
        let key = match &fs[i].severity {
            Some(s) => str_eq(s.as_str(), "Critical") || str_eq(s.as_str(), "Warning"),
            None => false,
        };
        assert(plain[i as int] == finding_plain(fs@[i as int]));
        if key {
            proof {
                let c = choose|j: int| 0 <= j < plain.len() && is_key_severity(plain[j].0) && forall|k: int|
                    0 <= k < j ==> !is_key_severity(plain[k].0);
                if c < i {
                } else if c > i {
                    assert(!is_key_severity(plain[i as int].0));
                }
                assert(first_key(plain) == Some(i as int));
            }
            return match &fs[i].description {
                Some(d) => d.clone(),
                None => owned("—"),
            };
        }
        i = i + 1;
    }
    owned("—")
}

/// The verdict status written in a stored payload: `None` when the payload
/// is not valid JSON or names no status.
pub fn payload_status(payload: &str) -> (r: Option<String>)
    ensures
        match r {
            Some(s) => parsed_payload(payload@) matches Some((Some(t), _)) && s@ == t,
            None => !(parsed_payload(payload@) matches Some((Some(_), _))),
        },
{
    match read_payload(payload) {
        Some(v) => v.status,
        None => None,
    }
}

/// Verdict status and key finding (the first Critical or Warning finding)
/// of what a stored report parsed to; "?" and "—" when missing or when the
/// payload was not valid JSON (`None`).
pub fn verdict_and_finding_of(p: &Option<PayloadView>) -> (r: (String, String))
    ensures
        (r.0@, r.1@) == verdict_and_finding(payload_plain(*p)),
{
    match p {
        None => (owned("?"), owned("—")),
        Some(p) => {
            let verdict = match &p.status {
                Some(s) => s.clone(),
                None => owned("?"),
            };
            let finding = match &p.findings {
                Some(fs) => key_finding(fs),
                None => owned("—"),
            };
            (verdict, finding)
        },
    }
}

/// Verdict status and key finding (the first Critical or Warning finding)
/// of a stored report; "?" and "—" when missing or when the payload is not
/// valid JSON.
pub fn extract_from_json(payload_json: &str) -> (r: (String, String))
    ensures
        (r.0@, r.1@) == verdict_and_finding(parsed_payload(payload_json@)),
{
    verdict_and_finding_of(&read_payload(payload_json))
}

/// The verdict of a stored report: one of "Healthy", "Degraded", "Faulty",
/// or "?" for anything else.
pub open spec fn spec_verdict_from_json(parsed: Option<
    (Option<Seq<char>>, Option<Seq<(Option<Seq<char>>, Option<Seq<char>>)>>),
>) -> Seq<char> {
    match parsed {
        Some((Some(s), _)) => if s == "Healthy"@ || s == "Degraded"@ || s == "Faulty"@ {
            s
        } else {
            "?"@
        },
        _ => "?"@,
    }
}

/// The verdict of what a stored report parsed to, restricted to the three
/// known statuses ("?" for anything else).
pub fn verdict_of(p: &Option<PayloadView>) -> (r: &'static str)
    ensures
        r@ == spec_verdict_from_json(payload_plain(*p)),
{
    match p {
        Some(p) => match &p.status {
            Some(s) => if str_eq(s.as_str(), "Healthy") {
                "Healthy"
            } else if str_eq(s.as_str(), "Degraded") {
                "Degraded"
            } else if str_eq(s.as_str(), "Faulty") {
                "Faulty"
            } else {
                "?"
            },
            None => "?",
        },
        None => "?",
    }
}

/// The verdict of a stored report, restricted to the three known statuses.
pub fn verdict_from_json(payload: &str) -> (r: &'static str)
    ensures
        r@ == spec_verdict_from_json(parsed_payload(payload@)),
{
    verdict_of(&read_payload(payload))
}

// ─── Query parameters ─────────────────────────────────────────────────────────

/// Parameters of the history listing.
#[derive(Debug)]
pub struct HistoryQuery {
    pub target: Option<String>,
    pub last: Option<i64>,
    pub since: Option<String>,
}

/// Parameters of the history of one hop.
#[derive(Debug)]
pub struct HopQuery {
    pub target: Option<String>,
    pub last: Option<i64>,
}

/// Number of runs to read: `last` (50 by default) brought into 1..=10000.
pub open spec fn spec_limit(last: Option<i64>) -> i64 {
    let v = match last {
        Some(v) => v,
        None => 50,
    };
    if v < 1 {
        1
    } else if v > 10_000 {
        10_000
    } else {
        v
    }
}

fn limit_of(last: Option<i64>) -> (r: i64)
    ensures
        r == spec_limit(last),
{
    let v = match last {
        Some(v) => v,
        None => 50,
    };
    if v < 1 {
        1
    } else if v > 10_000 {
        10_000
    } else {
        v
    }
}

impl HistoryQuery {
    /// Number of runs to list.
    pub fn limit(&self) -> (r: i64)
        ensures
            r == spec_limit(self.last),
    {
        limit_of(self.last)
    }
}

impl HopQuery {
    /// Number of samples to list.
    pub fn limit(&self) -> (r: i64)
        ensures
            r == spec_limit(self.last),
    {
        limit_of(self.last)
    }
}

/// How the hop of the hop history is designated.
#[derive(Debug)]
pub enum HopFilter {
    /// By AS number ("AS3356" or "3356").
    Asn(i64),
    /// By IP address (anything that is not an AS number).
    Ip(String),
}

/// The hop designated by `filter`: an AS number when the upper-cased filter
/// is "AS" followed by a number, or when the filter itself is a number; an IP
/// address otherwise.
pub open spec fn spec_hop_filter(filter: Seq<char>) -> Option<int> {
    let up = uppercase(filter);
    if up.len() >= 2 && up[0] == 'A' && up[1] == 'S' {
        parse_i64_spec(up.subrange(2, up.len() as int))
    } else {
        parse_i64_spec(filter)
    }
}

/// Reads the designation of a hop in the hop history.
pub fn parse_hop_filter(filter: &str) -> (r: HopFilter)
    ensures
        match spec_hop_filter(filter@) {
            Some(a) => r matches HopFilter::Asn(v) && v == a,
            None => r matches HopFilter::Ip(s) && s@ == filter@,
        },
{
    let up = chars_of(to_upper(filter).as_str());
    let asn = if up.len() >= 2 && up[0] == 'A' && up[1] == 'S' {
        let mut rest: Vec<char> = Vec::new();
        let mut i: usize = 2;
        while i < up.len()
            invariant
                2 <= i <= up@.len(),
                rest@ == up@.subrange(2, i as int),
            decreases up@.len() - i,
        {
            rest.push(up[i]);
            i = i + 1;
            assert(rest@ =~= up@.subrange(2, i as int));
        }
        parse_i64(rest.as_slice())
    } else {
        let cs = chars_of(filter);
        parse_i64(cs.as_slice())
    };
    match asn {
        Some(a) => HopFilter::Asn(a),
        None => HopFilter::Ip(owned(filter)),
    }
}

// ─── Hour ranges ──────────────────────────────────────────────────────────────

/// An hour on two digits.
pub open spec fn two_digits(h: nat) -> Seq<char> {
    if h < 10 {
        seq!['0'] + decimal(h)
    } else {
        decimal(h)
    }
}

fn push_two_digits(out: &mut Vec<char>, h: u8)
    ensures
        final(out)@ == old(out)@ + two_digits(h as nat),
{
    if h < 10 {
        out.push('0');
    }
    push_decimal(out, h as u64);
    assert(final(out)@ =~= old(out)@ + two_digits(h as nat));
}

/// A range of consecutive hours: "14h UTC" for one hour, "14h–17h UTC" for
/// hours 14 to 16 (the end is the hour after the last one, modulo 24).
pub open spec fn spec_hour_range(hours: Seq<u8>) -> Seq<char> {
    if hours.len() == 0 {
        Seq::empty()
    } else if hours.len() == 1 {
        two_digits(hours[0] as nat) + "h UTC"@
    } else {
        two_digits(hours[0] as nat) + "h–"@ + two_digits(((hours.last() + 1) % 24) as nat) + "h UTC"@
    }
}

/// Formats a range of consecutive hours.
pub fn format_hour_range(hours: &[u8]) -> (s: String)
    requires
        hours@.len() >= 2 ==> hours@.last() < 255,
    ensures
        s@ == spec_hour_range(hours@),
{
    let mut out: Vec<char> = Vec::new();
    if hours.len() == 0 {
        return string_from_chars(&out);
    }
    if hours.len() == 1 {
        push_two_digits(&mut out, hours[0]);
        push_str(&mut out, "h UTC");
        return string_from_chars(&out);
    }
    let first = hours[0];
    let last = hours[hours.len() - 1];
    push_two_digits(&mut out, first);
    push_str(&mut out, "h–");
    push_two_digits(&mut out, (last + 1) % 24);
    push_str(&mut out, "h UTC");
    string_from_chars(&out)
}

/// A bar of at most four blocks, proportional to `n` out of `max`.
pub open spec fn spec_bar(n: usize, max: usize) -> Seq<char> {
    if max == 0 {
        Seq::empty()
    } else {
        let q = (n as int * 4) / (max as int);
        let k = if q < 4 {
            q
        } else {
            4
        };
        Seq::new(k as nat, |i: int| '█')
    }
}

/// A bar of at most four blocks, proportional to `n` out of `max`.
pub fn bar(n: usize, max: usize) -> (s: String)
    requires
        n * 4 <= usize::MAX,
    ensures
        s@ == spec_bar(n, max),
{
    let mut out: Vec<char> = Vec::new();
    if max == 0 {
        return string_from_chars(&out);
    }
    let k0 = n * 4 / max;
    let k = if k0 < 4 {
        k0
    } else {
        4
    };
    let mut i: usize = 0;
    while i < k
        invariant
            i <= k,
            out@ == Seq::new(i as nat, |j: int| '█'),
        decreases k - i,
    {
        out.push('█');
        i = i + 1;
        assert(out@ =~= Seq::new(i as nat, |j: int| '█'));
    }
    string_from_chars(&out)
}

} // verus!
