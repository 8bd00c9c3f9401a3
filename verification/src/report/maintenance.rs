//! Maintenance of the result database: statistics, purge and their display.

use vstd::prelude::*;
use crate::text::{decimal, digit, digit_char, push_decimal, push_signed_decimal, signed_decimal, string_from_chars};

verus! {

/// Statistics of the database.
#[derive(Debug)]
pub struct DbStats {
    pub run_count: i64,
    pub hop_count: i64,
    pub speedtest_count: i64,
    pub watch_series_count: i64,
    pub oldest_run: Option<String>,
    pub newest_run: Option<String>,
    pub db_size_bytes: u64,
}

/// Statistics of the database as sent by the web API.
#[derive(Debug)]
pub struct DbStatsJson {
    pub run_count: i64,
    pub hop_count: i64,
    pub speedtest_count: i64,
    pub watch_series_count: i64,
    pub oldest_run: Option<String>,
    pub newest_run: Option<String>,
    pub db_size_bytes: u64,
    pub human_size: String,
}

/// `n / d` rounded to the nearest integer, a half going to the even one.
pub open spec fn round_half_even(n: nat, d: nat) -> nat {
    let q = n / d;
    let r = n % d;
    if 2 * r > d || (2 * r == d && q % 2 == 1) {
        q + 1
    } else {
        q
    }
}

/// 2 to the power `k`.
pub open spec fn two_to(k: nat) -> nat
    decreases k,
{
    if k == 0 {
        1
    } else {
        2 * two_to((k - 1) as nat)
    }
}

/// 2^53: integers below it are exact in a double.
pub open spec fn exact_limit() -> nat {
    9007199254740992
}

/// 2^52: the significand of a double lies in [2^52, 2^53).
pub open spec fn significand_low() -> nat {
    4503599627370496
}

/// The smallest `j` (from `j` on) such that `b < 2^53 · 2^j`.
pub open spec fn dropped_bits(b: nat, j: nat) -> nat
    decreases 64 - j,
{
    if j >= 64 || b < exact_limit() * two_to(j) {
        j
    } else {
        dropped_bits(b, j + 1)
    }
}

/// The double nearest to `b` (ties to even), as the integer it is.
pub open spec fn nearest_double(b: nat) -> nat {
    let j = dropped_bits(b, 0);
    round_half_even(b, two_to(j)) * two_to(j)
}

/// The smallest `k` (from `k` on) such that `x · 2^k / u >= 2^52`.
pub open spec fn scale(x: nat, u: nat, k: nat) -> nat
    decreases 64 - k,
{
    if k >= 64 || x * two_to(k) >= significand_low() * u {
        k
    } else {
        scale(x, u, k + 1)
    }
}

/// `value as f64 / unit as f64` printed with one decimal, as a number of
/// tenths: `value` is first taken to the nearest double, the quotient is
/// rounded to the nearest double (significand `m`, spacing `2^-k`), then ten
/// times that double is rounded to the nearest integer; every rounding sends a
/// tie to the even neighbour, as IEEE 754 arithmetic and std's formatting do.
pub open spec fn float_tenths(value: nat, unit: nat) -> nat {
    let x = nearest_double(value);
    let k = scale(x, unit, 0);
    let m = round_half_even(x * two_to(k), unit);
    round_half_even(10 * m, two_to(k))
}

/// A number of tenths written with one decimal, e.g. 15 → "1.5".
pub open spec fn one_decimal(t: nat) -> Seq<char> {
    decimal(t / 10) + seq!['.', digit_char((t % 10) as int)]
}

/// A size in bytes for humans: "999 B", "1.5 KB", "2.5 MB" (powers of 1000,
/// the quotient computed and printed as `format!("{:.1}", bytes as f64 /
/// unit)` does).
pub open spec fn spec_human_bytes(bytes: u64) -> Seq<char> {
    if bytes >= 1_000_000 {
        one_decimal(float_tenths(bytes as nat, 1_000_000)) + " MB"@
    } else if bytes >= 1_000 {
        one_decimal(float_tenths(bytes as nat, 1_000)) + " KB"@
    } else {
        decimal(bytes as nat) + " B"@
    }
}

fn round_half_even_exec(n: u128, d: u128) -> (r: u128)
    requires
        d > 0,
        d <= 0x1_0000_0000_0000_0000_0000,
        n < 0xffff_ffff_ffff_ffff_ffff_ffff_ffff_fff0,
    ensures
        r == round_half_even(n as nat, d as nat),
        n / d <= r <= n / d + 1,
{
    let q = n / d;
    let r = n % d;
    if 2 * r > d || (2 * r == d && q % 2 == 1) {
        assert(q < n + 1) by (nonlinear_arith)
            requires
                q == n / d,
                d > 0,
        ;
        q + 1
    } else {
        q
    }
}

fn nearest_double_exec(b: u64) -> (x: u128)
    ensures
        x == nearest_double(b as nat),
        x <= 0x2_0000_0000_0000_0000,
        b >= 1 ==> x >= 1,
{
    let mut q: u128 = 1;
    let mut j: u64 = 0;
    while j < 64 && (b as u128) >= 9007199254740992u128 * q
        invariant
            j <= 64,
            q == two_to(j as nat),
            q <= 4096,
            dropped_bits(b as nat, 0) == dropped_bits(b as nat, j as nat),
            j > 0 ==> (b as u128) >= 9007199254740992u128 * (q / 2),
        decreases 64 - j,
    {
        assert(9007199254740992u128 * q <= b) ;
        assert(q <= 2048) by (nonlinear_arith)
            requires
                9007199254740992 * q <= b,
                b <= 0xffff_ffff_ffff_ffff,
        ;
        q = q * 2;
        j = j + 1;
    }
    assert(q > 0) by {
        lemma_two_to_pos(j as nat);
    }
    let bb = b as u128;
    let r = round_half_even_exec(bb, q);
    assert(r * q <= 0x2_0000_0000_0000_0000) by (nonlinear_arith)
        requires
            r <= bb / q + 1,
            q > 0,
            q <= 4096,
            bb <= 0xffff_ffff_ffff_ffff,
    ;
    assert(bb >= 1 ==> r * q >= 1) by (nonlinear_arith)
        requires
            bb / q <= r,
            q > 0,
            q == 1 || bb >= 9007199254740992 * (q / 2),
    ;
    r * q
}

proof fn lemma_two_to_pos(k: nat)
    ensures
        two_to(k) > 0,
    decreases k,
{
    if k > 0 {
        lemma_two_to_pos((k - 1) as nat);
    }
}

fn float_tenths_exec(value: u64, unit: u64) -> (t: u64)
    requires
        unit == 1_000 || unit == 1_000_000,
        value >= unit,
    ensures
        t == float_tenths(value as nat, unit as nat),
{
    let x = nearest_double_exec(value);
    let u = unit as u128;
    let mut p: u128 = 1;
    let mut k: u64 = 0;
    while k < 64 && x * p < 4503599627370496u128 * u
        invariant
            k <= 64,
            p == two_to(k as nat),
            u == unit,
            unit == 1_000 || unit == 1_000_000,
            x == nearest_double(value as nat),
            x <= 0x2_0000_0000_0000_0000,
            x >= 1,
            k > 0 ==> x * p < 2 * 4503599627370496 * u,
            k == 0 ==> p == 1,
            scale(x as nat, unit as nat, 0) == scale(x as nat, unit as nat, k as nat),
        decreases 64 - k,
    {
        assert(p < 4503599627370496 * 1_000_000) by (nonlinear_arith)
            requires
                x * p < 4503599627370496 * u,
                x >= 1,
                u <= 1_000_000,
        ;
        p = p * 2;
        k = k + 1;
        assert(x * p < 2 * 4503599627370496 * u) by (nonlinear_arith)
            requires
                x * (p / 2) < 4503599627370496 * u,
                p % 2 == 0,
        ;
    }
    assert(x * p <= 2 * 4503599627370496 * 1_000_000 || k == 0);
    assert(p > 0) by {
        lemma_two_to_pos(k as nat);
    }
    assert(p <= 2 * 4503599627370496 * 1_000_000) by (nonlinear_arith)
        requires
            k > 0 ==> x * p < 2 * 4503599627370496 * u,
            k == 0 ==> p == 1,
            x >= 1,
            u <= 1_000_000,
    ;
    let m = round_half_even_exec(x * p, u);
    let t = round_half_even_exec(10 * m, p);
    t as u64
}

fn push_one_decimal(out: &mut Vec<char>, t: u64)
    ensures
        final(out)@ == old(out)@ + one_decimal(t as nat),
{
    push_decimal(out, t / 10);
    out.push('.');
    out.push(digit(t % 10));
    assert(final(out)@ =~= old(out)@ + one_decimal(t as nat));
}

/// A size in bytes for humans, with one decimal above a thousand bytes.
pub fn human_bytes(bytes: u64) -> (s: String)
    ensures
        s@ == spec_human_bytes(bytes),
{
    let mut out: Vec<char> = Vec::new();
    if bytes >= 1_000_000 {
        push_one_decimal(&mut out, float_tenths_exec(bytes, 1_000_000));
        crate::text::push_str(&mut out, " MB");
    } else if bytes >= 1_000 {
        push_one_decimal(&mut out, float_tenths_exec(bytes, 1_000));
        crate::text::push_str(&mut out, " KB");
    } else {
        push_decimal(&mut out, bytes);
        crate::text::push_str(&mut out, " B");
    }
    assert(out@ =~= spec_human_bytes(bytes));
    string_from_chars(&out)
}

/// `s` with a space before each group of three characters, counted from the
/// end.
pub open spec fn spaced(s: Seq<char>) -> Seq<char>
    decreases s.len(),
{
    if s.len() <= 3 {
        s
    } else {
        spaced(s.subrange(0, s.len() - 3)) + seq![' '] + s.subrange(s.len() - 3, s.len() as int)
    }
}

fn spaced_prefix(s: &Vec<char>, n: usize) -> (r: Vec<char>)
    requires
        n <= s@.len(),
    ensures
        r@ == spaced(s@.subrange(0, n as int)),
    decreases n,
{
    if n <= 3 {
        let mut r: Vec<char> = Vec::new();
        let mut i: usize = 0;
        while i < n
            invariant
                i <= n <= s@.len(),
                r@ == s@.subrange(0, i as int),
            decreases n - i,
        {
            r.push(s[i]);
            i = i + 1;
            assert(r@ =~= s@.subrange(0, i as int));
        }
        r
    } else {
        let mut r = spaced_prefix(s, n - 3);
        r.push(' ');
        r.push(s[n - 3]);
        r.push(s[n - 2]);
        r.push(s[n - 1]);
        let ghost p = s@.subrange(0, n as int);
        assert(p.subrange(0, p.len() - 3) =~= s@.subrange(0, n - 3));
        assert(r@ =~= spaced(p));
        r
    }
}

proof fn lemma_round_half_even_close(n: nat, d: nat)
    requires
        d > 0,
    ensures
        2 * (round_half_even(n, d) * d - n) <= d,
        2 * (n - round_half_even(n, d) * d) <= d,
{
    let q = n / d;
    let r = n % d;
    assert(n == q * d + r && 0 <= r < d) by (nonlinear_arith)
        requires
            d > 0,
            q == n / d,
            r == n % d,
    ;
    if 2 * r > d || (2 * r == d && q % 2 == 1) {
        assert((q + 1) * d == q * d + d) by (nonlinear_arith);
    }
}

proof fn lemma_scale_facts(x: nat, u: nat, k: nat)
    requires
        u > 0,
        x >= u,
        k <= 52,
        k == 0 || x * two_to((k - 1) as nat) < significand_low() * u,
    ensures
        scale(x, u, k) <= 52,
        x * two_to(scale(x, u, k)) >= significand_low() * u,
        scale(x, u, k) == 0 || x * two_to((scale(x, u, k) - 1) as nat) < significand_low() * u,
    decreases 64 - k,
{
    lemma_two_to_52();
    if x * two_to(k) < significand_low() * u {
        if k == 52 {
            assert(x * two_to(52) >= u * two_to(52)) by (nonlinear_arith)
                requires
                    x >= u,
            ;
        }
        assert(k < 52);
        lemma_scale_facts(x, u, k + 1);
    }
}

proof fn lemma_two_to_52()
    ensures
        two_to(52) == significand_low(),
        two_to(53) == exact_limit(),
{
    reveal_with_fuel(two_to, 54);
}

/// The tenths that `human_bytes` prints for a size of at least one unit
/// (below 2^53 bytes, exact in a double) are within half a tenth, plus a
/// rounding error of at most a hundredth of a tenth, of the exact value
/// `10 × bytes / unit`: |tenths × unit − 10 × bytes| ≤ unit / 2 + 10.
pub proof fn lemma_tenths_close_to_exact(bytes: nat, unit: nat)
    requires
        unit == 1_000 || unit == 1_000_000,
        unit <= bytes < exact_limit(),
    ensures
        2 * (float_tenths(bytes, unit) * unit - 10 * bytes) <= unit + 20,
        2 * (10 * bytes - float_tenths(bytes, unit) * unit) <= unit + 20,
{
    lemma_two_to_52();
    assert(dropped_bits(bytes, 0) == 0);
    assert(round_half_even(bytes, 1) == bytes);
    assert(nearest_double(bytes) == bytes);
    lemma_scale_facts(bytes, unit, 0);
    let k = scale(bytes, unit, 0);
    let p = two_to(k);
    lemma_two_to_pos(k);
    let m = round_half_even(bytes * p, unit);
    let t = round_half_even(10 * m, p);
    lemma_round_half_even_close(bytes * p, unit);
    lemma_round_half_even_close(10 * m, p);
    assert(t == float_tenths(bytes, unit));
    // 2^k > unit / 2, since bytes < 2^53 and bytes · 2^k ≥ 2^52 · unit.
    assert(2 * p > unit) by (nonlinear_arith)
        requires
            bytes * p >= 4503599627370496 * unit,
            bytes < 9007199254740992,
            p > 0,
    ;
    assert(2 * p * (t * unit - 10 * bytes) <= unit * p + 10 * unit && 2 * p * (10 * bytes - t * unit) <= unit * p + 10
        * unit) by (nonlinear_arith)
        requires
            2 * (m * unit - bytes * p) <= unit,
            2 * (bytes * p - m * unit) <= unit,
            2 * (t * p - 10 * m) <= p,
            2 * (10 * m - t * p) <= p,
            p > 0,
            unit > 0,
    ;
    assert(2 * (t * unit - 10 * bytes) <= unit + 20 && 2 * (10 * bytes - t * unit) <= unit + 20) by (nonlinear_arith)
        requires
            2 * p * (t * unit - 10 * bytes) <= unit * p + 10 * unit,
            2 * p * (10 * bytes - t * unit) <= unit * p + 10 * unit,
            2 * p > unit,
            p > 0,
    ;
}

/// A count with its thousands separated by spaces, e.g. 1234567 → "1 234 567"
/// (a minus sign counts as one more character of the number).
pub fn format_count(n: i64) -> (s: String)
    ensures
        s@ == spaced(signed_decimal(n as int)),
{
    let mut digits: Vec<char> = Vec::new();
    push_signed_decimal(&mut digits, n);
    assert(digits@ =~= signed_decimal(n as int));
    let out = spaced_prefix(&digits, digits.len());
    assert(digits@.subrange(0, digits@.len() as int) =~= digits@);
    string_from_chars(&out)
}

impl DbStatsJson {
    /// The statistics as sent by the web API, with the size for humans.
    pub fn from_stats(s: DbStats) -> (j: DbStatsJson)
        ensures
            j.run_count == s.run_count,
            j.hop_count == s.hop_count,
            j.speedtest_count == s.speedtest_count,
            j.watch_series_count == s.watch_series_count,
            j.oldest_run == s.oldest_run,
            j.newest_run == s.newest_run,
            j.db_size_bytes == s.db_size_bytes,
            j.human_size@ == spec_human_bytes(s.db_size_bytes),
    {
        let human_size = human_bytes(s.db_size_bytes);
        DbStatsJson {
            run_count: s.run_count,
            hop_count: s.hop_count,
            speedtest_count: s.speedtest_count,
            watch_series_count: s.watch_series_count,
            oldest_run: s.oldest_run,
            newest_run: s.newest_run,
            db_size_bytes: s.db_size_bytes,
            human_size,
        }
    }
}

/// A purge request of the web API.
#[derive(Debug, Clone, Copy, PartialEq, Eq, Structural)]
pub struct PurgeRequest {
    pub older_than_days: Option<u32>,
    pub keep_last: Option<usize>,
}

/// What a purge does.
#[derive(Debug, Clone, Copy, PartialEq, Eq, Structural)]
pub enum PurgeAction {
    /// Delete the runs older than this many days.
    OlderThan(u32),
    /// Keep only this many most recent runs.
    KeepLast(usize),
    /// Nothing asked: nothing deleted.
    Nothing,
}

/// `v` brought into `[lo, hi]`.
pub open spec fn clamped(v: int, lo: int, hi: int) -> int {
    if v < lo {
        lo
    } else if v > hi {
        hi
    } else {
        v
    }
}

/// The purge that a request asks for.
pub open spec fn spec_purge_action(r: PurgeRequest) -> PurgeAction {
    match r.older_than_days {
        Some(d) => PurgeAction::OlderThan(clamped(d as int, 1, 3650) as u32),
        None => match r.keep_last {
            Some(k) => PurgeAction::KeepLast(clamped(k as int, 1, 10_000) as usize),
            None => PurgeAction::Nothing,
        },
    }
}

impl PurgeRequest {
    /// The purge to run: by age when a number of days is given (brought into
    /// 1..=3650), else by count when a number of runs to keep is given
    /// (brought into 1..=10000), else none.
    pub fn action(&self) -> (a: PurgeAction)
        ensures
            a == spec_purge_action(*self),
    {
        match self.older_than_days {
            Some(d) => PurgeAction::OlderThan(if d < 1 {
                1
            } else if d > 3650 {
                3650
            } else {
                d
            }),
            None => match self.keep_last {
                Some(k) => PurgeAction::KeepLast(if k < 1 {
                    1
                } else if k > 10_000 {
                    10_000
                } else {
                    k
                }),
                None => PurgeAction::Nothing,
            },
        }
    }
}

/// A purge never deletes everything by count: it keeps at least one run and
/// at most ten thousand, and by age it spares at least the last day.
pub proof fn lemma_purge_bounds(r: PurgeRequest)
    ensures
        match spec_purge_action(r) {
            PurgeAction::OlderThan(d) => 1 <= d <= 3650,
            PurgeAction::KeepLast(k) => 1 <= k <= 10_000,
            PurgeAction::Nothing => r.older_than_days is None && r.keep_last is None,
        },
{
}

} // verus!
