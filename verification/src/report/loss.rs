//! Packet loss findings of a forward path: loss at the target, and the first
//! hop whose loss is real (more than 1% on three consecutive hops), with
//! whether it sits at a change of AS.
//!
//! Loss percentages are compared as exact fractions of the probe counts.

use vstd::prelude::*;
use crate::text::str_eq;
use crate::types::{loss_above, loss_den, loss_num, AsInfo, Hop, Severity};

verus! {

/// The loss of `h` is above 0.5%.
pub open spec fn loss_above_half(h: Hop) -> bool {
    2 * loss_num(h) > loss_den(h)
}

/// The severity of a loss: critical above 5%, a warning otherwise.
pub open spec fn loss_severity(h: Hop) -> Severity {
    if loss_num(h) > 5 * loss_den(h) {
        Severity::Critical
    } else {
        Severity::Warning
    }
}

/// The loss at the target (the last hop) is reported: above 0.5% and not
/// put down to ICMP rate limiting.
pub open spec fn target_loss(hops: Seq<Hop>) -> Option<Severity> {
    if hops.len() > 0 && loss_above_half(hops.last()) && !hops.last().suspected_icmp_ratelimit {
        Some(loss_severity(hops.last()))
    } else {
        None
    }
}

/// Hop `i` shows a real loss: it is not rate-limited, has round-trip times,
/// and it and the next two hops each lose more than 1% (a loss carried over
/// three consecutive hops).
pub open spec fn real_loss_at(hops: Seq<Hop>, i: int) -> bool {
    &&& 0 <= i
    &&& i + 2 < hops.len()
    &&& !hops[i].suspected_icmp_ratelimit
    &&& hops[i].rtt_samples@.len() > 0
    &&& loss_above(hops[i], 1)
    &&& loss_above(hops[i + 1], 1)
    &&& loss_above(hops[i + 2], 1)
}

/// The first hop from `i` on with a real loss.
pub open spec fn first_real_loss(hops: Seq<Hop>, i: int) -> Option<int>
    decreases hops.len() - i,
{
    if i < 0 || i >= hops.len() {
        None
    } else if real_loss_at(hops, i) {
        Some(i)
    } else {
        first_real_loss(hops, i + 1)
    }
}

/// The last hop before `i` that has AS information.
pub open spec fn last_as_before(hops: Seq<Hop>, i: int) -> Option<int>
    decreases i,
{
    if i <= 0 {
        None
    } else if hops[i - 1].as_info is Some {
        Some(i - 1)
    } else {
        last_as_before(hops, i - 1)
    }
}

/// Two AS records describe the same AS (number, name, country and prefix).
pub open spec fn same_as(a: AsInfo, b: AsInfo) -> bool {
    &&& a.asn == b.asn
    &&& a.name@ == b.name@
    &&& match (a.country, b.country) {
        (Some(x), Some(y)) => x@ == y@,
        (None, None) => true,
        _ => false,
    }
    &&& match (a.prefix, b.prefix) {
        (Some(x), Some(y)) => x@ == y@,
        (None, None) => true,
        _ => false,
    }
}

/// The loss sits at a change of AS: the AS known before the hop differs from
/// the hop's own (one of them unknown and not the other counts as a change).
pub open spec fn as_changes(prev: Option<AsInfo>, cur: Option<AsInfo>) -> bool {
    match (prev, cur) {
        (Some(a), Some(b)) => !same_as(a, b),
        (None, None) => false,
        _ => true,
    }
}

/// The first hop with a real loss, as reported.
#[derive(Debug, Clone, Copy, PartialEq, Eq, Structural)]
pub struct LossyHop {
    /// Its position in the path.
    pub index: usize,
    pub severity: Severity,
    /// The loss sits at a change of AS (a peering) rather than inside an AS.
    pub at_as_change: bool,
    /// The position of the last hop before it with AS information.
    pub prev_as_index: Option<usize>,
}

/// The packet loss findings of a path.
#[derive(Debug, Clone, Copy, PartialEq, Eq, Structural)]
pub struct LossFindings {
    /// Loss at the target, with its severity.
    pub target: Option<Severity>,
    /// The first hop with a real loss.
    pub hop: Option<LossyHop>,
}

/// What is reported at hop `i` of `hops`.
pub open spec fn lossy_hop_at(hops: Seq<Hop>, i: int) -> LossyHop {
    let prev = last_as_before(hops, i);
    LossyHop {
        index: i as usize,
        severity: loss_severity(hops[i]),
        at_as_change: as_changes(
            match prev {
                Some(j) => hops[j].as_info,
                None => None,
            },
            hops[i].as_info,
        ),
        prev_as_index: match prev {
            Some(j) => Some(j as usize),
            None => None,
        },
    }
}

/// The packet loss findings of `hops`.
pub open spec fn spec_loss_findings(hops: Seq<Hop>) -> LossFindings {
    LossFindings {
        target: target_loss(hops),
        hop: match first_real_loss(hops, 0) {
            Some(i) => Some(lossy_hop_at(hops, i)),
            None => None,
        },
    }
}

fn opt_str_eq(a: &Option<String>, b: &Option<String>) -> (r: bool)
    ensures
        r == match (*a, *b) {
            (Some(x), Some(y)) => x@ == y@,
            (None, None) => true,
            _ => false,
        },
{
    match (a, b) {
        (Some(x), Some(y)) => str_eq(x.as_str(), y.as_str()),
        (None, None) => true,
        _ => false,
    }
}

fn as_changes_exec(prev: &Option<AsInfo>, cur: &Option<AsInfo>) -> (r: bool)
    ensures
        r == as_changes(*prev, *cur),
{
    match (prev, cur) {
        (Some(a), Some(b)) => !(a.asn == b.asn && str_eq(a.name.as_str(), b.name.as_str()) && opt_str_eq(
            &a.country,
            &b.country,
        ) && opt_str_eq(&a.prefix, &b.prefix)),
        (None, None) => false,
        _ => true,
    }
}

fn rate_limited(h: &Hop) -> (r: bool)
    ensures
        r == h.suspected_icmp_ratelimit,
{
    h.suspected_icmp_ratelimit
}

fn severity_of(h: &Hop) -> (s: Severity)
    ensures
        s == loss_severity(*h),
{
    if h.loss_is_above(5) {
        Severity::Critical
    } else {
        Severity::Warning
    }
}

fn is_real_loss(hops: &Vec<Hop>, i: usize) -> (r: bool)
    requires
        i < hops@.len(),
    ensures
        r == real_loss_at(hops@, i as int),
{
    if hops.len() - i < 3 {
        return false;
    }
    let h = &hops[i];
    if rate_limited(h) || h.rtt_samples.len() == 0 {
        return false;
    }
    h.loss_is_above(1) && hops[i + 1].loss_is_above(1) && hops[i + 2].loss_is_above(1)
}

fn as_before(hops: &Vec<Hop>, i: usize) -> (r: Option<usize>)
    requires
        i <= hops@.len(),
    ensures
        match last_as_before(hops@, i as int) {
            Some(j) => r == Some(j as usize) && 0 <= j < i,
            None => r is None,
        },
{
    let mut k: usize = i;
    while k > 0
        invariant
            k <= i <= hops@.len(),
            last_as_before(hops@, i as int) == last_as_before(hops@, k as int),
        decreases k,
    {
        if hops[k - 1].as_info.is_some() {
            return Some(k - 1);
        }
        k = k - 1;
    }
    None
}

fn first_real_loss_exec(hops: &Vec<Hop>) -> (r: Option<usize>)
    ensures
        match first_real_loss(hops@, 0) {
            Some(k) => r == Some(k as usize) && 0 <= k < hops@.len(),
            None => r is None,
        },
{
    let mut i: usize = 0;
    while i < hops.len()
        invariant
            i <= hops@.len(),
            first_real_loss(hops@, 0) == first_real_loss(hops@, i as int),
        decreases hops@.len() - i,
    {
        if is_real_loss(hops, i) {
            return Some(i);
        }
        i = i + 1;
    }
    None
}

/// The packet loss findings of a forward path: whether the target loses more
/// than 0.5% (critical above 5%) unless it is rate-limited, and the first hop
/// whose loss is real (see `real_loss_at`), with its severity and whether it
/// sits at a change of AS.
pub fn loss_findings(hops: &Vec<Hop>) -> (r: LossFindings)
    ensures
        r == spec_loss_findings(hops@),
{
    let target = if hops.len() > 0 {
        let last = &hops[hops.len() - 1];
        if last.loss_is_above_half() && !rate_limited(last) {
            Some(severity_of(last))
        } else {
            None
        }
    } else {
        None
    };
    let found = first_real_loss_exec(hops);
    let hop = match found {
        Some(k) => {
            let prev = as_before(hops, k);
            let none: Option<AsInfo> = None;
            let at_change = match prev {
                Some(j) => as_changes_exec(&hops[j].as_info, &hops[k].as_info),
                None => as_changes_exec(&none, &hops[k].as_info),
            };
            Some(LossyHop { index: k, severity: severity_of(&hops[k]), at_as_change: at_change, prev_as_index: prev })
        },
        None => None,
    };
    LossFindings { target, hop }
}

/// The hop is suspected of ICMP rate limiting.
pub open spec fn flagged_hop(h: Hop) -> bool {
    h.suspected_icmp_ratelimit
}

/// The loss of `h` is above `pct` percent, in probe counts.
pub open spec fn loses_more_than(h: Hop, pct: int) -> bool {
    h.sent > 0 && 100 * (h.sent - h.received) > pct * h.sent
}

proof fn lemma_first_real_loss(hops: Seq<Hop>, i: int)
    requires
        0 <= i,
    ensures
        match first_real_loss(hops, i) {
            Some(k) => i <= k < hops.len() && real_loss_at(hops, k) && forall|j: int| i <= j < k ==> !real_loss_at(hops, j),
            None => forall|j: int| i <= j < hops.len() ==> !real_loss_at(hops, j),
        },
    decreases hops.len() - i,
{
    if i < hops.len() {
        lemma_first_real_loss(hops, i + 1);
    }
}

proof fn lemma_last_as_before(hops: Seq<Hop>, i: int)
    requires
        0 <= i <= hops.len(),
    ensures
        match last_as_before(hops, i) {
            Some(p) => 0 <= p < i && hops[p].as_info is Some && forall|j: int| p < j < i ==> (#[trigger] hops[j]).as_info is None,
            None => forall|j: int| 0 <= j < i ==> (#[trigger] hops[j]).as_info is None,
        },
    decreases i,
{
    if i > 0 {
        lemma_last_as_before(hops, i - 1);
    }
}

/// The packet-loss findings over the probe counts of the hops: the target
/// (last hop) is reported when it loses more than 0.5% and is not
/// rate-limited, critical above 5%. The hop reported is the first hop,
/// neither rate-limited nor without round-trip times, such that it and the
/// next two hops each lose more than 1%; its severity is critical above 5%.
/// Its AS change compares the last hop before it that has AS information with
/// the hop itself: one known and the other unknown is a change, two unknown
/// are none, two known differ when their number, name, country or prefix
/// differ.
pub proof fn lemma_loss_findings_law(hops: Seq<Hop>)
    requires
        hops.len() <= usize::MAX,
    ensures
        ({
            let r = spec_loss_findings(hops);
            &&& r.target is Some <==> (hops.len() > 0 && 200 * (hops.last().sent - hops.last().received) > hops.last().sent
                && hops.last().sent > 0 && !flagged_hop(hops.last()))
            &&& r.target is Some ==> (r.target == Some(Severity::Critical) <==> loses_more_than(hops.last(), 5))
            &&& match r.hop {
                None => forall|i: int|
                    0 <= i && i + 2 < hops.len() && !flagged_hop(hops[i]) && hops[i].rtt_samples@.len() > 0
                        ==> !(loses_more_than(hops[i], 1) && loses_more_than(hops[i + 1], 1) && loses_more_than(
                        hops[i + 2],
                        1,
                    )),
                Some(lh) => {
                    let i = lh.index as int;
                    let h = hops[i];
                    &&& 0 <= i && i + 2 < hops.len()
                    &&& !flagged_hop(h) && h.rtt_samples@.len() > 0
                    &&& loses_more_than(h, 1) && loses_more_than(hops[i + 1], 1) && loses_more_than(hops[i + 2], 1)
                    &&& forall|j: int|
                        0 <= j < i && !flagged_hop(hops[j]) && hops[j].rtt_samples@.len() > 0 ==> !(
                        loses_more_than(hops[j], 1) && loses_more_than(hops[j + 1], 1) && loses_more_than(
                            hops[j + 2],
                            1,
                        ))
                    &&& (lh.severity == Severity::Critical <==> loses_more_than(h, 5))
                    &&& lh.severity == Severity::Critical || lh.severity == Severity::Warning
                    &&& match lh.prev_as_index {
                        None => {
                            &&& forall|j: int| 0 <= j < i ==> (#[trigger] hops[j]).as_info is None
                            &&& lh.at_as_change == (h.as_info is Some)
                        },
                        Some(p) => {
                            let p = p as int;
                            let a = hops[p].as_info.unwrap();
                            &&& 0 <= p < i && hops[p].as_info is Some
                            &&& forall|j: int| p < j < i ==> (#[trigger] hops[j]).as_info is None
                            &&& h.as_info is None ==> lh.at_as_change
                            &&& h.as_info is Some ==> (lh.at_as_change <==> {
                                let b = h.as_info.unwrap();
                                ||| a.asn != b.asn
                                ||| a.name@ != b.name@
                                ||| (a.country is Some) != (b.country is Some)
                                ||| (a.country is Some && b.country is Some && a.country.unwrap()@ != b.country.unwrap()@)
                                ||| (a.prefix is Some) != (b.prefix is Some)
                                ||| (a.prefix is Some && b.prefix is Some && a.prefix.unwrap()@ != b.prefix.unwrap()@)
                            })
                        },
                    }
                },
            }
        }),
{
    lemma_first_real_loss(hops, 0);
    let r = spec_loss_findings(hops);
    assert(r.target is Some <==> (hops.len() > 0 && 200 * (hops.last().sent - hops.last().received) > hops.last().sent
                && hops.last().sent > 0 && !flagged_hop(hops.last())));
    assert(r.target is Some ==> (r.target == Some(Severity::Critical) <==> loses_more_than(hops.last(), 5)));
    match first_real_loss(hops, 0) {
        Some(k) => {
            lemma_last_as_before(hops, k);
            assert(r.hop == Some(lossy_hop_at(hops, k)));
            assert((k as usize) as int == k);
            assert forall|j: int|
                0 <= j < k && !flagged_hop(hops[j]) && hops[j].rtt_samples@.len() > 0 implies !(loses_more_than(
                    hops[j],
                    1,
                ) && loses_more_than(hops[j + 1], 1) && loses_more_than(hops[j + 2], 1)) by {
                assert(!real_loss_at(hops, j));
            }
        },
        None => {
            assert forall|i: int|
                    0 <= i && i + 2 < hops.len() && !flagged_hop(hops[i]) && hops[i].rtt_samples@.len() > 0
                        implies !(loses_more_than(hops[i], 1) && loses_more_than(hops[i + 1], 1) && loses_more_than(
                        hops[i + 2],
                        1,
                    )) by {
                assert(!real_loss_at(hops, i));
            }
        },
    }
}

} // verus!
