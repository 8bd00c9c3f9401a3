//! The verdict of a diagnosis, decided from its findings; the wording with
//! measured values is left to the display.

use vstd::prelude::*;
use crate::text::{push_str, string_from_chars};
use crate::types::{Finding, FindingCategory, Severity, VerdictStatus};

verus! {

/// What the verdict puts forward as the cause.
#[derive(Debug, Clone, Copy, PartialEq, Eq, Structural)]
pub enum VerdictCause {
    /// Congestion at an interconnection between ASes.
    Peering,
    /// Real packet loss.
    PacketLoss,
    /// High jitter.
    Jitter,
    /// High latency.
    Latency,
    /// Sub-optimal routing.
    Routing,
    /// Something else among the findings.
    Other,
    /// Nothing: the path is healthy.
    Nothing,
}

fn any_with(fs: &[Finding], category: Option<FindingCategory>, severity: Option<Severity>, not_info: bool) -> (r: bool)
    ensures
        r == exists|i: int|
            0 <= i < fs@.len() && (match category {
                Some(c) => (#[trigger] fs@[i]).category == c,
                None => true,
            }) && (match severity {
                Some(s) => fs@[i].severity == s,
                None => true,
            }) && (not_info ==> fs@[i].severity != Severity::Info),
{
    let mut i: usize = 0;
    while i < fs.len()
        invariant
            i <= fs@.len(),
            forall|k: int|
                0 <= k < i ==> !((match category {
                    Some(c) => (#[trigger] fs@[k]).category == c,
                    None => true,
                }) && (match severity {
                    Some(s) => fs@[k].severity == s,
                    None => true,
                }) && (not_info ==> fs@[k].severity != Severity::Info)),
        decreases fs@.len() - i,
    {
        let f = &fs[i];
        let cat_ok = match category {
            Some(c) => f.category == c,
            None => true,
        };
        let sev_ok = match severity {
            Some(s) => f.severity == s,
            None => true,
        };
        if cat_ok && sev_ok && (!not_info || f.severity != Severity::Info) {
            return true;
        }
        i = i + 1;
    }
    false
}

/// Some finding has category `c` (any category when `None`), severity `s`
/// (any when `None`), and is not informative when `not_info`.
pub open spec fn has_finding(fs: Seq<Finding>, c: Option<FindingCategory>, s: Option<Severity>, not_info: bool) -> bool {
    exists|i: int|
        0 <= i < fs.len() && (match c {
            Some(c) => (#[trigger] fs[i]).category == c,
            None => true,
        }) && (match s {
            Some(s) => fs[i].severity == s,
            None => true,
        }) && (not_info ==> fs[i].severity != Severity::Info)
}

/// Status and cause of the verdict of a forward-path diagnosis.
pub open spec fn forward_verdict(fs: Seq<Finding>) -> (VerdictStatus, VerdictCause) {
    let critical = has_finding(fs, None, Some(Severity::Critical), false);
    let warning = has_finding(fs, None, Some(Severity::Warning), false);
    let peering = has_finding(fs, Some(FindingCategory::PeeringCongestion), None, false);
    let loss = has_finding(fs, Some(FindingCategory::PacketLoss), None, false);
    let jitter = has_finding(fs, Some(FindingCategory::Jitter), None, false);
    let routing = has_finding(fs, Some(FindingCategory::RoutingAnomaly), None, false);
    let latency = has_finding(fs, Some(FindingCategory::HighLatency), None, true);
    if critical {
        (
            VerdictStatus::Faulty,
            if peering {
                VerdictCause::Peering
            } else if loss {
                VerdictCause::PacketLoss
            } else if jitter {
                VerdictCause::Jitter
            } else if latency {
                VerdictCause::Latency
            } else {
                VerdictCause::Other
            },
        )
    } else if warning {
        (
            VerdictStatus::Degraded,
            if jitter {
                VerdictCause::Jitter
            } else if routing {
                VerdictCause::Routing
            } else if latency {
                VerdictCause::Latency
            } else {
                VerdictCause::Other
            },
        )
    } else {
        (VerdictStatus::Healthy, VerdictCause::Nothing)
    }
}

/// Decides the verdict of a forward-path diagnosis: faulty when a finding is
/// critical, degraded when one is a warning, healthy otherwise; the cause is
/// the most telling category among the findings.
pub fn decide_forward_verdict(findings: &[Finding]) -> (r: (VerdictStatus, VerdictCause))
    ensures
        r == forward_verdict(findings@),
{
    let critical = any_with(findings, None, Some(Severity::Critical), false);
    let warning = any_with(findings, None, Some(Severity::Warning), false);
    let peering = any_with(findings, Some(FindingCategory::PeeringCongestion), None, false);
    let loss = any_with(findings, Some(FindingCategory::PacketLoss), None, false);
    let jitter = any_with(findings, Some(FindingCategory::Jitter), None, false);
    let routing = any_with(findings, Some(FindingCategory::RoutingAnomaly), None, false);
    let latency = any_with(findings, Some(FindingCategory::HighLatency), None, true);
    if critical {
        (
            VerdictStatus::Faulty,
            if peering {
                VerdictCause::Peering
            } else if loss {
                VerdictCause::PacketLoss
            } else if jitter {
                VerdictCause::Jitter
            } else if latency {
                VerdictCause::Latency
            } else {
                VerdictCause::Other
            },
        )
    } else if warning {
        (
            VerdictStatus::Degraded,
            if jitter {
                VerdictCause::Jitter
            } else if routing {
                VerdictCause::Routing
            } else if latency {
                VerdictCause::Latency
            } else {
                VerdictCause::Other
            },
        )
    } else {
        (VerdictStatus::Healthy, VerdictCause::Nothing)
    }
}

/// Status and cause of the verdict of a return-path diagnosis.
pub open spec fn return_verdict(fs: Seq<Finding>) -> (VerdictStatus, VerdictCause) {
    let critical = has_finding(fs, None, Some(Severity::Critical), false);
    let warning = has_finding(fs, None, Some(Severity::Warning), false);
    if critical {
        (
            VerdictStatus::Faulty,
            if has_finding(fs, Some(FindingCategory::PeeringCongestion), None, false) {
                VerdictCause::Peering
            } else if has_finding(fs, Some(FindingCategory::PacketLoss), None, false) {
                VerdictCause::PacketLoss
            } else if has_finding(fs, Some(FindingCategory::HighLatency), Some(Severity::Critical), false) {
                VerdictCause::Latency
            } else {
                VerdictCause::Other
            },
        )
    } else if warning {
        (
            VerdictStatus::Degraded,
            if has_finding(fs, Some(FindingCategory::Jitter), None, false) {
                VerdictCause::Jitter
            } else if has_finding(fs, Some(FindingCategory::RoutingAnomaly), None, false) {
                VerdictCause::Routing
            } else if has_finding(fs, Some(FindingCategory::HighLatency), None, false) {
                VerdictCause::Latency
            } else {
                VerdictCause::Other
            },
        )
    } else {
        (VerdictStatus::Healthy, VerdictCause::Nothing)
    }
}

/// Decides the verdict of a return-path diagnosis.
pub fn decide_return_verdict(findings: &[Finding]) -> (r: (VerdictStatus, VerdictCause))
    ensures
        r == return_verdict(findings@),
{
    let critical = any_with(findings, None, Some(Severity::Critical), false);
    let warning = any_with(findings, None, Some(Severity::Warning), false);
    if critical {
        (
            VerdictStatus::Faulty,
            if any_with(findings, Some(FindingCategory::PeeringCongestion), None, false) {
                VerdictCause::Peering
            } else if any_with(findings, Some(FindingCategory::PacketLoss), None, false) {
                VerdictCause::PacketLoss
            } else if any_with(findings, Some(FindingCategory::HighLatency), Some(Severity::Critical), false) {
                VerdictCause::Latency
            } else {
                VerdictCause::Other
            },
        )
    } else if warning {
        (
            VerdictStatus::Degraded,
            if any_with(findings, Some(FindingCategory::Jitter), None, false) {
                VerdictCause::Jitter
            } else if any_with(findings, Some(FindingCategory::RoutingAnomaly), None, false) {
                VerdictCause::Routing
            } else if any_with(findings, Some(FindingCategory::HighLatency), None, false) {
                VerdictCause::Latency
            } else {
                VerdictCause::Other
            },
        )
    } else {
        (VerdictStatus::Healthy, VerdictCause::Nothing)
    }
}

/// A critical finding always makes the verdict faulty, and a verdict is
/// healthy exactly when no finding is critical or a warning.
pub proof fn lemma_verdict_follows_severity(fs: Seq<Finding>)
    ensures
        has_finding(fs, None, Some(Severity::Critical), false) ==> forward_verdict(fs).0 == VerdictStatus::Faulty
            && return_verdict(fs).0 == VerdictStatus::Faulty,
        (forward_verdict(fs).0 == VerdictStatus::Healthy) <==> (!has_finding(fs, None, Some(Severity::Critical), false)
            && !has_finding(fs, None, Some(Severity::Warning), false)),
        (return_verdict(fs).0 == VerdictStatus::Healthy) <==> (!has_finding(fs, None, Some(Severity::Critical), false)
            && !has_finding(fs, None, Some(Severity::Warning), false)),
{
}

/// Index of the first finding of category `c` and severity `s`.
pub open spec fn first_with(fs: Seq<Finding>, c: FindingCategory, s: Severity, from: int) -> Option<int>
    decreases fs.len() - from,
{
    if from < 0 || from >= fs.len() {
        None
    } else if fs[from].category == c && fs[from].severity == s {
        Some(from)
    } else {
        first_with(fs, c, s, from + 1)
    }
}

/// " ({description})" of the first critical peering finding, or nothing.
pub open spec fn spec_peering_segment(fs: Seq<Finding>) -> Seq<char> {
    match first_with(fs, FindingCategory::PeeringCongestion, Severity::Critical, 0) {
        Some(i) => " ("@ + fs[i].description@ + ")"@,
        None => Seq::empty(),
    }
}

/// The segment named by the first critical peering finding, as " (…)" to
/// append to the verdict, or an empty string.
pub fn find_peering_segment(findings: &[Finding]) -> (r: String)
    ensures
        r@ == spec_peering_segment(findings@),
{
    let mut i: usize = 0;
    while i < findings.len()
        invariant
            i <= findings@.len(),
            first_with(findings@, FindingCategory::PeeringCongestion, Severity::Critical, 0) == first_with(
                findings@,
                FindingCategory::PeeringCongestion,
                Severity::Critical,
                i as int,
            ),
        decreases findings@.len() - i,
    {
        let f = &findings[i];
        if f.category == FindingCategory::PeeringCongestion && f.severity == Severity::Critical {
            let mut out: Vec<char> = Vec::new();
            push_str(&mut out, " (");
            push_str(&mut out, f.description.as_str());
            push_str(&mut out, ")");
            assert(out@ =~= spec_peering_segment(findings@));
            return string_from_chars(&out);
        }
        i = i + 1;
    }
    let out: Vec<char> = Vec::new();
    assert(out@ =~= spec_peering_segment(findings@));
    string_from_chars(&out)
}

/// Index of the key finding of a run: the first critical one, else the first
/// warning.
pub open spec fn spec_key_finding(fs: Seq<Finding>) -> Option<int> {
    match first_severity(fs, Severity::Critical, 0) {
        Some(i) => Some(i),
        None => first_severity(fs, Severity::Warning, 0),
    }
}

/// Index of the first finding of severity `s` at or after `from`.
pub open spec fn first_severity(fs: Seq<Finding>, s: Severity, from: int) -> Option<int>
    decreases fs.len() - from,
{
    if from < 0 || from >= fs.len() {
        None
    } else if fs[from].severity == s {
        Some(from)
    } else {
        first_severity(fs, s, from + 1)
    }
}

fn find_severity(fs: &[Finding], s: Severity) -> (r: Option<usize>)
    ensures
        match first_severity(fs@, s, 0) {
            Some(i) => r == Some(i as usize),
            None => r is None,
        },
{
    let mut i: usize = 0;
    while i < fs.len()
        invariant
            i <= fs@.len(),
            first_severity(fs@, s, 0) == first_severity(fs@, s, i as int),
        decreases fs@.len() - i,
    {
        if fs[i].severity == s {
            return Some(i);
        }
        i = i + 1;
    }
    None
}

/// The key finding of a run (first critical, else first warning), shown in
/// the one-line summaries of watch sessions.
pub fn key_finding_index(findings: &[Finding]) -> (r: Option<usize>)
    ensures
        match spec_key_finding(findings@) {
            Some(i) => r == Some(i as usize),
            None => r is None,
        },
{
    match find_severity(findings, Severity::Critical) {
        Some(i) => Some(i),
        None => find_severity(findings, Severity::Warning),
    }
}

/// The verdict of a forward path over its findings: faulty as soon as one
/// finding is critical, degraded when the worst is a warning, healthy
/// (nothing to blame) otherwise. A faulty verdict blames, in this order of
/// precedence, congestion at a peering, then packet loss, then jitter, then
/// latency (a non-informative latency finding), else something else,
/// whatever the severity of the finding that gives the cause. A degraded one
/// blames jitter, then routing, then latency, else something else.
pub proof fn lemma_forward_verdict_law(fs: Seq<Finding>)
    ensures
        (exists|i: int| 0 <= i < fs.len() && (#[trigger] fs[i]).severity == Severity::Critical) ==> {
            let v = forward_verdict(fs);
            &&& v.0 == VerdictStatus::Faulty
            &&& (exists|i: int| 0 <= i < fs.len() && (#[trigger] fs[i]).category == FindingCategory::PeeringCongestion)
                ==> v.1 == VerdictCause::Peering
            &&& (forall|i: int| 0 <= i < fs.len() ==> (#[trigger] fs[i]).category != FindingCategory::PeeringCongestion)
                && (exists|i: int| 0 <= i < fs.len() && (#[trigger] fs[i]).category == FindingCategory::PacketLoss)
                ==> v.1 == VerdictCause::PacketLoss
            &&& (forall|i: int|
                0 <= i < fs.len() ==> (#[trigger] fs[i]).category != FindingCategory::PeeringCongestion
                    && fs[i].category != FindingCategory::PacketLoss) && (exists|i: int|
                0 <= i < fs.len() && (#[trigger] fs[i]).category == FindingCategory::Jitter) ==> v.1
                == VerdictCause::Jitter
            &&& (forall|i: int|
                0 <= i < fs.len() ==> (#[trigger] fs[i]).category != FindingCategory::PeeringCongestion
                    && fs[i].category != FindingCategory::PacketLoss && fs[i].category != FindingCategory::Jitter) && (
            exists|i: int|
                0 <= i < fs.len() && (#[trigger] fs[i]).category == FindingCategory::HighLatency && fs[i].severity
                    != Severity::Info) ==> v.1 == VerdictCause::Latency
            &&& (forall|i: int|
                0 <= i < fs.len() ==> (#[trigger] fs[i]).category != FindingCategory::PeeringCongestion
                    && fs[i].category != FindingCategory::PacketLoss && fs[i].category != FindingCategory::Jitter
                    && !(fs[i].category == FindingCategory::HighLatency && fs[i].severity != Severity::Info)) ==> v.1
                == VerdictCause::Other
        },
        (forall|i: int| 0 <= i < fs.len() ==> (#[trigger] fs[i]).severity != Severity::Critical) && (exists|i: int|
            0 <= i < fs.len() && (#[trigger] fs[i]).severity == Severity::Warning) ==> {
            let v = forward_verdict(fs);
            &&& v.0 == VerdictStatus::Degraded
            &&& (exists|i: int| 0 <= i < fs.len() && (#[trigger] fs[i]).category == FindingCategory::Jitter) ==> v.1
                == VerdictCause::Jitter
            &&& (forall|i: int| 0 <= i < fs.len() ==> (#[trigger] fs[i]).category != FindingCategory::Jitter) && (
            exists|i: int| 0 <= i < fs.len() && (#[trigger] fs[i]).category == FindingCategory::RoutingAnomaly) ==> v.1
                == VerdictCause::Routing
            &&& (forall|i: int|
                0 <= i < fs.len() ==> (#[trigger] fs[i]).category != FindingCategory::Jitter && fs[i].category
                    != FindingCategory::RoutingAnomaly) && (exists|i: int|
                0 <= i < fs.len() && (#[trigger] fs[i]).category == FindingCategory::HighLatency && fs[i].severity
                    != Severity::Info) ==> v.1 == VerdictCause::Latency
            &&& (forall|i: int|
                0 <= i < fs.len() ==> (#[trigger] fs[i]).category != FindingCategory::Jitter && fs[i].category
                    != FindingCategory::RoutingAnomaly && !(fs[i].category == FindingCategory::HighLatency
                    && fs[i].severity != Severity::Info)) ==> v.1 == VerdictCause::Other
        },
        (forall|i: int|
            0 <= i < fs.len() ==> (#[trigger] fs[i]).severity != Severity::Critical && fs[i].severity
                != Severity::Warning) ==> forward_verdict(fs) == (VerdictStatus::Healthy, VerdictCause::Nothing),
{
}

/// The verdict of a return path over its findings: the same statuses; a
/// faulty verdict blames a peering, then packet loss (whatever its
/// severity), then a critical latency finding, else something else; a
/// degraded one blames jitter, then routing, then latency, else something
/// else.
pub proof fn lemma_return_verdict_law(fs: Seq<Finding>)
    ensures
        (exists|i: int| 0 <= i < fs.len() && (#[trigger] fs[i]).severity == Severity::Critical) ==> {
            let v = return_verdict(fs);
            &&& v.0 == VerdictStatus::Faulty
            &&& (exists|i: int| 0 <= i < fs.len() && (#[trigger] fs[i]).category == FindingCategory::PeeringCongestion)
                ==> v.1 == VerdictCause::Peering
            &&& (forall|i: int| 0 <= i < fs.len() ==> (#[trigger] fs[i]).category != FindingCategory::PeeringCongestion)
                && (exists|i: int| 0 <= i < fs.len() && (#[trigger] fs[i]).category == FindingCategory::PacketLoss)
                ==> v.1 == VerdictCause::PacketLoss
            &&& (forall|i: int|
                0 <= i < fs.len() ==> (#[trigger] fs[i]).category != FindingCategory::PeeringCongestion
                    && fs[i].category != FindingCategory::PacketLoss) && (exists|i: int|
                0 <= i < fs.len() && (#[trigger] fs[i]).category == FindingCategory::HighLatency && fs[i].severity
                    == Severity::Critical) ==> v.1 == VerdictCause::Latency
            &&& (forall|i: int|
                0 <= i < fs.len() ==> (#[trigger] fs[i]).category != FindingCategory::PeeringCongestion
                    && fs[i].category != FindingCategory::PacketLoss && !(fs[i].category == FindingCategory::HighLatency
                    && fs[i].severity == Severity::Critical)) ==> v.1 == VerdictCause::Other
        },
        (forall|i: int| 0 <= i < fs.len() ==> (#[trigger] fs[i]).severity != Severity::Critical) && (exists|i: int|
            0 <= i < fs.len() && (#[trigger] fs[i]).severity == Severity::Warning) ==> {
            let v = return_verdict(fs);
            &&& v.0 == VerdictStatus::Degraded
            &&& (exists|i: int| 0 <= i < fs.len() && (#[trigger] fs[i]).category == FindingCategory::Jitter) ==> v.1
                == VerdictCause::Jitter
            &&& (forall|i: int| 0 <= i < fs.len() ==> (#[trigger] fs[i]).category != FindingCategory::Jitter) && (
            exists|i: int| 0 <= i < fs.len() && (#[trigger] fs[i]).category == FindingCategory::RoutingAnomaly) ==> v.1
                == VerdictCause::Routing
            &&& (forall|i: int|
                0 <= i < fs.len() ==> (#[trigger] fs[i]).category != FindingCategory::Jitter && fs[i].category
                    != FindingCategory::RoutingAnomaly) && (exists|i: int|
                0 <= i < fs.len() && (#[trigger] fs[i]).category == FindingCategory::HighLatency) ==> v.1
                == VerdictCause::Latency
            &&& (forall|i: int|
                0 <= i < fs.len() ==> (#[trigger] fs[i]).category != FindingCategory::Jitter && fs[i].category
                    != FindingCategory::RoutingAnomaly && fs[i].category != FindingCategory::HighLatency) ==> v.1
                == VerdictCause::Other
        },
        (forall|i: int|
            0 <= i < fs.len() ==> (#[trigger] fs[i]).severity != Severity::Critical && fs[i].severity
                != Severity::Warning) ==> return_verdict(fs) == (VerdictStatus::Healthy, VerdictCause::Nothing),
{
}

proof fn lemma_first_severity(fs: Seq<Finding>, sv: Severity, from: int)
    requires
        0 <= from,
    ensures
        match first_severity(fs, sv, from) {
            Some(i) => from <= i < fs.len() && fs[i].severity == sv && forall|j: int| from <= j < i ==> (#[trigger] fs[j]).severity != sv,
            None => forall|j: int| from <= j < fs.len() ==> (#[trigger] fs[j]).severity != sv,
        },
    decreases fs.len() - from,
{
    if from < fs.len() {
        lemma_first_severity(fs, sv, from + 1);
    }
}

proof fn lemma_first_with(fs: Seq<Finding>, c: FindingCategory, sv: Severity, from: int)
    requires
        0 <= from,
    ensures
        match first_with(fs, c, sv, from) {
            Some(i) => from <= i < fs.len() && fs[i].category == c && fs[i].severity == sv && forall|j: int|
                from <= j < i ==> !((#[trigger] fs[j]).category == c && fs[j].severity == sv),
            None => forall|j: int| from <= j < fs.len() ==> !((#[trigger] fs[j]).category == c && fs[j].severity == sv),
        },
    decreases fs.len() - from,
{
    if from < fs.len() {
        lemma_first_with(fs, c, sv, from + 1);
    }
}

/// The key finding of a run is its first critical finding; when none is
/// critical, its first warning; when there is neither, there is none.
pub proof fn lemma_key_finding_law(fs: Seq<Finding>)
    ensures
        match spec_key_finding(fs) {
            Some(i) => 0 <= i < fs.len() && ((fs[i].severity == Severity::Critical && forall|j: int|
                0 <= j < i ==> (#[trigger] fs[j]).severity != Severity::Critical) || (fs[i].severity
                == Severity::Warning && (forall|j: int| 0 <= j < fs.len() ==> (#[trigger] fs[j]).severity
                != Severity::Critical) && forall|j: int| 0 <= j < i ==> (#[trigger] fs[j]).severity != Severity::Warning)),
            None => forall|j: int|
                0 <= j < fs.len() ==> (#[trigger] fs[j]).severity != Severity::Critical && fs[j].severity
                    != Severity::Warning,
        },
{
    lemma_first_severity(fs, Severity::Critical, 0);
    lemma_first_severity(fs, Severity::Warning, 0);
}

/// The peering segment names the first critical peering-congestion finding
/// as " (description)", and is empty when there is no such finding.
pub proof fn lemma_peering_segment_law(fs: Seq<Finding>)
    ensures
        (forall|j: int|
            0 <= j < fs.len() ==> !((#[trigger] fs[j]).category == FindingCategory::PeeringCongestion && fs[j].severity
                == Severity::Critical)) ==> spec_peering_segment(fs).len() == 0,
        forall|i: int|
            0 <= i < fs.len() && (#[trigger] fs[i]).category == FindingCategory::PeeringCongestion && fs[i].severity
                == Severity::Critical && (forall|j: int|
                0 <= j < i ==> !((#[trigger] fs[j]).category == FindingCategory::PeeringCongestion && fs[j].severity
                    == Severity::Critical)) ==> spec_peering_segment(fs) == seq![' ', '('] + fs[i].description@
                + seq![')'],
{
    lemma_first_with(fs, FindingCategory::PeeringCongestion, Severity::Critical, 0);
    reveal_strlit(" (");
    reveal_strlit(")");
    assert(" ("@ =~= seq![' ', '(']);
    assert(")"@ =~= seq![')']);
}

} // verus!
