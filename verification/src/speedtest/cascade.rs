//! The cascade of measurement methods, by decreasing reliability.
//!
//! For one AS: a Speedtest server inside the AS, then the endpoints of the
//! static base (Speedtest by server ID, iperf3, HTTP download), then a local
//! proxy server. The steps are tried in order and the first that succeeds
//! gives the measure; when none does, the AS is skipped.

use vstd::prelude::*;
use crate::speedtest::tier1_db::{
    endpoints_for, get_endpoints_for_asn, lemma_endpoints_for_sorted_and_complete, method_rank, KnownEndpoint,
    MeasureMethod,
};
use crate::text::{chars_of, parse_unsigned, parse_unsigned_spec};

verus! {

/// One step of the cascade.
#[derive(Debug, Clone, Copy)]
pub enum CascadeStep {
    /// Speedtest on the first Speedtest server found inside the AS.
    Direct,
    /// Speedtest on a server of the static base, by its ID.
    Tier1Db { endpoint: KnownEndpoint, server_id: u32 },
    /// iperf3 against a public server of the base.
    Iperf3 { endpoint: KnownEndpoint },
    /// HTTP download of a test file of the base.
    Http { endpoint: KnownEndpoint },
    /// Speedtest on a local server: measures the local link, not the path to
    /// the AS.
    Proxy,
}

/// The step that an endpoint of the base gives, if it applies.
pub open spec fn step_of(e: KnownEndpoint, iperf3_available: bool) -> Option<CascadeStep> {
    match e.method {
        MeasureMethod::SpeedtestTier1Db => match parse_unsigned_spec(e.endpoint@, u32::MAX as int) {
            Some(id) => Some(CascadeStep::Tier1Db { endpoint: e, server_id: id as u32 }),
            None => None,
        },
        MeasureMethod::Iperf3 => if iperf3_available {
            Some(CascadeStep::Iperf3 { endpoint: e })
        } else {
            None
        },
        MeasureMethod::HttpDownload => Some(CascadeStep::Http { endpoint: e }),
        _ => None,
    }
}

/// The steps that the endpoints `eps` give, in order.
pub open spec fn steps_of(eps: Seq<KnownEndpoint>, iperf3_available: bool) -> Seq<CascadeStep>
    decreases eps.len(),
{
    if eps.len() == 0 {
        Seq::empty()
    } else {
        let prev = steps_of(eps.drop_last(), iperf3_available);
        match step_of(eps.last(), iperf3_available) {
            Some(st) => prev.push(st),
            None => prev,
        }
    }
}

/// The whole cascade for an AS.
pub open spec fn spec_cascade(asn: u32, has_direct: bool, has_proxy: bool, iperf3_available: bool) -> Seq<
    CascadeStep,
> {
    (if has_direct {
        seq![CascadeStep::Direct]
    } else {
        Seq::empty()
    }) + steps_of(endpoints_for(asn), iperf3_available) + (if has_proxy {
        seq![CascadeStep::Proxy]
    } else {
        Seq::empty()
    })
}

fn step_for(e: KnownEndpoint, iperf3_available: bool) -> (r: Option<CascadeStep>)
    ensures
        r == step_of(e, iperf3_available),
{
    match e.method {
        MeasureMethod::SpeedtestTier1Db => {
            let cs = chars_of(e.endpoint);
            match parse_unsigned(cs.as_slice(), 0xffff_ffff) {
                Some(id) => Some(CascadeStep::Tier1Db { endpoint: e, server_id: id as u32 }),
                None => None,
            }
        },
        MeasureMethod::Iperf3 => if iperf3_available {
            Some(CascadeStep::Iperf3 { endpoint: e })
        } else {
            None
        },
        MeasureMethod::HttpDownload => Some(CascadeStep::Http { endpoint: e }),
        _ => None,
    }
}

/// The measurement steps to try for `asn`, in order: the Speedtest server
/// inside the AS when there is one (`has_direct`), then the endpoints of the
/// static base by reliability (a Speedtest entry only when its ID is a
/// number, iperf3 only when the tool is installed), then the local proxy
/// server when there is one (`has_proxy`).
pub fn cascade_plan(asn: u32, has_direct: bool, has_proxy: bool, iperf3_available: bool) -> (r: Vec<
    CascadeStep,
>)
    ensures
        r@ == spec_cascade(asn, has_direct, has_proxy, iperf3_available),
{
    let mut r: Vec<CascadeStep> = Vec::new();
    if has_direct {
        r.push(CascadeStep::Direct);
    }
    let ghost head = r@;
    let eps = get_endpoints_for_asn(asn);
    let mut i: usize = 0;
    while i < eps.len()
        invariant
            i <= eps@.len(),
            eps@ == endpoints_for(asn),
            head == (if has_direct {
                seq![CascadeStep::Direct]
            } else {
                Seq::<CascadeStep>::empty()
            }),
            r@ == head + steps_of(eps@.subrange(0, i as int), iperf3_available),
        decreases eps@.len() - i,
    {
        proof {
            assert(eps@.subrange(0, i + 1).drop_last() =~= eps@.subrange(0, i as int));
        }
        match step_for(eps[i], iperf3_available) {
            Some(st) => {
                r.push(st);
                assert(r@ =~= head + steps_of(eps@.subrange(0, i + 1), iperf3_available));
            },
            None => {},
        }
        i = i + 1;
    }
    assert(eps@.subrange(0, eps@.len() as int) =~= eps@);
    if has_proxy {
        r.push(CascadeStep::Proxy);
    }
    assert(r@ =~= spec_cascade(asn, has_direct, has_proxy, iperf3_available));
    r
}

/// The method that a step measures with.
pub open spec fn step_method(st: CascadeStep) -> MeasureMethod {
    match st {
        CascadeStep::Direct => MeasureMethod::SpeedtestDirect,
        CascadeStep::Tier1Db { .. } => MeasureMethod::SpeedtestTier1Db,
        CascadeStep::Iperf3 { .. } => MeasureMethod::Iperf3,
        CascadeStep::Http { .. } => MeasureMethod::HttpDownload,
        CascadeStep::Proxy => MeasureMethod::Proxy,
    }
}

impl CascadeStep {
    /// The method this step measures with.
    pub fn method(&self) -> (m: MeasureMethod)
        ensures
            m == step_method(*self),
    {
        match self {
            CascadeStep::Direct => MeasureMethod::SpeedtestDirect,
            CascadeStep::Tier1Db { .. } => MeasureMethod::SpeedtestTier1Db,
            CascadeStep::Iperf3 { .. } => MeasureMethod::Iperf3,
            CascadeStep::Http { .. } => MeasureMethod::HttpDownload,
            CascadeStep::Proxy => MeasureMethod::Proxy,
        }
    }
}

/// `eps` is sorted by reliability rank.
pub open spec fn ranks_sorted(eps: Seq<KnownEndpoint>) -> bool {
    forall|i: int, j: int|
        0 <= i < j < eps.len() ==> method_rank((#[trigger] eps[i]).method) <= method_rank((#[trigger] eps[j]).method)
}

proof fn lemma_steps_of(eps: Seq<KnownEndpoint>, iperf3_available: bool)
    ensures
        forall|i: int|
            0 <= i < steps_of(eps, iperf3_available).len() ==> exists|j: int|
                0 <= j < eps.len() && step_method(#[trigger] steps_of(eps, iperf3_available)[i]) == eps[j].method,
        forall|i: int|
            0 <= i < steps_of(eps, iperf3_available).len() ==> 2 <= method_rank(
                step_method(#[trigger] steps_of(eps, iperf3_available)[i]),
            ) <= 4,
        ranks_sorted(eps) ==> forall|i: int, j: int|
            0 <= i < j < steps_of(eps, iperf3_available).len() ==> method_rank(
                step_method(#[trigger] steps_of(eps, iperf3_available)[i]),
            ) <= method_rank(step_method(#[trigger] steps_of(eps, iperf3_available)[j])),
    decreases eps.len(),
{
    if eps.len() > 0 {
        let d = eps.drop_last();
        lemma_steps_of(d, iperf3_available);
        let prev = steps_of(d, iperf3_available);
        let cur = steps_of(eps, iperf3_available);
        assert forall|i: int| 0 <= i < cur.len() implies exists|j: int|
            0 <= j < eps.len() && step_method(#[trigger] cur[i]) == eps[j].method by {
            if i < prev.len() {
                assert(cur[i] == prev[i]);
                let j = choose|j: int| 0 <= j < d.len() && step_method(prev[i]) == d[j].method;
                assert(d[j] == eps[j]);
            } else {
                assert(step_method(cur[i]) == eps[eps.len() - 1].method);
            }
        }
        assert forall|i: int| 0 <= i < cur.len() implies 2 <= method_rank(step_method(#[trigger] cur[i])) <= 4 by {
            if i < prev.len() {
                assert(cur[i] == prev[i]);
            }
        }
        if ranks_sorted(eps) {
            assert(ranks_sorted(d)) by {
                assert forall|i: int, j: int| 0 <= i < j < d.len() implies method_rank((#[trigger] d[i]).method)
                    <= method_rank((#[trigger] d[j]).method) by {
                    assert(d[i] == eps[i] && d[j] == eps[j]);
                }
            }
            assert forall|i: int, j: int| 0 <= i < j < cur.len() implies method_rank(
                step_method(#[trigger] cur[i]),
            ) <= method_rank(step_method(#[trigger] cur[j])) by {
                assert(cur[i] == prev[i]);
                if j < prev.len() {
                    assert(cur[j] == prev[j]);
                } else {
                    let k = choose|k: int| 0 <= k < d.len() && step_method(prev[i]) == d[k].method;
                    assert(d[k] == eps[k]);
                    assert(step_method(cur[j]) == eps[eps.len() - 1].method);
                }
            }
        }
    }
}

/// The cascade goes by decreasing reliability: the rank of the method of
/// each step is no lower than that of the steps before it.
pub proof fn lemma_cascade_by_reliability(asn: u32, has_direct: bool, has_proxy: bool, iperf3_available: bool)
    ensures
        forall|i: int, j: int|
            0 <= i < j < spec_cascade(asn, has_direct, has_proxy, iperf3_available).len() ==> method_rank(
                step_method(#[trigger] spec_cascade(asn, has_direct, has_proxy, iperf3_available)[i]),
            ) <= method_rank(step_method(#[trigger] spec_cascade(asn, has_direct, has_proxy, iperf3_available)[j])),
{
    lemma_endpoints_for_sorted_and_complete(asn);
    let eps = endpoints_for(asn);
    lemma_steps_of(eps, iperf3_available);
    let head: Seq<CascadeStep> = if has_direct {
        seq![CascadeStep::Direct]
    } else {
        Seq::empty()
    };
    let mid = steps_of(eps, iperf3_available);
    let tail: Seq<CascadeStep> = if has_proxy {
        seq![CascadeStep::Proxy]
    } else {
        Seq::empty()
    };
    let plan = spec_cascade(asn, has_direct, has_proxy, iperf3_available);
    assert(plan == head + mid + tail);
    assert forall|i: int, j: int| 0 <= i < j < plan.len() implies method_rank(step_method(#[trigger] plan[i]))
        <= method_rank(step_method(#[trigger] plan[j])) by {
        if i < head.len() {
            assert(plan[i] == CascadeStep::Direct);
            if j >= head.len() && j < head.len() + mid.len() {
                assert(plan[j] == mid[j - head.len()]);
            }
        } else if i < head.len() + mid.len() {
            assert(plan[i] == mid[i - head.len()]);
            if j < head.len() + mid.len() {
                assert(plan[j] == mid[j - head.len()]);
            } else {
                assert(plan[j] == CascadeStep::Proxy);
            }
        } else {
            assert(plan[i] == CascadeStep::Proxy);
            assert(plan[j] == CascadeStep::Proxy);
        }
    }
}

/// What the cascade does next.
#[derive(Debug, Clone, Copy, PartialEq, Eq, Structural)]
pub enum CascadeAction {
    /// Try the step at this position of the plan.
    Run(usize),
    /// Stop: measured by the step at this position, or (`None`) every step
    /// failed.
    Stop(Option<usize>),
}

/// The first action on a plan of `plan_len` steps: its first step, or stop
/// with nothing when the plan is empty.
pub fn first_action(plan_len: usize) -> (a: CascadeAction)
    ensures
        a == (if plan_len > 0 {
            CascadeAction::Run(0)
        } else {
            CascadeAction::Stop(None)
        }),
{
    if plan_len > 0 {
        CascadeAction::Run(0)
    } else {
        CascadeAction::Stop(None)
    }
}

/// The action after step `step` of the plan was tried: stop at the first
/// step that succeeds, else go on with the next step, and stop with nothing
/// after the last one.
pub fn after_step(plan_len: usize, step: usize, succeeded: bool) -> (a: CascadeAction)
    requires
        step < plan_len,
    ensures
        a == (if succeeded {
            CascadeAction::Stop(Some(step))
        } else if step + 1 < plan_len {
            CascadeAction::Run((step + 1) as usize)
        } else {
            CascadeAction::Stop(None)
        }),
{
    if succeeded {
        CascadeAction::Stop(Some(step))
    } else if step + 1 < plan_len {
        CascadeAction::Run(step + 1)
    } else {
        CascadeAction::Stop(None)
    }
}

/// Where the cascade stops from step `i` when the steps succeed as
/// `outcomes` says (one outcome per step of the plan), following
/// `after_step`: at step `i` when it succeeds, else from step `i + 1`.
pub open spec fn run_from(outcomes: Seq<bool>, i: int) -> Option<int>
    decreases outcomes.len() - i,
{
    if i < 0 || i >= outcomes.len() {
        None
    } else if outcomes[i] {
        Some(i)
    } else {
        run_from(outcomes, i + 1)
    }
}

/// The cascade measures with the first step that succeeds, every step before
/// it having failed, and with nothing when no step succeeds.
pub proof fn lemma_cascade_stops_at_first_success(outcomes: Seq<bool>, i: int)
    requires
        0 <= i <= outcomes.len(),
    ensures
        match run_from(outcomes, i) {
            Some(k) => i <= k < outcomes.len() && outcomes[k] && forall|j: int| i <= j < k ==> !outcomes[j],
            None => forall|j: int| i <= j < outcomes.len() ==> !outcomes[j],
        },
    decreases outcomes.len() - i,
{
    if i < outcomes.len() {
        lemma_cascade_stops_at_first_success(outcomes, i + 1);
    }
}

} // verus!
