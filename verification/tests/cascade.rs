use peering_diag::speedtest::cascade::{after_step, cascade_plan, first_action, CascadeAction, CascadeStep};
use peering_diag::speedtest::tier1_db::MeasureMethod;

#[test]
fn cascade_for_cogent_with_everything() {
    let plan = cascade_plan(174, true, true, true);
    let methods: Vec<MeasureMethod> = plan.iter().map(|s| s.method()).collect();
    assert_eq!(
        methods,
        vec![MeasureMethod::SpeedtestDirect, MeasureMethod::SpeedtestTier1Db, MeasureMethod::Iperf3, MeasureMethod::Proxy]
    );
    match plan[1] {
        CascadeStep::Tier1Db { server_id, .. } => assert_eq!(server_id, 51308),
        _ => panic!("expected the Speedtest server of the base"),
    }
}

#[test]
fn iperf3_is_skipped_when_missing() {
    let plan = cascade_plan(6939, false, false, false);
    assert!(plan.is_empty());
    let plan = cascade_plan(6939, false, false, true);
    assert_eq!(plan.len(), 3);
}

#[test]
fn unknown_as_falls_back_to_proxy() {
    let plan = cascade_plan(64512, false, true, true);
    assert_eq!(plan.len(), 1);
    assert_eq!(plan[0].method(), MeasureMethod::Proxy);
}

#[test]
fn cascade_stops_at_the_first_step_that_succeeds() {
    assert_eq!(first_action(0), CascadeAction::Stop(None));
    assert_eq!(first_action(3), CascadeAction::Run(0));
    assert_eq!(after_step(3, 0, false), CascadeAction::Run(1));
    assert_eq!(after_step(3, 1, true), CascadeAction::Stop(Some(1)));
    assert_eq!(after_step(3, 2, false), CascadeAction::Stop(None));
}
