use cuda_atp_market::apoptosis::{
    graceful_shutdown_sequence, health_decision, veto_applies, ApoptosisDecision, ShutdownStep,
    ShutdownSteps,
};

/// Default thresholds: energy 5%, three starvation cycles, trust floor 0.1.
const ENERGY_THRESHOLD: f64 = 0.05;
const STARVATION_LIMIT: u32 = 3;
const TRUST_FLOOR: f64 = 0.1;

/// The health check under the default thresholds, comparing the
/// measurements with them first.
fn check_agent(energy_ratio: f64, trust: f64, starvation_count: u32) -> ApoptosisDecision {
    health_decision(
        trust < TRUST_FLOOR,
        energy_ratio < ENERGY_THRESHOLD,
        starvation_count,
        STARVATION_LIMIT,
    )
}

/// The neighbourhood veto, averaging the neighbours' trust first.
fn neighborhood_veto(neighbors: &[(String, f64)], proposed: ApoptosisDecision) -> bool {
    let above = if neighbors.is_empty() {
        false
    } else {
        let n = neighbors.len() as f64;
        neighbors.iter().map(|(_, t)| t).sum::<f64>() / n > 0.6
    };
    veto_applies(proposed, neighbors.len(), above)
}

#[test]
fn apoptosis_continue() {
    assert_eq!(check_agent(0.5, 0.8, 0), ApoptosisDecision::Continue);
}

#[test]
fn apoptosis_prepare() {
    assert_eq!(check_agent(0.02, 0.8, 0), ApoptosisDecision::PrepareShutdown);
}

#[test]
fn apoptosis_execute_starvation() {
    assert_eq!(check_agent(0.02, 0.8, 3), ApoptosisDecision::Execute);
}

#[test]
fn apoptosis_execute_trust_revoked() {
    assert_eq!(check_agent(0.5, 0.05, 0), ApoptosisDecision::Execute);
}

#[test]
fn veto_prevents_shutdown() {
    let neighbors = vec![("a".to_string(), 0.9), ("b".to_string(), 0.8)];
    assert!(neighborhood_veto(&neighbors, ApoptosisDecision::Execute));
}

#[test]
fn veto_fails_low_trust() {
    let neighbors = vec![("a".to_string(), 0.3), ("b".to_string(), 0.2)];
    assert!(!neighborhood_veto(&neighbors, ApoptosisDecision::Execute));
}

#[test]
fn shutdown_sequence_steps() {
    let reserve = 1000.0_f64;
    let steps = graceful_shutdown_sequence("v1", reserve * 0.1);
    assert_eq!(steps.steps.len(), 4);
    assert!(matches!(&steps.steps[0], ShutdownStep::DrainEnergy { .. }));
}

#[test]
fn test_07_apoptosis_full_lifecycle() {
    assert_eq!(check_agent(0.5, 0.9, 0), ApoptosisDecision::Continue);
    assert_eq!(check_agent(0.03, 0.9, 0), ApoptosisDecision::PrepareShutdown);
    assert_eq!(check_agent(0.03, 0.9, 5), ApoptosisDecision::Execute);
    assert_eq!(check_agent(0.5, 0.05, 0), ApoptosisDecision::Execute);
}

#[test]
fn test_08_apoptosis_veto() {
    let neighbors = vec![
        ("n1".to_string(), 1.0),
        ("n2".to_string(), 1.0),
        ("n3".to_string(), 1.0),
    ];
    assert!(neighborhood_veto(&neighbors, ApoptosisDecision::Execute));
    assert!(!neighborhood_veto(&neighbors, ApoptosisDecision::PrepareShutdown));
}

#[test]
fn starvation_without_low_energy_only_warns() {
    assert_eq!(health_decision(false, false, 1, 3), ApoptosisDecision::PrepareShutdown);
    assert_eq!(health_decision(false, false, 100, 3), ApoptosisDecision::PrepareShutdown);
}

#[test]
fn low_energy_below_the_limit_only_warns() {
    assert_eq!(health_decision(false, true, 2, 3), ApoptosisDecision::PrepareShutdown);
    assert_eq!(health_decision(false, true, 3, 3), ApoptosisDecision::Execute);
}

#[test]
fn zero_limit_executes_on_first_low_reading() {
    assert_eq!(health_decision(false, true, 0, 0), ApoptosisDecision::Execute);
    assert_eq!(health_decision(false, false, 0, 0), ApoptosisDecision::Continue);
}

#[test]
fn revoked_trust_executes_whatever_else_holds() {
    assert_eq!(health_decision(true, false, 0, 3), ApoptosisDecision::Execute);
    assert_eq!(health_decision(true, true, 10, 3), ApoptosisDecision::Execute);
}

#[test]
fn decision_escalates_with_starvation() {
    let mut last = 0;
    for count in 0..6u32 {
        let rank = match health_decision(false, true, count, 3) {
            ApoptosisDecision::Continue => 0,
            ApoptosisDecision::PrepareShutdown => 1,
            ApoptosisDecision::Execute => 2,
        };
        assert!(rank >= last);
        last = rank;
    }
    assert_eq!(last, 2);
}

#[test]
fn isolated_agent_cannot_be_vetoed() {
    assert!(!veto_applies(ApoptosisDecision::Execute, 0, true));
    assert!(!neighborhood_veto(&[], ApoptosisDecision::Execute));
}

#[test]
fn only_execution_can_be_vetoed() {
    assert!(veto_applies(ApoptosisDecision::Execute, 2, true));
    assert!(!veto_applies(ApoptosisDecision::Execute, 2, false));
    assert!(!veto_applies(ApoptosisDecision::PrepareShutdown, 2, true));
    assert!(!veto_applies(ApoptosisDecision::Continue, 2, true));
}

#[test]
fn quorum_at_exactly_the_threshold_does_not_veto() {
    let neighbors = vec![("a".to_string(), 0.5), ("b".to_string(), 0.75)];
    // Mean 0.625 > 0.6 vetoes; a mean of exactly 0.5 does not.
    assert!(neighborhood_veto(&neighbors, ApoptosisDecision::Execute));
    let low = vec![("a".to_string(), 0.5), ("b".to_string(), 0.5)];
    assert!(!neighborhood_veto(&low, ApoptosisDecision::Execute));
}

#[test]
fn shutdown_sequence_order_and_contents() {
    let steps = graceful_shutdown_sequence("vessel-7", 42u64);
    assert_eq!(
        steps.steps,
        vec![
            ShutdownStep::DrainEnergy { recipient: "fleet_pool".to_string(), amount: 42 },
            ShutdownStep::RevokeTrust { agent_id: "vessel-7".to_string() },
            ShutdownStep::NotifyFleet {
                agent_id: "vessel-7".to_string(),
                reason: "apoptosis: metabolic failure".to_string(),
            },
            ShutdownStep::MarkTombstone { agent_id: "vessel-7".to_string() },
        ]
    );
}

#[test]
fn shutdown_drain_amount_is_passed_through() {
    let steps = graceful_shutdown_sequence("v1", 1000.0_f64 * 0.1);
    match &steps.steps[0] {
        ShutdownStep::DrainEnergy { recipient, amount } => {
            assert_eq!(recipient, "fleet_pool");
            assert!((amount - 100.0).abs() < 1e-9);
        }
        other => panic!("expected drain first, got {:?}", other),
    }
}

#[test]
fn shutdown_steps_new_keeps_steps() {
    let s: ShutdownSteps<u32> = ShutdownSteps::new(vec![ShutdownStep::MarkTombstone {
        agent_id: "x".to_string(),
    }]);
    assert_eq!(s.steps.len(), 1);
    assert!(matches!(&s.steps[0], ShutdownStep::MarkTombstone { agent_id } if agent_id == "x"));
}
