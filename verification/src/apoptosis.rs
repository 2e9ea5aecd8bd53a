//! Apoptosis protocol: the tiered shutdown decision, the neighbourhood veto
//! and the ordered shutdown sequence.
//!
//! The measurements that feed the decision (an energy ratio against its
//! threshold, a trust score against its floor, a mean neighbour trust
//! against the quorum) are compared by the caller; this module decides on
//! the outcome of those comparisons.

use vstd::prelude::*;

verus! {

/// Reasons an agent might be flagged for apoptosis.
#[derive(Debug, Clone, Copy, PartialEq, Eq, Structural)]
pub enum ApoptosisTrigger {
    EnergyBelowThreshold,
    TrustRevoked,
    StarvationCycles,
}

/// Apoptosis decision for an agent.
#[derive(Debug, Clone, Copy, PartialEq, Eq, Structural)]
pub enum ApoptosisDecision {
    Continue,
    PrepareShutdown,
    Execute,
}

/// How far along the way to shutdown a decision is.
pub open spec fn severity(d: ApoptosisDecision) -> nat {
    match d {
        ApoptosisDecision::Continue => 0,
        ApoptosisDecision::PrepareShutdown => 1,
        ApoptosisDecision::Execute => 2,
    }
}

/// The tiered decision:
/// trust below its floor executes at once; low energy together with at
/// least `starvation_limit` starvation cycles executes; low energy or any
/// starvation at all prepares a shutdown; otherwise the agent continues.
pub open spec fn spec_health_decision(
    trust_below_floor: bool,
    energy_low: bool,
    starvation_count: u32,
    starvation_limit: u32,
) -> ApoptosisDecision {
    if trust_below_floor {
        ApoptosisDecision::Execute
    } else if energy_low && starvation_count >= starvation_limit {
        ApoptosisDecision::Execute
    } else if energy_low || starvation_count > 0 {
        ApoptosisDecision::PrepareShutdown
    } else {
        ApoptosisDecision::Continue
    }
}

/// Decides whether an agent should undergo apoptosis.
///
/// `trust_below_floor` is `trust < trust_floor`, `energy_low` is
/// `energy_ratio < energy_threshold`; `starvation_limit` is the configured
/// number of starvation cycles that confirms a metabolic failure.
pub fn health_decision(
    trust_below_floor: bool,
    energy_low: bool,
    starvation_count: u32,
    starvation_limit: u32,
) -> (d: ApoptosisDecision)
    ensures
        d == spec_health_decision(trust_below_floor, energy_low, starvation_count, starvation_limit),
        d == ApoptosisDecision::Execute
            <==> (trust_below_floor || (energy_low && starvation_count >= starvation_limit)),
        d == ApoptosisDecision::PrepareShutdown <==> (!trust_below_floor
            && !(energy_low && starvation_count >= starvation_limit) && (energy_low || starvation_count > 0)),
        d == ApoptosisDecision::Continue <==> (!trust_below_floor && !energy_low && starvation_count == 0),
{
    if trust_below_floor {
        return ApoptosisDecision::Execute;
    }
    if energy_low && starvation_count >= starvation_limit {
        return ApoptosisDecision::Execute;
    }
    if energy_low || starvation_count > 0 {
        return ApoptosisDecision::PrepareShutdown;
    }
    ApoptosisDecision::Continue
}

/// Whether the neighbourhood vetoes a proposed decision: only an `Execute`
/// can be vetoed, an agent without neighbours cannot be, and otherwise the
/// veto holds when the mean neighbour trust exceeds the quorum.
pub open spec fn spec_veto(
    proposed: ApoptosisDecision,
    neighbor_count: nat,
    quorum_exceeded: bool,
) -> bool {
    proposed == ApoptosisDecision::Execute && neighbor_count > 0 && quorum_exceeded
}

/// Decides the neighbourhood veto.
///
/// `neighbor_count` is the number of neighbours; `quorum_exceeded` is, where
/// there are neighbours, whether their mean trust is above the quorum.
pub fn veto_applies(proposed: ApoptosisDecision, neighbor_count: usize, quorum_exceeded: bool) -> (v: bool)
    ensures
        v == spec_veto(proposed, neighbor_count as nat, quorum_exceeded),
        v <==> (proposed == ApoptosisDecision::Execute && neighbor_count > 0 && quorum_exceeded),
{
    if proposed != ApoptosisDecision::Execute {
        return false;
    }
    if neighbor_count == 0 {
        return false;
    }
    quorum_exceeded
}

/// Shutdown step: one of the sequential clean-up actions. `A` is the type of
/// the amount of energy drained.
#[derive(Debug, Clone, PartialEq, Eq)]
pub enum ShutdownStep<A> {
    DrainEnergy { recipient: String, amount: A },
    RevokeTrust { agent_id: String },
    NotifyFleet { agent_id: String, reason: String },
    MarkTombstone { agent_id: String },
}

/// Ordered list of shutdown steps.
#[derive(Debug, Clone)]
pub struct ShutdownSteps<A> {
    pub steps: Vec<ShutdownStep<A>>,
}

impl<A> ShutdownSteps<A> {
    pub fn new(steps: Vec<ShutdownStep<A>>) -> (s: Self)
        ensures
            s.steps@ == steps@,
    {
        ShutdownSteps { steps }
    }
}

/// The recipient of the drained energy.
pub open spec fn pool_recipient() -> Seq<char> {
    "fleet_pool"@
}

/// The reason given to the fleet.
pub open spec fn shutdown_reason() -> Seq<char> {
    "apoptosis: metabolic failure"@
}

/// The graceful shutdown sequence of `vessel_id` draining `drain_amount`:
/// drain the energy to the fleet pool, revoke trust, notify the fleet,
/// mark the tombstone, in that order.
pub open spec fn is_shutdown_sequence<A>(steps: Seq<ShutdownStep<A>>, vessel_id: Seq<char>, drain_amount: A) -> bool {
    &&& steps.len() == 4
    &&& steps[0] matches ShutdownStep::DrainEnergy { recipient, amount }
        && recipient@ == pool_recipient() && amount == drain_amount
    &&& steps[1] matches ShutdownStep::RevokeTrust { agent_id } && agent_id@ == vessel_id
    &&& steps[2] matches ShutdownStep::NotifyFleet { agent_id, reason }
        && agent_id@ == vessel_id && reason@ == shutdown_reason()
    &&& steps[3] matches ShutdownStep::MarkTombstone { agent_id } && agent_id@ == vessel_id
}

/// Generates the graceful shutdown sequence for an agent, draining
/// `drain_amount` (a tenth of the fleet pool's reserve) to the pool.
///
/// Order matters: drain, revoke, notify, tombstone.
pub fn graceful_shutdown_sequence<A>(vessel_id: &str, drain_amount: A) -> (s: ShutdownSteps<A>)
    ensures
        is_shutdown_sequence(s.steps@, vessel_id@, drain_amount),
        s.steps@.len() == 4,
        s.steps@[0] matches ShutdownStep::DrainEnergy { recipient, amount }
            && recipient@ == "fleet_pool"@ && amount == drain_amount,
        s.steps@[1] matches ShutdownStep::RevokeTrust { agent_id } && agent_id@ == vessel_id@,
        s.steps@[2] matches ShutdownStep::NotifyFleet { agent_id, reason }
            && agent_id@ == vessel_id@ && reason@ == "apoptosis: metabolic failure"@,
        s.steps@[3] matches ShutdownStep::MarkTombstone { agent_id } && agent_id@ == vessel_id@,
{
    let recipient = "fleet_pool".to_string();
    let mut steps: Vec<ShutdownStep<A>> = Vec::new();
    steps.push(ShutdownStep::DrainEnergy { recipient, amount: drain_amount });
    steps.push(ShutdownStep::RevokeTrust { agent_id: vessel_id.to_string() });
    steps.push(ShutdownStep::NotifyFleet {
        agent_id: vessel_id.to_string(),
        reason: "apoptosis: metabolic failure".to_string(),
    });
    steps.push(ShutdownStep::MarkTombstone { agent_id: vessel_id.to_string() });
    ShutdownSteps::new(steps)
}

/// The three tiers: execution exactly when trust is below its floor or low
/// energy has lasted the starvation limit; otherwise a warning exactly when
/// energy is low or the agent has starved at all; otherwise the agent
/// continues.
pub proof fn lemma_decision_tiers(
    trust_below_floor: bool,
    energy_low: bool,
    starvation_count: u32,
    starvation_limit: u32,
)
    ensures
        ({
            let d = spec_health_decision(trust_below_floor, energy_low, starvation_count, starvation_limit);
            &&& (trust_below_floor || (energy_low && starvation_count >= starvation_limit))
                ==> d == ApoptosisDecision::Execute
            &&& (!trust_below_floor && !(energy_low && starvation_count >= starvation_limit)
                && (energy_low || starvation_count > 0)) ==> d == ApoptosisDecision::PrepareShutdown
            &&& (!trust_below_floor && !energy_low && starvation_count == 0) ==> d == ApoptosisDecision::Continue
        }),
{
}

/// A confirmed metabolic failure executes: low energy together with at least
/// `starvation_limit` starvation cycles, whatever the limit.
pub proof fn lemma_confirmed_failure_executes(
    trust_below_floor: bool,
    starvation_count: u32,
    starvation_limit: u32,
)
    requires
        starvation_count >= starvation_limit,
    ensures
        spec_health_decision(trust_below_floor, true, starvation_count, starvation_limit)
            == ApoptosisDecision::Execute,
{
}

/// More starvation cycles never make the decision less severe.
pub proof fn lemma_decision_escalates_with_starvation(
    trust_below_floor: bool,
    energy_low: bool,
    fewer: u32,
    more: u32,
    starvation_limit: u32,
)
    requires
        fewer <= more,
    ensures
        severity(spec_health_decision(trust_below_floor, energy_low, fewer, starvation_limit))
            <= severity(spec_health_decision(trust_below_floor, energy_low, more, starvation_limit)),
{
}

/// Low energy never makes the decision less severe than healthy energy.
pub proof fn lemma_decision_escalates_with_low_energy(
    trust_below_floor: bool,
    starvation_count: u32,
    starvation_limit: u32,
)
    ensures
        severity(spec_health_decision(trust_below_floor, false, starvation_count, starvation_limit))
            <= severity(spec_health_decision(trust_below_floor, true, starvation_count, starvation_limit)),
{
}

/// A lower starvation limit never makes the decision less severe.
pub proof fn lemma_decision_escalates_with_lower_limit(
    trust_below_floor: bool,
    energy_low: bool,
    starvation_count: u32,
    lower: u32,
    higher: u32,
)
    requires
        lower <= higher,
    ensures
        severity(spec_health_decision(trust_below_floor, energy_low, starvation_count, higher))
            <= severity(spec_health_decision(trust_below_floor, energy_low, starvation_count, lower)),
{
}

/// Short of revoked trust, an execution is a confirmed metabolic failure:
/// energy is low and the starvation limit has been reached. Neither
/// condition alone executes.
pub proof fn lemma_execution_needs_both_conditions(
    energy_low: bool,
    starvation_count: u32,
    starvation_limit: u32,
)
    ensures
        spec_health_decision(false, energy_low, starvation_count, starvation_limit)
            == ApoptosisDecision::Execute ==> energy_low && starvation_count >= starvation_limit,
{
}

/// With a positive starvation limit, a trusted agent that has not starved
/// is never executed, however low its energy: it is at most warned.
pub proof fn lemma_low_energy_alone_only_warns(energy_low: bool, starvation_limit: u32)
    requires
        starvation_limit >= 1,
    ensures
        spec_health_decision(false, energy_low, 0, starvation_limit) != ApoptosisDecision::Execute,
        energy_low ==> spec_health_decision(false, energy_low, 0, starvation_limit)
            == ApoptosisDecision::PrepareShutdown,
{
}

/// A proposed execution with at least one neighbour is vetoed exactly when
/// the neighbours' mean trust exceeds the quorum, however many neighbours
/// there are.
pub proof fn lemma_execution_vetoed_by_quorum(neighbor_count: nat, quorum_exceeded: bool)
    requires
        neighbor_count >= 1,
    ensures
        spec_veto(ApoptosisDecision::Execute, neighbor_count, quorum_exceeded) == quorum_exceeded,
{
}

/// Only an `Execute` decision can be vetoed, and an agent without neighbours
/// has nobody to veto it.
pub proof fn lemma_veto_only_for_execution(
    proposed: ApoptosisDecision,
    neighbor_count: nat,
    quorum_exceeded: bool,
)
    ensures
        spec_veto(proposed, neighbor_count, quorum_exceeded) ==> proposed == ApoptosisDecision::Execute,
        neighbor_count == 0 ==> !spec_veto(proposed, neighbor_count, quorum_exceeded),
{
}

} // verus!
