//! The actions of the model and the transition function.
//!
//! `next` says, on the model, what each action does to a state. It is a
//! function of state and action alone, and total: an action that does not
//! apply leaves the state as it is. `AlpenglowState::apply` and
//! `AlpenglowModel::next_state` compute it.

use vstd::prelude::*;
use crate::duplicate::Duplicate;
use crate::byzantine::{ByzantineStrategy, CoalitionAttackType};
use crate::economics::{RewardDistribution, SlashingEvidence};
use crate::fraction::Fraction;
use crate::leader::WindowInfo;
use crate::network::{
    Bandwidth, CongestionView, LatencyModel, MessageContent, MessagePriority, NetworkFailure,
    NetworkPartition, NetworkView, PartitionView,
};
use crate::rotor::{BlockChunk, ErasureCodedBlock, RelayNode};
use crate::sorted_map::SortedMap;
use crate::sorted_set::SortedSet;
use crate::state::{initial_state, AlpenglowState, StateView};
use crate::types::{Block, BlockId, NodeId, RewardAmount, Slot, StakeAmount, Timestamp, VotePath};

verus! {

#[derive(Clone, Debug, PartialEq)]
pub enum AlpenglowAction {
    Vote { node: NodeId, slot: Slot, block: BlockId, path: VotePath },
    ByzantineVote { node: NodeId, strategy: ByzantineStrategy, slot: Slot },
    Certify { slot: Slot, path: VotePath },
    Timeout { node: NodeId, slot: Slot },
    SkipCert { slot: Slot },
    AdvanceTime { delta: Timestamp },
    NetworkPartition { nodes_a: SortedSet<NodeId>, nodes_b: SortedSet<NodeId> },
    HealPartition,
    FormCoalition { members: Vec<NodeId>, strategy: CoalitionAttackType },
    CoordinateAttack { coalition_index: usize, target_slot: Slot },
    AdaptStrategy { node: NodeId, new_strategy: ByzantineStrategy, reason: String },
    TimingManipulation { node: NodeId, delay_ms: u64, target_slot: Slot },
    SendMessage { from: NodeId, to: NodeId, content: MessageContent, priority: MessagePriority },
    DeliverMessage { message_id: u64 },
    DropMessage { message_id: u64, reason: String },
    InjectNetworkFailure { failure: NetworkFailure },
    RecoverFromFailure { failure_index: usize },
    UpdateLatencyModel { new_model: LatencyModel },
    AdjustBandwidth { from: NodeId, to: NodeId, new_bandwidth: Bandwidth },
    SimulateCongestion { links: Vec<(NodeId, NodeId)>, intensity: Fraction },
    DistributeRewards { epoch: u64, rewards: RewardDistribution },
    SlashValidator { evidence: SlashingEvidence },
    WithdrawRewards { node: NodeId, amount: RewardAmount },
    StakeDeposit { node: NodeId, amount: StakeAmount },
    StakeWithdrawal { node: NodeId, amount: StakeAmount },
    ReportSlashing { reporter: NodeId, evidence: SlashingEvidence },
    UpdateEconomicParameters { new_reward_rate: Fraction, new_slashing_rate: Fraction },
    PropagateErasureBlock { node: NodeId, erasure_block: ErasureCodedBlock },
    PropagateChunk { node: NodeId, chunk: BlockChunk, target_nodes: Vec<NodeId> },
    RequestMissingChunks { node: NodeId, block_id: BlockId, missing_chunks: Vec<u32> },
    ReconstructBlock { node: NodeId, block_id: BlockId },
    AssignRelayNodes { block_id: BlockId, relay_assignments: Vec<RelayNode> },
    ProposeBlock { leader: NodeId, slot: Slot, block: Block, window: WindowInfo },
    RotateLeader { new_leader: NodeId, slot: Slot },
    UpdateWindow { slot: Slot, window_size: u32, finality_depth: u32 },
}

impl AlpenglowAction {
    /// The representation invariant of the maps and sets that an action carries.
    pub open spec fn wf(self) -> bool {
        match self {
            AlpenglowAction::NetworkPartition { nodes_a, nodes_b } => nodes_a.wf() && nodes_b.wf(),
            AlpenglowAction::DistributeRewards { epoch, rewards } => rewards.wf(),
            _ => true,
        }
    }
}

impl AlpenglowAction {
    /// Whether two actions ask for the same step: they are of one kind and carry the same values.
    pub open spec fn same_as(self, other: AlpenglowAction) -> bool {
        match (self, other) {
            (
                AlpenglowAction::Vote { node, slot, block, path },
                AlpenglowAction::Vote { node: n2, slot: s2, block: b2, path: p2 },
            ) => node == n2 && slot == s2 && block == b2 && path == p2,
            (
                AlpenglowAction::ByzantineVote { node, strategy, slot },
                AlpenglowAction::ByzantineVote { node: n2, strategy: st2, slot: s2 },
            ) => node == n2 && slot == s2 && strategy.deep_view() == st2.deep_view(),
            (AlpenglowAction::Certify { slot, path }, AlpenglowAction::Certify { slot: s2, path: p2 }) => slot
                == s2 && path == p2,
            (AlpenglowAction::Timeout { node, slot }, AlpenglowAction::Timeout { node: n2, slot: s2 }) => node
                == n2 && slot == s2,
            (AlpenglowAction::SkipCert { slot }, AlpenglowAction::SkipCert { slot: s2 }) => slot == s2,
            (AlpenglowAction::AdvanceTime { delta }, AlpenglowAction::AdvanceTime { delta: d2 }) => delta == d2,
            (
                AlpenglowAction::NetworkPartition { nodes_a, nodes_b },
                AlpenglowAction::NetworkPartition { nodes_a: a2, nodes_b: b2 },
            ) => nodes_a@ == a2@ && nodes_b@ == b2@,
            (AlpenglowAction::HealPartition, AlpenglowAction::HealPartition) => true,
            (
                AlpenglowAction::FormCoalition { members, strategy },
                AlpenglowAction::FormCoalition { members: m2, strategy: st2 },
            ) => members@ == m2@ && strategy.deep_view() == st2.deep_view(),
            (
                AlpenglowAction::CoordinateAttack { coalition_index, target_slot },
                AlpenglowAction::CoordinateAttack { coalition_index: c2, target_slot: t2 },
            ) => coalition_index == c2 && target_slot == t2,
            (
                AlpenglowAction::AdaptStrategy { node, new_strategy, reason },
                AlpenglowAction::AdaptStrategy { node: n2, new_strategy: st2, reason: r2 },
            ) => node == n2 && new_strategy.deep_view() == st2.deep_view() && reason@ == r2@,
            (
                AlpenglowAction::TimingManipulation { node, delay_ms, target_slot },
                AlpenglowAction::TimingManipulation { node: n2, delay_ms: d2, target_slot: t2 },
            ) => node == n2 && delay_ms == d2 && target_slot == t2,
            (
                AlpenglowAction::SendMessage { from, to, content, priority },
                AlpenglowAction::SendMessage { from: f2, to: t2, content: c2, priority: p2 },
            ) => from == f2 && to == t2 && content.deep_view() == c2.deep_view() && priority == p2,
            (
                AlpenglowAction::DeliverMessage { message_id },
                AlpenglowAction::DeliverMessage { message_id: m2 },
            ) => message_id == m2,
            (
                AlpenglowAction::DropMessage { message_id, reason },
                AlpenglowAction::DropMessage { message_id: m2, reason: r2 },
            ) => message_id == m2 && reason@ == r2@,
            (
                AlpenglowAction::InjectNetworkFailure { failure },
                AlpenglowAction::InjectNetworkFailure { failure: f2 },
            ) => failure.deep_view() == f2.deep_view(),
            (
                AlpenglowAction::RecoverFromFailure { failure_index },
                AlpenglowAction::RecoverFromFailure { failure_index: f2 },
            ) => failure_index == f2,
            (
                AlpenglowAction::UpdateLatencyModel { new_model },
                AlpenglowAction::UpdateLatencyModel { new_model: m2 },
            ) => new_model == m2,
            (
                AlpenglowAction::AdjustBandwidth { from, to, new_bandwidth },
                AlpenglowAction::AdjustBandwidth { from: f2, to: t2, new_bandwidth: b2 },
            ) => from == f2 && to == t2 && new_bandwidth == b2,
            (
                AlpenglowAction::SimulateCongestion { links, intensity },
                AlpenglowAction::SimulateCongestion { links: l2, intensity: i2 },
            ) => links@ == l2@ && intensity == i2,
            (
                AlpenglowAction::DistributeRewards { epoch, rewards },
                AlpenglowAction::DistributeRewards { epoch: e2, rewards: r2 },
            ) => epoch == e2 && rewards.deep_view() == r2.deep_view(),
            (AlpenglowAction::SlashValidator { evidence }, AlpenglowAction::SlashValidator { evidence: e2 }) =>
                evidence.deep_view() == e2.deep_view(),
            (
                AlpenglowAction::WithdrawRewards { node, amount },
                AlpenglowAction::WithdrawRewards { node: n2, amount: a2 },
            ) => node == n2 && amount == a2,
            (
                AlpenglowAction::StakeDeposit { node, amount },
                AlpenglowAction::StakeDeposit { node: n2, amount: a2 },
            ) => node == n2 && amount == a2,
            (
                AlpenglowAction::StakeWithdrawal { node, amount },
                AlpenglowAction::StakeWithdrawal { node: n2, amount: a2 },
            ) => node == n2 && amount == a2,
            (
                AlpenglowAction::ReportSlashing { reporter, evidence },
                AlpenglowAction::ReportSlashing { reporter: r2, evidence: e2 },
            ) => reporter == r2 && evidence.deep_view() == e2.deep_view(),
            (
                AlpenglowAction::UpdateEconomicParameters { new_reward_rate, new_slashing_rate },
                AlpenglowAction::UpdateEconomicParameters { new_reward_rate: r2, new_slashing_rate: s2 },
            ) => new_reward_rate == r2 && new_slashing_rate == s2,
            (
                AlpenglowAction::PropagateErasureBlock { node, erasure_block },
                AlpenglowAction::PropagateErasureBlock { node: n2, erasure_block: e2 },
            ) => node == n2 && erasure_block.deep_view() == e2.deep_view(),
            (
                AlpenglowAction::PropagateChunk { node, chunk, target_nodes },
                AlpenglowAction::PropagateChunk { node: n2, chunk: c2, target_nodes: t2 },
            ) => node == n2 && chunk.deep_view() == c2.deep_view() && target_nodes@ == t2@,
            (
                AlpenglowAction::RequestMissingChunks { node, block_id, missing_chunks },
                AlpenglowAction::RequestMissingChunks { node: n2, block_id: b2, missing_chunks: m2 },
            ) => node == n2 && block_id == b2 && missing_chunks@ == m2@,
            (
                AlpenglowAction::ReconstructBlock { node, block_id },
                AlpenglowAction::ReconstructBlock { node: n2, block_id: b2 },
            ) => node == n2 && block_id == b2,
            (
                AlpenglowAction::AssignRelayNodes { block_id, relay_assignments },
                AlpenglowAction::AssignRelayNodes { block_id: b2, relay_assignments: r2 },
            ) => block_id == b2 && relay_assignments.deep_view() == r2.deep_view(),
            (
                AlpenglowAction::ProposeBlock { leader, slot, block, window },
                AlpenglowAction::ProposeBlock { leader: l2, slot: s2, block: b2, window: w2 },
            ) => leader == l2 && slot == s2 && block == b2 && window.deep_view() == w2.deep_view(),
            (
                AlpenglowAction::RotateLeader { new_leader, slot },
                AlpenglowAction::RotateLeader { new_leader: l2, slot: s2 },
            ) => new_leader == l2 && slot == s2,
            (
                AlpenglowAction::UpdateWindow { slot, window_size, finality_depth },
                AlpenglowAction::UpdateWindow { slot: s2, window_size: w2, finality_depth: f2 },
            ) => slot == s2 && window_size == w2 && finality_depth == f2,
            _ => false,
        }
    }
}

/// `utilization` with each of the first `n` of `links` at `intensity`.
pub open spec fn congested(
    utilization: Map<(NodeId, NodeId), Fraction>,
    links: Seq<(NodeId, NodeId)>,
    intensity: Fraction,
    n: int,
) -> Map<(NodeId, NodeId), Fraction>
    decreases n,
{
    if n <= 0 {
        utilization
    } else {
        congested(utilization, links, intensity, n - 1).insert(links[n - 1], intensity)
    }
}

impl StateView {
    /// The state with a partition between `nodes_a` and `nodes_b`, begun now.
    pub open spec fn partition(self, nodes_a: Set<NodeId>, nodes_b: Set<NodeId>) -> StateView {
        StateView {
            network_partition: Some(
                PartitionView { partition_a: nodes_a, partition_b: nodes_b, started_at: self.global_time },
            ),
            ..self
        }
    }

    /// The state without a partition.
    pub open spec fn heal_partition(self) -> StateView {
        StateView { network_partition: None, ..self }
    }

    /// The state with `failure` injected behind those already there.
    pub open spec fn inject_failure(self, failure: crate::network::NetworkFailureView) -> StateView {
        StateView {
            network_state: NetworkView {
                failure_injections: self.network_state.failure_injections.push(failure),
                ..self.network_state
            },
            ..self
        }
    }

    /// The state without the failure at `index`. Nothing changes where there is none.
    pub open spec fn recover_from_failure(self, index: usize) -> StateView {
        if index < self.network_state.failure_injections.len() {
            StateView {
                network_state: NetworkView {
                    failure_injections: self.network_state.failure_injections.remove(index as int),
                    ..self.network_state
                },
                ..self
            }
        } else {
            self
        }
    }

    /// The state with another latency model.
    pub open spec fn update_latency_model(self, model: LatencyModel) -> StateView {
        StateView { network_state: NetworkView { latency_model: model, ..self.network_state }, ..self }
    }

    /// The state with the bandwidth of a link set.
    pub open spec fn adjust_bandwidth(self, from: NodeId, to: NodeId, bandwidth: Bandwidth) -> StateView {
        StateView {
            network_state: NetworkView {
                bandwidth_limits: self.network_state.bandwidth_limits.insert((from, to), bandwidth),
                ..self.network_state
            },
            ..self
        }
    }

    /// The state with the utilisation of each of `links` at `intensity`.
    pub open spec fn simulate_congestion(self, links: Seq<(NodeId, NodeId)>, intensity: Fraction) -> StateView {
        StateView {
            network_state: NetworkView {
                congestion_state: CongestionView {
                    current_utilization: congested(
                        self.network_state.congestion_state.current_utilization,
                        links,
                        intensity,
                        links.len() as int,
                    ),
                    ..self.network_state.congestion_state
                },
                ..self.network_state
            },
            ..self
        }
    }

    /// The state after `leader` has proposed a block for `slot`: the
    /// current slot is at least `slot`. Nothing changes where `leader` is not
    /// the leader of `slot`.
    pub open spec fn propose_block(self, leader: NodeId, slot: Slot) -> StateView {
        if self.leader_defined(slot) && leader == self.leader_for_slot(slot) && slot > self.current_slot {
            StateView { current_slot: slot, ..self }
        } else {
            self
        }
    }

    /// The state after an attempt to distribute `rewards`; a refusal is logged.
    pub open spec fn distribute_or_log(self, rewards: crate::economics::RewardDistributionView) -> StateView {
        match self.distribution_outcome(rewards) {
            Ok(_) => self.rewarded(rewards),
            Err(e) => self.with_error(e),
        }
    }

    /// The state after an attempt to slash on `evidence`; a refusal is logged.
    pub open spec fn slash_or_log(self, evidence: crate::economics::SlashingEvidenceView) -> StateView {
        match self.slashing_outcome(evidence) {
            Ok(_) => self.slashed(evidence),
            Err(e) => self.with_error(e),
        }
    }
}

/// The transition function: the state that follows `s` under `action`.
///
/// Only `AdvanceTime` and the timing attack of a Byzantine node move the
/// clock; `TimingManipulation` and `RequestMissingChunks` are noted by
/// whoever drives the model and change nothing.
pub open spec fn next(s: StateView, action: AlpenglowAction) -> StateView {
    match action {
        AlpenglowAction::Vote { node, slot, block, path } => s.vote(node, slot, block, path),
        AlpenglowAction::ByzantineVote { node, strategy, slot } => s.byzantine_vote(
            node,
            strategy.deep_view(),
            slot,
        ),
        AlpenglowAction::Certify { slot, path } => s.certify(slot, path),
        AlpenglowAction::Timeout { node, slot } => s.timeout(node, slot),
        AlpenglowAction::SkipCert { slot } => s.skip_cert(slot),
        AlpenglowAction::AdvanceTime { delta } => s.advance_time(delta),
        AlpenglowAction::NetworkPartition { nodes_a, nodes_b } => s.partition(nodes_a@, nodes_b@),
        AlpenglowAction::HealPartition => s.heal_partition(),
        AlpenglowAction::FormCoalition { members, strategy } => s.form_coalition(members@, strategy.deep_view()),
        AlpenglowAction::CoordinateAttack { coalition_index, target_slot } => s.coordinate_attack(
            coalition_index,
            target_slot,
        ),
        AlpenglowAction::AdaptStrategy { node, new_strategy, reason } => s.adapt_strategy(
            node,
            new_strategy.deep_view(),
        ),
        AlpenglowAction::TimingManipulation { node, delay_ms, target_slot } => s,
        AlpenglowAction::SendMessage { from, to, content, priority } => s.send_message(
            from,
            to,
            content.deep_view(),
            priority,
        ),
        AlpenglowAction::DeliverMessage { message_id } => s.deliver_message(message_id),
        AlpenglowAction::DropMessage { message_id, reason } => s.drop_message(message_id),
        AlpenglowAction::InjectNetworkFailure { failure } => s.inject_failure(failure.deep_view()),
        AlpenglowAction::RecoverFromFailure { failure_index } => s.recover_from_failure(failure_index),
        AlpenglowAction::UpdateLatencyModel { new_model } => s.update_latency_model(new_model),
        AlpenglowAction::AdjustBandwidth { from, to, new_bandwidth } => s.adjust_bandwidth(
            from,
            to,
            new_bandwidth,
        ),
        AlpenglowAction::SimulateCongestion { links, intensity } => s.simulate_congestion(links@, intensity),
        AlpenglowAction::DistributeRewards { epoch, rewards } => s.distribute_or_log(rewards.deep_view()),
        AlpenglowAction::SlashValidator { evidence } => s.slash_or_log(evidence.deep_view()),
        AlpenglowAction::WithdrawRewards { node, amount } => s.withdraw_rewards(node, amount),
        AlpenglowAction::StakeDeposit { node, amount } => s.stake_deposit(node, amount),
        AlpenglowAction::StakeWithdrawal { node, amount } => s.stake_withdrawal(node, amount),
        AlpenglowAction::ReportSlashing { reporter, evidence } => s.report_slashing(evidence.deep_view()),
        AlpenglowAction::UpdateEconomicParameters { new_reward_rate, new_slashing_rate } => s.update_parameters(
            new_reward_rate,
            new_slashing_rate,
        ),
        AlpenglowAction::PropagateErasureBlock { node, erasure_block } => s.propagate_erasure_block(
            node,
            erasure_block.deep_view(),
        ),
        AlpenglowAction::PropagateChunk { node, chunk, target_nodes } => s.propagate_chunk(
            chunk.deep_view(),
            target_nodes@,
        ),
        AlpenglowAction::RequestMissingChunks { node, block_id, missing_chunks } => s,
        AlpenglowAction::ReconstructBlock { node, block_id } => s.reconstruct_block(node, block_id),
        AlpenglowAction::AssignRelayNodes { block_id, relay_assignments } => s.assign_relay_nodes(
            relay_assignments.deep_view(),
        ),
        AlpenglowAction::ProposeBlock { leader, slot, block, window } => s.propose_block(leader, slot),
        AlpenglowAction::RotateLeader { new_leader, slot } => s.rotate_leader(slot),
        AlpenglowAction::UpdateWindow { slot, window_size, finality_depth } => s.update_window(
            slot,
            window_size,
            finality_depth,
        ),
    }
}

/// The state after the first `n` of `actions`, taken one after the other.
pub open spec fn run(s: StateView, actions: Seq<AlpenglowAction>, n: int) -> StateView
    decreases n,
{
    if n <= 0 {
        s
    } else {
        next(run(s, actions, n - 1), actions[n - 1])
    }
}

impl AlpenglowState {
    /// Sets the utilisation of each of `links` to `intensity`.
    pub fn simulate_congestion(&mut self, links: &Vec<(NodeId, NodeId)>, intensity: Fraction)
        requires
            old(self).wf(),
        ensures
            final(self).wf(),
            final(self).deep_view() == old(self).deep_view().simulate_congestion(links@, intensity),
    {
        let ghost start = self.deep_view();
        let ghost base = start.network_state.congestion_state.current_utilization;
        let mut i: usize = 0;
        while i < links.len()
            invariant
                i <= links@.len(),
                self.wf(),
                start == old(self).deep_view(),
                base == start.network_state.congestion_state.current_utilization,
                self.network_state.congestion_state.current_utilization@ == congested(
                    base,
                    links@,
                    intensity,
                    i as int,
                ),
                self.deep_view() == (StateView {
                    network_state: NetworkView {
                        congestion_state: CongestionView {
                            current_utilization: self.network_state.congestion_state.current_utilization@,
                            ..start.network_state.congestion_state
                        },
                        ..start.network_state
                    },
                    ..start
                }),
            decreases links@.len() - i,
        {
            self.network_state.congestion_state.current_utilization.insert(links[i], intensity);
            i += 1;
            assert(self.deep_view() =~= StateView {
                network_state: NetworkView {
                    congestion_state: CongestionView {
                        current_utilization: self.network_state.congestion_state.current_utilization@,
                        ..start.network_state.congestion_state
                    },
                    ..start.network_state
                },
                ..start
            });
        }
        assert(self.deep_view() =~= start.simulate_congestion(links@, intensity));
    }

    /// `leader` proposes a block for `slot`.
    pub fn propose_block(&mut self, leader: NodeId, slot: Slot)
        requires
            old(self).wf(),
        ensures
            final(self).wf(),
            final(self).deep_view() == old(self).deep_view().propose_block(leader, slot),
    {
        match self.try_leader_for_slot(slot) {
            Some(expected) => {
                if leader == expected && slot > self.current_slot {
                    self.current_slot = slot;
                    assert(self.deep_view() =~= old(self).deep_view().propose_block(leader, slot));
                }
            },
            None => {},
        }
    }

    /// Takes the step that `action` asks for.
    pub fn apply(&mut self, action: AlpenglowAction)
        requires
            old(self).wf(),
            action.wf(),
        ensures
            final(self).wf(),
            final(self).deep_view() == next(old(self).deep_view(), action),
    {
        let ghost before = self.deep_view();
        match action {
            AlpenglowAction::Vote { node, slot, block, path } => {
                self.vote(node, slot, block, path);
            },
            AlpenglowAction::ByzantineVote { node, strategy, slot } => {
                self.byzantine_vote(node, &strategy, slot);
            },
            AlpenglowAction::Certify { slot, path } => {
                self.certify(slot, path);
            },
            AlpenglowAction::Timeout { node, slot } => {
                self.timeout(node, slot);
            },
            AlpenglowAction::SkipCert { slot } => {
                self.skip_cert(slot);
            },
            AlpenglowAction::AdvanceTime { delta } => {
                self.advance_time(delta);
            },
            AlpenglowAction::NetworkPartition { nodes_a, nodes_b } => {
                self.network_partition = Some(
                    NetworkPartition { partition_a: nodes_a, partition_b: nodes_b, started_at: self.global_time },
                );
                assert(self.deep_view() =~= before.partition(nodes_a@, nodes_b@));
            },
            AlpenglowAction::HealPartition => {
                self.network_partition = None;
                assert(self.deep_view() =~= before.heal_partition());
            },
            AlpenglowAction::FormCoalition { members, strategy } => {
                self.form_coalition(members, strategy);
            },
            AlpenglowAction::CoordinateAttack { coalition_index, target_slot } => {
                self.coordinate_attack(coalition_index, target_slot);
            },
            AlpenglowAction::AdaptStrategy { node, new_strategy, reason: _ } => {
                self.adapt_strategy(node, new_strategy);
            },
            AlpenglowAction::TimingManipulation { node: _, delay_ms: _, target_slot: _ } => {},
            AlpenglowAction::SendMessage { from, to, content, priority } => {
                self.handle_send_message(from, to, content, priority);
            },
            AlpenglowAction::DeliverMessage { message_id } => {
                self.handle_deliver_message(message_id);
            },
            AlpenglowAction::DropMessage { message_id, reason: _ } => {
                self.handle_drop_message(message_id);
            },
            AlpenglowAction::InjectNetworkFailure { failure } => {
                let ghost f = failure;
                let ghost old_failures = self.network_state.failure_injections.deep_view();
                self.network_state.failure_injections.push(failure);
                assert(self.network_state.failure_injections.deep_view() =~= old_failures.push(f.deep_view()));
                assert(self.deep_view() =~= before.inject_failure(f.deep_view()));
            },
            AlpenglowAction::RecoverFromFailure { failure_index } => {
                if failure_index < self.network_state.failure_injections.len() {
                    let ghost old_failures = self.network_state.failure_injections.deep_view();
                    self.network_state.failure_injections.remove(failure_index);
                    assert(self.network_state.failure_injections.deep_view() =~= old_failures.remove(
                        failure_index as int,
                    ));
                    assert(self.deep_view() =~= before.recover_from_failure(failure_index));
                }
            },
            AlpenglowAction::UpdateLatencyModel { new_model } => {
                self.network_state.latency_model = new_model;
                assert(self.deep_view() =~= before.update_latency_model(new_model));
            },
            AlpenglowAction::AdjustBandwidth { from, to, new_bandwidth } => {
                self.network_state.bandwidth_limits.insert((from, to), new_bandwidth);
                assert(self.deep_view() =~= before.adjust_bandwidth(from, to, new_bandwidth));
            },
            AlpenglowAction::SimulateCongestion { links, intensity } => {
                self.simulate_congestion(&links, intensity);
            },
            AlpenglowAction::DistributeRewards { epoch: _, rewards } => {
                match self.distribute_rewards(&rewards) {
                    Ok(_) => {},
                    Err(e) => {
                        self.error_log.push(e);
                        assert(self.deep_view() =~= before.with_error(e));
                    },
                }
            },
            AlpenglowAction::SlashValidator { evidence } => {
                match self.apply_slashing(&evidence) {
                    Ok(_) => {},
                    Err(e) => {
                        self.error_log.push(e);
                        assert(self.deep_view() =~= before.with_error(e));
                    },
                }
            },
            AlpenglowAction::WithdrawRewards { node, amount } => {
                self.withdraw_rewards(node, amount);
            },
            AlpenglowAction::StakeDeposit { node, amount } => {
                self.stake_deposit(node, amount);
            },
            AlpenglowAction::StakeWithdrawal { node, amount } => {
                self.stake_withdrawal(node, amount);
            },
            AlpenglowAction::ReportSlashing { reporter: _, evidence } => {
                self.report_slashing(evidence);
            },
            AlpenglowAction::UpdateEconomicParameters { new_reward_rate, new_slashing_rate } => {
                self.economic_state.reward_rate = new_reward_rate;
                self.economic_state.slashing_rate = new_slashing_rate;
                assert(self.deep_view() =~= before.update_parameters(new_reward_rate, new_slashing_rate));
            },
            AlpenglowAction::PropagateErasureBlock { node, erasure_block } => {
                self.propagate_erasure_block(node, erasure_block);
            },
            AlpenglowAction::PropagateChunk { node: _, chunk, target_nodes } => {
                self.propagate_chunk(&chunk, &target_nodes);
            },
            AlpenglowAction::RequestMissingChunks { node: _, block_id: _, missing_chunks: _ } => {},
            AlpenglowAction::ReconstructBlock { node, block_id } => {
                self.reconstruct_block(node, block_id);
            },
            AlpenglowAction::AssignRelayNodes { block_id: _, relay_assignments } => {
                self.assign_relay_nodes(relay_assignments);
            },
            AlpenglowAction::ProposeBlock { leader, slot, block: _, window: _ } => {
                self.propose_block(leader, slot);
            },
            AlpenglowAction::RotateLeader { new_leader: _, slot } => {
                self.rotate_leader(slot);
            },
            AlpenglowAction::UpdateWindow { slot, window_size, finality_depth } => {
                self.update_window(slot, window_size, finality_depth);
            },
        }
    }
}

impl AlpenglowState {
    /// The state that follows `state` under `action`. There always is one.
    pub fn next_state(&self, state: &AlpenglowState, action: AlpenglowAction) -> (r: Option<AlpenglowState>)
        requires
            state.wf(),
            action.wf(),
        ensures
            r is Some,
            r.unwrap().wf(),
            r.unwrap().deep_view() == next(state.deep_view(), action),
    {
        let mut following = state.duplicate();
        following.apply(action);
        Some(following)
    }

    /// The states in which the executions from this state start: the state itself.
    pub fn init_states(&self) -> (states: Vec<AlpenglowState>)
        requires
            self.wf(),
        ensures
            states@.len() == 1,
            states@[0].wf(),
            states@[0].deep_view() == self.deep_view(),
    {
        let mut states: Vec<AlpenglowState> = Vec::new();
        states.push(self.duplicate());
        states
    }
}

/// The model as a whole: where executions start and how they go on.
#[derive(Clone, Copy, Debug, Default)]
pub struct AlpenglowModel;

impl AlpenglowModel {
    pub fn new() -> (m: Self)
        ensures
            m == AlpenglowModel,
    {
        AlpenglowModel
    }

    /// The state that follows `state` under `action`. There always is one.
    pub fn next_state(&self, state: &AlpenglowState, action: AlpenglowAction) -> (r: Option<AlpenglowState>)
        requires
            state.wf(),
            action.wf(),
        ensures
            r is Some,
            r.unwrap().wf(),
            r.unwrap().deep_view() == next(state.deep_view(), action),
    {
        let mut following = state.duplicate();
        following.apply(action);
        Some(following)
    }

    /// The states in which the executions of the model start: one, with
    /// the nodes 0, 1 and 2 and stakes of 1000, 1500 and 2000.
    pub fn init_states(&self) -> (states: Vec<AlpenglowState>)
        ensures
            states@.len() == 1,
            states@[0].wf(),
            states@[0].deep_view() == initial_state(
                seq![0u32, 1u32, 2u32],
                map![0u32 => 1000u64, 1u32 => 1500u64, 2u32 => 2000u64],
            ),
    {
        let mut nodes: Vec<NodeId> = Vec::new();
        nodes.push(0);
        nodes.push(1);
        nodes.push(2);
        let mut stakes: SortedMap<NodeId, StakeAmount> = SortedMap::new();
        stakes.insert(0, 1000);
        stakes.insert(1, 1500);
        stakes.insert(2, 2000);
        assert(nodes@ =~= seq![0u32, 1u32, 2u32]);
        assert(stakes@ =~= map![0u32 => 1000u64, 1u32 => 1500u64, 2u32 => 2000u64]);
        let mut states: Vec<AlpenglowState> = Vec::new();
        states.push(AlpenglowState::new(nodes, stakes));
        states
    }
}

} // verus!
