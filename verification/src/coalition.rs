//! Coalitions of Byzantine nodes: forming one, coordinating its attack, and
//! the change of strategy of a single node.

use vstd::prelude::*;
use crate::byzantine::{
    AttackMetrics, AttackPhase, ByzantineCoalition, ByzantineStrategy, CoalitionAttackType, CoalitionAttackView,
    CoalitionState, CoalitionView, CoordinationEvent, CoordinationEventView, EventType, NodeStatus,
    NodeStatusView, StrategyView,
};
use crate::sorted_map::lemma_deep_insert;
use crate::state::{copy_ids, AlpenglowState, StateView};
use crate::types::{NodeId, Slot};

verus! {

/// The state of a coalition that has just been formed.
pub open spec fn fresh_coalition_state() -> CoalitionState {
    CoalitionState {
        active: true,
        current_phase: AttackPhase::Preparation,
        success_metrics: AttackMetrics {
            slots_disrupted: 0,
            certificates_prevented: 0,
            timeouts_caused: 0,
            economic_damage: 0,
        },
        adaptation_count: 0,
    }
}

impl StateView {
    /// The stake of the first `n` of `members`, each counted as often as it is named.
    pub open spec fn member_stake(self, members: Seq<NodeId>, n: int) -> int
        decreases n,
    {
        if n <= 0 {
            0
        } else {
            self.member_stake(members, n - 1) + self.stake_of(members[n - 1])
        }
    }

    /// The state after `members` have formed a coalition: it joins the
    /// list of coalitions, in preparation. Nothing changes where the stake
    /// of the members leaves the range of its type.
    pub open spec fn form_coalition(self, members: Seq<NodeId>, strategy: CoalitionAttackView) -> StateView {
        let total = self.member_stake(members, members.len() as int);
        if total > u64::MAX {
            self
        } else {
            StateView {
                byzantine_coalitions: self.byzantine_coalitions.push(
                    CoalitionView {
                        members,
                        strategy,
                        coordination_history: Seq::empty(),
                        total_stake: total as u64,
                        formation_time: self.global_time,
                    },
                ),
                coalition_state: self.coalition_state.insert(
                    self.byzantine_coalitions.len() as usize,
                    fresh_coalition_state(),
                ),
                ..self
            }
        }
    }

    /// The state after coalition `index` has begun its attack on
    /// `target_slot`: it is in execution, and the event is in its history.
    /// Nothing changes where no state is kept for the coalition.
    pub open spec fn coordinate_attack(self, index: usize, target_slot: Slot) -> StateView {
        if self.coalition_state.contains_key(index) {
            StateView {
                coalition_state: self.coalition_state.insert(
                    index,
                    CoalitionState { current_phase: AttackPhase::Execution, ..self.coalition_state[index] },
                ),
                byzantine_coalitions: if index < self.byzantine_coalitions.len() {
                    let coalition = self.byzantine_coalitions[index as int];
                    self.byzantine_coalitions.update(
                        index as int,
                        CoalitionView {
                            coordination_history: coalition.coordination_history.push(
                                CoordinationEventView {
                                    slot: target_slot,
                                    event_type: EventType::CoordinatedWithhold { target_slot },
                                    participants: coalition.members,
                                    timestamp: self.global_time,
                                },
                            ),
                            ..coalition
                        },
                    )
                } else {
                    self.byzantine_coalitions
                },
                ..self
            }
        } else {
            self
        }
    }

    /// The state after `node` has taken up `strategy`: it is Byzantine.
    /// Nothing changes where the node has no status.
    pub open spec fn adapt_strategy(self, node: NodeId, strategy: StrategyView) -> StateView {
        if self.status.contains_key(node) {
            StateView { status: self.status.insert(node, NodeStatusView::Byzantine(strategy)), ..self }
        } else {
            self
        }
    }
}

/// A partial sum of member stakes is below `n` times the largest stake.
pub proof fn lemma_member_stake_bound(s: StateView, members: Seq<NodeId>, n: int)
    requires
        0 <= n,
    ensures
        0 <= s.member_stake(members, n) <= n * u64::MAX,
    decreases n,
{
    if n > 0 {
        lemma_member_stake_bound(s, members, n - 1);
        assert((n - 1) * u64::MAX + u64::MAX == n * u64::MAX) by (nonlinear_arith);
    }
}

impl AlpenglowState {
    /// The stake of `members`, each counted as often as it is named.
    pub fn stake_of_members(&self, members: &Vec<NodeId>) -> (t: u128)
        requires
            self.stake_distribution.wf(),
        ensures
            t == self.deep_view().member_stake(members@, members@.len() as int),
    {
        let mut acc: u128 = 0;
        let mut i: usize = 0;
        while i < members.len()
            invariant
                i <= members@.len(),
                self.stake_distribution.wf(),
                acc == self.deep_view().member_stake(members@, i as int),
            decreases members@.len() - i,
        {
            proof {
                lemma_member_stake_bound(self.deep_view(), members@, i as int);
                assert(i * u64::MAX + u64::MAX <= 0xFFFF_FFFF_FFFF_FFFF * 0x1_0000_0000_0000_0000) by (nonlinear_arith)
                    requires
                        i < 0xFFFF_FFFF_FFFF_FFFF,
                ;
            }
            acc = acc + self.stake_of(members[i]) as u128;
            i += 1;
        }
        acc
    }

    /// `members` form a coalition with `strategy`.
    pub fn form_coalition(&mut self, members: Vec<NodeId>, strategy: CoalitionAttackType)
        requires
            old(self).wf(),
        ensures
            final(self).wf(),
            final(self).deep_view() == old(self).deep_view().form_coalition(members@, strategy.deep_view()),
    {
        let total = self.stake_of_members(&members);
        if total <= u64::MAX as u128 {
            let coalition = ByzantineCoalition {
                members,
                strategy,
                coordination_history: Vec::new(),
                total_stake: total as u64,
                formation_time: self.global_time,
            };
            let ghost c = coalition;
            let index = self.byzantine_coalitions.len();
            self.byzantine_coalitions.push(coalition);
            self.coalition_state.insert(
                index,
                CoalitionState {
                    active: true,
                    current_phase: AttackPhase::Preparation,
                    success_metrics: AttackMetrics {
                        slots_disrupted: 0,
                        certificates_prevented: 0,
                        timeouts_caused: 0,
                        economic_damage: 0,
                    },
                    adaptation_count: 0,
                },
            );
            proof {
                assert(c.deep_view().coordination_history =~= Seq::empty());
                assert(self.byzantine_coalitions.deep_view() =~= old(self).byzantine_coalitions.deep_view().push(
                    c.deep_view(),
                ));
                assert(self.deep_view() =~= old(self).deep_view().form_coalition(
                    c.members@,
                    c.strategy.deep_view(),
                ));
            }
        }
    }

    /// Coalition `coalition_index` begins its attack on `target_slot`.
    pub fn coordinate_attack(&mut self, coalition_index: usize, target_slot: Slot)
        requires
            old(self).wf(),
        ensures
            final(self).wf(),
            final(self).deep_view() == old(self).deep_view().coordinate_attack(coalition_index, target_slot),
    {
        let ghost before = *self;
        let now = self.global_time;
        let known = match self.coalition_state.get_mut(&coalition_index) {
            Some(state) => {
                state.current_phase = AttackPhase::Execution;
                true
            },
            None => false,
        };
        if known {
            if coalition_index < self.byzantine_coalitions.len() {
                let participants = copy_ids(&self.byzantine_coalitions[coalition_index].members);
                let event = CoordinationEvent {
                    slot: target_slot,
                    event_type: EventType::CoordinatedWithhold { target_slot },
                    participants,
                    timestamp: now,
                };
                let ghost e = event;
                self.byzantine_coalitions[coalition_index].coordination_history.push(event);
                proof {
                    let old_c = before.byzantine_coalitions@[coalition_index as int];
                    let new_c = self.byzantine_coalitions@[coalition_index as int];
                    assert(new_c.coordination_history.deep_view() =~= old_c.coordination_history.deep_view().push(
                        e.deep_view(),
                    ));
                    assert(self.byzantine_coalitions.deep_view() =~= before.deep_view().coordinate_attack(
                        coalition_index,
                        target_slot,
                    ).byzantine_coalitions);
                }
            }
            proof {
                assert(self.deep_view() =~= before.deep_view().coordinate_attack(coalition_index, target_slot));
            }
        }
    }

    /// `node` takes up `new_strategy`.
    pub fn adapt_strategy(&mut self, node: NodeId, new_strategy: ByzantineStrategy)
        requires
            old(self).wf(),
        ensures
            final(self).wf(),
            final(self).deep_view() == old(self).deep_view().adapt_strategy(node, new_strategy.deep_view()),
    {
        if self.status.contains_key(&node) {
            let ghost before = *self;
            let status = NodeStatus::Byzantine(new_strategy);
            let ghost st = status;
            self.status.insert(node, status);
            proof {
                lemma_deep_insert(before.status, self.status, node, st);
                assert(self.deep_view() =~= before.deep_view().adapt_strategy(node, new_strategy.deep_view()));
            }
        }
    }
}

} // verus!
