//! The adversary: node status, the strategies of a Byzantine node, and the
//! votes that each strategy emits.
//!
//! What a strategy emits is a function of the strategy, the node, the slot,
//! the node's stake and its timeout count alone. The state machine records
//! the emitted votes without the honest duplicate check.

use vstd::prelude::*;
use crate::duplicate::{copy_list, Duplicate};
use crate::fraction::Fraction;
use crate::types::{BlockId, NodeId, Slot, StakeAmount, Timestamp, Vote, VotePath};

verus! {

/// The longest delay, in ticks, that a timing attack adds to the clock.
pub const MAX_TIMING_DELAY: u64 = 1000;

#[derive(Clone, Copy, Debug, PartialEq, Eq, Structural)]
pub enum CertManipulationType {
    /// Withhold votes so that no certificate forms.
    PreventCertification,
    /// Vote for varying blocks so that certificates conflict.
    ConflictingCertificates,
    /// Vote late, for a slot that has already passed.
    DelayedCertification { delay_slots: u32 },
}

#[derive(Debug, PartialEq)]
pub enum CoalitionAttackType {
    /// Each member votes for another of the target blocks.
    SplitVote { target_blocks: Vec<BlockId> },
    /// Members stay silent until a slot, then flood both paths.
    DelayedFlood { delay_until_slot: Slot },
    /// Members equivocate on chosen slots only.
    StrategicTargeting { high_priority_slots: Vec<Slot>, disruption_threshold: Fraction },
    /// Members try to steer how certificates form.
    CertificateManipulation { target_path: VotePath, manipulation_type: CertManipulationType },
}

#[verifier::ext_equal]
pub enum CoalitionAttackView {
    SplitVote { target_blocks: Seq<BlockId> },
    DelayedFlood { delay_until_slot: Slot },
    StrategicTargeting { high_priority_slots: Seq<Slot>, disruption_threshold: Fraction },
    CertificateManipulation { target_path: VotePath, manipulation_type: CertManipulationType },
}

impl DeepView for CoalitionAttackType {
    type V = CoalitionAttackView;

    open spec fn deep_view(&self) -> CoalitionAttackView {
        match *self {
            CoalitionAttackType::SplitVote { target_blocks } => CoalitionAttackView::SplitVote {
                target_blocks: target_blocks@,
            },
            CoalitionAttackType::DelayedFlood { delay_until_slot } => CoalitionAttackView::DelayedFlood {
                delay_until_slot,
            },
            CoalitionAttackType::StrategicTargeting { high_priority_slots, disruption_threshold } =>
                CoalitionAttackView::StrategicTargeting {
                    high_priority_slots: high_priority_slots@,
                    disruption_threshold,
                },
            CoalitionAttackType::CertificateManipulation { target_path, manipulation_type } =>
                CoalitionAttackView::CertificateManipulation { target_path, manipulation_type },
        }
    }
}

#[derive(Debug, PartialEq)]
pub enum ByzantineStrategy {
    /// Vote for two blocks in the same slot.
    Equivocation,
    /// Do not vote.
    WithholdVotes,
    /// Vote for a block picked from node and slot.
    RandomVotes,
    /// Equivocate only with enough stake, and only on chosen slots.
    SelectiveEquivocation { min_stake_threshold: StakeAmount, target_slots: Vec<Slot> },
    /// Follow `primary_strategy` until the node has timed out
    /// `adaptation_threshold` times in the slot, then `fallback_strategy`.
    AdaptiveBehavior {
        primary_strategy: Box<ByzantineStrategy>,
        fallback_strategy: Box<ByzantineStrategy>,
        adaptation_threshold: u32,
    },
    /// Act as a member of a coalition.
    CoalitionAttack { coalition_members: Vec<NodeId>, attack_type: CoalitionAttackType },
    /// Push the clock forward before voting.
    TimingAttack { delay_votes: bool, max_delay: u64, target_path: Option<VotePath> },
    /// Attack only with enough stake, hardest on every third slot.
    StakeBasedAttack {
        reserve_stake_for_critical_slots: bool,
        activation_threshold: StakeAmount,
        min_profit_margin: StakeAmount,
    },
}

#[verifier::ext_equal]
pub enum StrategyView {
    Equivocation,
    WithholdVotes,
    RandomVotes,
    SelectiveEquivocation { min_stake_threshold: StakeAmount, target_slots: Seq<Slot> },
    AdaptiveBehavior {
        primary_strategy: Box<StrategyView>,
        fallback_strategy: Box<StrategyView>,
        adaptation_threshold: u32,
    },
    CoalitionAttack { coalition_members: Seq<NodeId>, attack_type: CoalitionAttackView },
    TimingAttack { delay_votes: bool, max_delay: u64, target_path: Option<VotePath> },
    StakeBasedAttack {
        reserve_stake_for_critical_slots: bool,
        activation_threshold: StakeAmount,
        min_profit_margin: StakeAmount,
    },
}

impl DeepView for ByzantineStrategy {
    type V = StrategyView;

    open spec fn deep_view(&self) -> StrategyView
        decreases self,
    {
        match self {
            ByzantineStrategy::Equivocation => StrategyView::Equivocation,
            ByzantineStrategy::WithholdVotes => StrategyView::WithholdVotes,
            ByzantineStrategy::RandomVotes => StrategyView::RandomVotes,
            ByzantineStrategy::SelectiveEquivocation { min_stake_threshold, target_slots } =>
                StrategyView::SelectiveEquivocation {
                    min_stake_threshold: *min_stake_threshold,
                    target_slots: target_slots@,
                },
            ByzantineStrategy::AdaptiveBehavior {
                primary_strategy,
                fallback_strategy,
                adaptation_threshold,
            } => StrategyView::AdaptiveBehavior {
                primary_strategy: Box::new((**primary_strategy).deep_view()),
                fallback_strategy: Box::new((**fallback_strategy).deep_view()),
                adaptation_threshold: *adaptation_threshold,
            },
            ByzantineStrategy::CoalitionAttack { coalition_members, attack_type } =>
                StrategyView::CoalitionAttack {
                    coalition_members: coalition_members@,
                    attack_type: attack_type.deep_view(),
                },
            ByzantineStrategy::TimingAttack { delay_votes, max_delay, target_path } =>
                StrategyView::TimingAttack {
                    delay_votes: *delay_votes,
                    max_delay: *max_delay,
                    target_path: *target_path,
                },
            ByzantineStrategy::StakeBasedAttack {
                reserve_stake_for_critical_slots,
                activation_threshold,
                min_profit_margin,
            } => StrategyView::StakeBasedAttack {
                reserve_stake_for_critical_slots: *reserve_stake_for_critical_slots,
                activation_threshold: *activation_threshold,
                min_profit_margin: *min_profit_margin,
            },
        }
    }
}

impl Clone for CoalitionAttackType {
    fn clone(&self) -> (c: Self)
        ensures
            c.deep_view() == self.deep_view(),
    {
        match self {
            CoalitionAttackType::SplitVote { target_blocks } => CoalitionAttackType::SplitVote {
                target_blocks: target_blocks.clone(),
            },
            CoalitionAttackType::DelayedFlood { delay_until_slot } => CoalitionAttackType::DelayedFlood {
                delay_until_slot: *delay_until_slot,
            },
            CoalitionAttackType::StrategicTargeting { high_priority_slots, disruption_threshold } =>
                CoalitionAttackType::StrategicTargeting {
                    high_priority_slots: high_priority_slots.clone(),
                    disruption_threshold: *disruption_threshold,
                },
            CoalitionAttackType::CertificateManipulation { target_path, manipulation_type } =>
                CoalitionAttackType::CertificateManipulation {
                    target_path: *target_path,
                    manipulation_type: *manipulation_type,
                },
        }
    }
}

impl Clone for ByzantineStrategy {
    fn clone(&self) -> (c: Self)
        ensures
            c.deep_view() == self.deep_view(),
        decreases self,
    {
        match self {
            ByzantineStrategy::Equivocation => ByzantineStrategy::Equivocation,
            ByzantineStrategy::WithholdVotes => ByzantineStrategy::WithholdVotes,
            ByzantineStrategy::RandomVotes => ByzantineStrategy::RandomVotes,
            ByzantineStrategy::SelectiveEquivocation { min_stake_threshold, target_slots } =>
                ByzantineStrategy::SelectiveEquivocation {
                    min_stake_threshold: *min_stake_threshold,
                    target_slots: target_slots.clone(),
                },
            ByzantineStrategy::AdaptiveBehavior {
                primary_strategy,
                fallback_strategy,
                adaptation_threshold,
            } => {
                let primary = (**primary_strategy).clone();
                let fallback = (**fallback_strategy).clone();
                ByzantineStrategy::AdaptiveBehavior {
                    primary_strategy: Box::new(primary),
                    fallback_strategy: Box::new(fallback),
                    adaptation_threshold: *adaptation_threshold,
                }
            },
            ByzantineStrategy::CoalitionAttack { coalition_members, attack_type } =>
                ByzantineStrategy::CoalitionAttack {
                    coalition_members: coalition_members.clone(),
                    attack_type: attack_type.clone(),
                },
            ByzantineStrategy::TimingAttack { delay_votes, max_delay, target_path } =>
                ByzantineStrategy::TimingAttack {
                    delay_votes: *delay_votes,
                    max_delay: *max_delay,
                    target_path: *target_path,
                },
            ByzantineStrategy::StakeBasedAttack {
                reserve_stake_for_critical_slots,
                activation_threshold,
                min_profit_margin,
            } => ByzantineStrategy::StakeBasedAttack {
                reserve_stake_for_critical_slots: *reserve_stake_for_critical_slots,
                activation_threshold: *activation_threshold,
                min_profit_margin: *min_profit_margin,
            },
        }
    }
}

#[derive(Clone, Debug, PartialEq)]
pub enum NodeStatus {
    Honest,
    Byzantine(ByzantineStrategy),
    Crashed { since: Timestamp },
}

#[verifier::ext_equal]
pub enum NodeStatusView {
    Honest,
    Byzantine(StrategyView),
    Crashed { since: Timestamp },
}

impl DeepView for NodeStatus {
    type V = NodeStatusView;

    open spec fn deep_view(&self) -> NodeStatusView {
        match self {
            NodeStatus::Honest => NodeStatusView::Honest,
            NodeStatus::Byzantine(strategy) => NodeStatusView::Byzantine(strategy.deep_view()),
            NodeStatus::Crashed { since } => NodeStatusView::Crashed { since: *since },
        }
    }
}

impl NodeStatus {
    pub fn is_honest(&self) -> (b: bool)
        ensures
            b == (self.deep_view() is Honest),
    {
        match self {
            NodeStatus::Honest => true,
            _ => false,
        }
    }

    pub fn is_byzantine(&self) -> (b: bool)
        ensures
            b == (self.deep_view() is Byzantine),
    {
        match self {
            NodeStatus::Byzantine(_) => true,
            _ => false,
        }
    }
}

#[derive(Clone, Copy, Debug, PartialEq, Eq, Structural)]
pub enum EventType {
    CoordinatedVote { target_block: BlockId },
    CoordinatedWithhold { target_slot: Slot },
    MessageFlood { message_count: u32 },
    TimingAttack { delay_ms: u64 },
}

#[derive(Clone, Debug, PartialEq)]
pub struct CoordinationEvent {
    pub slot: Slot,
    pub event_type: EventType,
    pub participants: Vec<NodeId>,
    pub timestamp: Timestamp,
}

#[verifier::ext_equal]
pub struct CoordinationEventView {
    pub slot: Slot,
    pub event_type: EventType,
    pub participants: Seq<NodeId>,
    pub timestamp: Timestamp,
}

impl DeepView for CoordinationEvent {
    type V = CoordinationEventView;

    open spec fn deep_view(&self) -> CoordinationEventView {
        CoordinationEventView {
            slot: self.slot,
            event_type: self.event_type,
            participants: self.participants@,
            timestamp: self.timestamp,
        }
    }
}

#[derive(Clone, Debug, PartialEq)]
pub struct ByzantineCoalition {
    pub members: Vec<NodeId>,
    pub strategy: CoalitionAttackType,
    pub coordination_history: Vec<CoordinationEvent>,
    pub total_stake: StakeAmount,
    pub formation_time: Timestamp,
}

#[verifier::ext_equal]
pub struct CoalitionView {
    pub members: Seq<NodeId>,
    pub strategy: CoalitionAttackView,
    pub coordination_history: Seq<CoordinationEventView>,
    pub total_stake: StakeAmount,
    pub formation_time: Timestamp,
}

impl DeepView for ByzantineCoalition {
    type V = CoalitionView;

    open spec fn deep_view(&self) -> CoalitionView {
        CoalitionView {
            members: self.members@,
            strategy: self.strategy.deep_view(),
            coordination_history: self.coordination_history.deep_view(),
            total_stake: self.total_stake,
            formation_time: self.formation_time,
        }
    }
}

#[derive(Clone, Copy, Debug, PartialEq, Eq, Structural)]
pub enum AttackPhase {
    Preparation,
    Execution,
    Completion,
    Adaptation,
}

#[derive(Clone, Copy, Debug, PartialEq, Eq, Structural)]
pub struct AttackMetrics {
    pub slots_disrupted: u32,
    pub certificates_prevented: u32,
    pub timeouts_caused: u32,
    pub economic_damage: StakeAmount,
}

#[derive(Clone, Copy, Debug, PartialEq, Eq, Structural)]
pub struct CoalitionState {
    pub active: bool,
    pub current_phase: AttackPhase,
    pub success_metrics: AttackMetrics,
    pub adaptation_count: u32,
}

/// The vote of `node` in `slot` for `block` on `path`.
pub open spec fn ballot(node: NodeId, slot: Slot, block: int, path: VotePath, stake: StakeAmount) -> Vote {
    Vote { node, slot, block: block as BlockId, path, stake }
}

/// Fast votes for the blocks `0 .. count`.
pub open spec fn fast_votes(node: NodeId, slot: Slot, stake: StakeAmount, count: nat) -> Seq<Vote> {
    Seq::new(count, |b: int| ballot(node, slot, b, VotePath::Fast, stake))
}

/// A Fast and a Slow vote for each of the blocks `0 .. count`, block by block.
pub open spec fn both_path_votes(node: NodeId, slot: Slot, stake: StakeAmount, count: nat) -> Seq<Vote> {
    Seq::new(
        2 * count,
        |i: int|
            ballot(
                node,
                slot,
                i / 2,
                if i % 2 == 0 {
                    VotePath::Fast
                } else {
                    VotePath::Slow
                },
                stake,
            ),
    )
}

/// The votes that a member of a coalition emits under `attack`.
pub open spec fn coalition_votes(
    members: Seq<NodeId>,
    attack: CoalitionAttackView,
    node: NodeId,
    slot: Slot,
    stake: StakeAmount,
) -> Seq<Vote> {
    if !members.contains(node) {
        Seq::empty()
    } else {
        match attack {
            CoalitionAttackView::SplitVote { target_blocks } => {
                let block = if target_blocks.len() == 0 {
                    0
                } else {
                    target_blocks[members.index_of_first(node).unwrap() % (target_blocks.len() as int)] as int
                };
                seq![ballot(node, slot, block, VotePath::Fast, stake)]
            },
            CoalitionAttackView::DelayedFlood { delay_until_slot } => {
                if slot >= delay_until_slot {
                    both_path_votes(node, slot, stake, 2)
                } else {
                    Seq::empty()
                }
            },
            CoalitionAttackView::StrategicTargeting { high_priority_slots, disruption_threshold } => {
                if high_priority_slots.contains(slot) {
                    fast_votes(node, slot, stake, 3)
                } else {
                    fast_votes(node, slot, stake, 1)
                }
            },
            CoalitionAttackView::CertificateManipulation { target_path, manipulation_type } => {
                match manipulation_type {
                    CertManipulationType::PreventCertification => Seq::empty(),
                    CertManipulationType::ConflictingCertificates => seq![
                        ballot(node, slot, (node + slot) % 3, target_path, stake),
                    ],
                    CertManipulationType::DelayedCertification { delay_slots } => {
                        if slot > 2 {
                            seq![ballot(node, (slot - 2) as Slot, 0, target_path, stake)]
                        } else {
                            Seq::empty()
                        }
                    },
                }
            },
        }
    }
}

/// The votes that a strategy emits when it is not adaptive; an adaptive
/// strategy emits nothing here.
pub open spec fn direct_votes(strategy: StrategyView, node: NodeId, slot: Slot, stake: StakeAmount) -> Seq<Vote> {
    match strategy {
        StrategyView::Equivocation => fast_votes(node, slot, stake, 2),
        StrategyView::WithholdVotes => Seq::empty(),
        StrategyView::RandomVotes => seq![ballot(node, slot, (node + slot) % 2, VotePath::Fast, stake)],
        StrategyView::SelectiveEquivocation { min_stake_threshold, target_slots } => {
            if stake >= min_stake_threshold && target_slots.contains(slot) {
                both_path_votes(node, slot, stake, 3)
            } else {
                fast_votes(node, slot, stake, 1)
            }
        },
        StrategyView::AdaptiveBehavior { .. } => Seq::empty(),
        StrategyView::CoalitionAttack { coalition_members, attack_type } => coalition_votes(
            coalition_members,
            attack_type,
            node,
            slot,
            stake,
        ),
        StrategyView::TimingAttack { delay_votes, max_delay, target_path } => seq![
            ballot(
                node,
                slot,
                0,
                match target_path {
                    Some(p) => p,
                    None => VotePath::Slow,
                },
                stake,
            ),
        ],
        StrategyView::StakeBasedAttack { activation_threshold, .. } => {
            if stake >= activation_threshold {
                if slot % 3 == 0 {
                    fast_votes(node, slot, stake, 3)
                } else {
                    seq![ballot(node, slot, 1, VotePath::Fast, stake)]
                }
            } else {
                Seq::empty()
            }
        },
    }
}

/// The ticks by which a strategy that is not adaptive moves the clock.
pub open spec fn direct_delay(strategy: StrategyView) -> u64 {
    match strategy {
        StrategyView::TimingAttack { delay_votes, max_delay, .. } => {
            if delay_votes {
                if max_delay < MAX_TIMING_DELAY {
                    max_delay
                } else {
                    MAX_TIMING_DELAY
                }
            } else {
                0
            }
        },
        _ => 0,
    }
}

/// The strategy that acts: an adaptive strategy hands over to its fallback
/// once the node has timed out `adaptation_threshold` times in the slot, and
/// to its primary strategy before that. The hand-over goes one level deep.
pub open spec fn acting_strategy(strategy: StrategyView, timeout_count: u32) -> StrategyView {
    match strategy {
        StrategyView::AdaptiveBehavior { primary_strategy, fallback_strategy, adaptation_threshold } => {
            if timeout_count >= adaptation_threshold {
                *fallback_strategy
            } else {
                *primary_strategy
            }
        },
        _ => strategy,
    }
}

/// The votes that `node` emits in `slot` under `strategy`, in the order of emission.
pub open spec fn strategy_votes(
    strategy: StrategyView,
    node: NodeId,
    slot: Slot,
    stake: StakeAmount,
    timeout_count: u32,
) -> Seq<Vote> {
    direct_votes(acting_strategy(strategy, timeout_count), node, slot, stake)
}

/// The ticks by which `strategy` moves the clock before it votes.
pub open spec fn strategy_delay(strategy: StrategyView, timeout_count: u32) -> u64 {
    direct_delay(acting_strategy(strategy, timeout_count))
}

/// Whether `list` holds `x`.
pub fn list_contains(list: &Vec<u32>, x: u32) -> (b: bool)
    ensures
        b == list@.contains(x),
{
    let mut i: usize = 0;
    while i < list.len()
        invariant
            i <= list@.len(),
            forall|j: int| 0 <= j < i ==> list@[j] != x,
        decreases list@.len() - i,
    {
        if list[i] == x {
            return true;
        }
        i += 1;
    }
    false
}

/// The first index at which `list` holds `x`.
pub fn list_position(list: &Vec<u32>, x: u32) -> (r: Option<usize>)
    ensures
        match r {
            Some(i) => list@.index_of_first(x) == Some(i as int),
            None => list@.index_of_first(x) is None,
        },
{
    let mut i: usize = 0;
    proof {
        list@.index_of_first_ensures(x);
    }
    while i < list.len()
        invariant
            i <= list@.len(),
            forall|j: int| 0 <= j < i ==> list@[j] != x,
            match list@.index_of_first(x) {
                Some(p) => 0 <= p < list@.len() && list@[p] == x && forall|j: int| 0 <= j < p ==> list@[j] != x,
                None => !list@.contains(x),
            },
        decreases list@.len() - i,
    {
        if list[i] == x {
            return Some(i);
        }
        i += 1;
    }
    None
}

fn make_vote(node: NodeId, slot: Slot, block: BlockId, path: VotePath, stake: StakeAmount) -> (v: Vote)
    ensures
        v == ballot(node, slot, block as int, path, stake),
{
    Vote { node, slot, block, path, stake }
}

fn emit_fast(node: NodeId, slot: Slot, stake: StakeAmount, count: u32) -> (out: Vec<Vote>)
    ensures
        out@ == fast_votes(node, slot, stake, count as nat),
{
    let mut out: Vec<Vote> = Vec::new();
    let mut b: u32 = 0;
    while b < count
        invariant
            b <= count,
            out@ == fast_votes(node, slot, stake, b as nat),
        decreases count - b,
    {
        out.push(make_vote(node, slot, b, VotePath::Fast, stake));
        b += 1;
        assert(out@ =~= fast_votes(node, slot, stake, b as nat));
    }
    out
}

fn emit_both_paths(node: NodeId, slot: Slot, stake: StakeAmount, count: u32) -> (out: Vec<Vote>)
    requires
        count <= 1000,
    ensures
        out@ == both_path_votes(node, slot, stake, count as nat),
{
    let mut out: Vec<Vote> = Vec::new();
    let mut b: u32 = 0;
    assert(out@ =~= both_path_votes(node, slot, stake, 0));
    while b < count
        invariant
            b <= count,
            out@ == both_path_votes(node, slot, stake, b as nat),
        decreases count - b,
    {
        out.push(make_vote(node, slot, b, VotePath::Fast, stake));
        out.push(make_vote(node, slot, b, VotePath::Slow, stake));
        b += 1;
        assert(out@ =~= both_path_votes(node, slot, stake, b as nat));
    }
    out
}

fn emit_one(node: NodeId, slot: Slot, block: BlockId, path: VotePath, stake: StakeAmount) -> (out: Vec<Vote>)
    ensures
        out@ == seq![ballot(node, slot, block as int, path, stake)],
{
    let mut out: Vec<Vote> = Vec::new();
    out.push(make_vote(node, slot, block, path, stake));
    assert(out@ =~= seq![ballot(node, slot, block as int, path, stake)]);
    out
}

/// The remainder of `node + slot` on division by `modulus`.
fn mixed_block(node: NodeId, slot: Slot, modulus: u32) -> (b: BlockId)
    requires
        modulus > 0,
    ensures
        b == (node + slot) % (modulus as int),
{
    let wide: u64 = node as u64 + slot as u64;
    let m: u64 = modulus as u64;
    (wide % m) as u32
}

/// The votes that a member of a coalition emits, in the order of emission.
pub fn execute_coalition_attack(
    node: NodeId,
    coalition_members: &Vec<NodeId>,
    attack_type: &CoalitionAttackType,
    slot: Slot,
    stake: StakeAmount,
) -> (out: Vec<Vote>)
    ensures
        out@ == coalition_votes(coalition_members@, attack_type.deep_view(), node, slot, stake),
{
    let index = list_position(coalition_members, node);
    proof {
        coalition_members@.index_of_first_ensures(node);
    }
    match index {
        None => Vec::new(),
        Some(node_index) => {
            match attack_type {
                CoalitionAttackType::SplitVote { target_blocks } => {
                    let block: BlockId = if target_blocks.len() == 0 {
                        0
                    } else {
                        target_blocks[node_index % target_blocks.len()]
                    };
                    emit_one(node, slot, block, VotePath::Fast, stake)
                },
                CoalitionAttackType::DelayedFlood { delay_until_slot } => {
                    if slot >= *delay_until_slot {
                        emit_both_paths(node, slot, stake, 2)
                    } else {
                        Vec::new()
                    }
                },
                CoalitionAttackType::StrategicTargeting { high_priority_slots, disruption_threshold: _ } => {
                    if list_contains(high_priority_slots, slot) {
                        emit_fast(node, slot, stake, 3)
                    } else {
                        emit_fast(node, slot, stake, 1)
                    }
                },
                CoalitionAttackType::CertificateManipulation { target_path, manipulation_type } => {
                    match manipulation_type {
                        CertManipulationType::PreventCertification => Vec::new(),
                        CertManipulationType::ConflictingCertificates => {
                            emit_one(node, slot, mixed_block(node, slot, 3), *target_path, stake)
                        },
                        CertManipulationType::DelayedCertification { delay_slots: _ } => {
                            if slot > 2 {
                                emit_one(node, slot - 2, 0, *target_path, stake)
                            } else {
                                Vec::new()
                            }
                        },
                    }
                },
            }
        },
    }
}

/// The votes of a strategy that is not adaptive, in the order of emission.
fn emit_direct(strategy: &ByzantineStrategy, node: NodeId, slot: Slot, stake: StakeAmount) -> (out: Vec<Vote>)
    ensures
        out@ == direct_votes(strategy.deep_view(), node, slot, stake),
{
    match strategy {
        ByzantineStrategy::Equivocation => emit_fast(node, slot, stake, 2),
        ByzantineStrategy::WithholdVotes => Vec::new(),
        ByzantineStrategy::RandomVotes => emit_one(
            node,
            slot,
            mixed_block(node, slot, 2),
            VotePath::Fast,
            stake,
        ),
        ByzantineStrategy::SelectiveEquivocation { min_stake_threshold, target_slots } => {
            if stake >= *min_stake_threshold && list_contains(target_slots, slot) {
                emit_both_paths(node, slot, stake, 3)
            } else {
                emit_fast(node, slot, stake, 1)
            }
        },
        ByzantineStrategy::AdaptiveBehavior { .. } => Vec::new(),
        ByzantineStrategy::CoalitionAttack { coalition_members, attack_type } => {
            execute_coalition_attack(node, coalition_members, attack_type, slot, stake)
        },
        ByzantineStrategy::TimingAttack { delay_votes: _, max_delay: _, target_path } => {
            let path = match target_path {
                Some(p) => *p,
                None => VotePath::Slow,
            };
            emit_one(node, slot, 0, path, stake)
        },
        ByzantineStrategy::StakeBasedAttack {
            reserve_stake_for_critical_slots: _,
            activation_threshold,
            min_profit_margin: _,
        } => {
            if stake >= *activation_threshold {
                if slot % 3 == 0 {
                    emit_fast(node, slot, stake, 3)
                } else {
                    emit_one(node, slot, 1, VotePath::Fast, stake)
                }
            } else {
                Vec::new()
            }
        },
    }
}

fn delay_direct(strategy: &ByzantineStrategy) -> (d: u64)
    ensures
        d == direct_delay(strategy.deep_view()),
{
    match strategy {
        ByzantineStrategy::TimingAttack { delay_votes, max_delay, target_path: _ } => {
            if *delay_votes {
                if *max_delay < MAX_TIMING_DELAY {
                    *max_delay
                } else {
                    MAX_TIMING_DELAY
                }
            } else {
                0
            }
        },
        _ => 0,
    }
}

/// What a Byzantine node does in a slot: the ticks by which it moves the
/// clock, and the votes it emits, in the order of emission.
pub fn execute_byzantine_strategy(
    node: NodeId,
    strategy: &ByzantineStrategy,
    slot: Slot,
    stake: StakeAmount,
    timeout_count: u32,
) -> (r: (u64, Vec<Vote>))
    ensures
        r.0 == strategy_delay(strategy.deep_view(), timeout_count),
        r.1@ == strategy_votes(strategy.deep_view(), node, slot, stake, timeout_count),
{
    match strategy {
        ByzantineStrategy::AdaptiveBehavior { primary_strategy, fallback_strategy, adaptation_threshold } => {
            if timeout_count >= *adaptation_threshold {
                (delay_direct(fallback_strategy), emit_direct(fallback_strategy, node, slot, stake))
            } else {
                (delay_direct(primary_strategy), emit_direct(primary_strategy, node, slot, stake))
            }
        },
        _ => (delay_direct(strategy), emit_direct(strategy, node, slot, stake)),
    }
}

impl Duplicate for NodeStatus {
    open spec fn intact(&self) -> bool {
        true
    }

    fn duplicate(&self) -> (copy: Self) {
        match self {
            NodeStatus::Honest => NodeStatus::Honest,
            NodeStatus::Byzantine(strategy) => NodeStatus::Byzantine(strategy.clone()),
            NodeStatus::Crashed { since } => NodeStatus::Crashed { since: *since },
        }
    }
}

impl Duplicate for CoordinationEvent {
    open spec fn intact(&self) -> bool {
        true
    }

    fn duplicate(&self) -> (copy: Self) {
        CoordinationEvent {
            slot: self.slot,
            event_type: self.event_type,
            participants: copy_list(&self.participants),
            timestamp: self.timestamp,
        }
    }
}

impl Duplicate for ByzantineCoalition {
    open spec fn intact(&self) -> bool {
        true
    }

    fn duplicate(&self) -> (copy: Self) {
        ByzantineCoalition {
            members: copy_list(&self.members),
            strategy: self.strategy.clone(),
            coordination_history: self.coordination_history.duplicate(),
            total_stake: self.total_stake,
            formation_time: self.formation_time,
        }
    }
}

} // verus!
