//! The economic layer: balances, the reward pool, and slashing.

use vstd::prelude::*;
use crate::duplicate::Duplicate;
use crate::fraction::Fraction;
use crate::sorted_map::SortedMap;
use crate::types::{Block, NodeId, RewardAmount, SlashingAmount, Slot, StakeAmount, Timestamp, Vote};

verus! {

/// The reward rate of a fresh state, in millionths: 5% per epoch.
pub const DEFAULT_REWARD_RATE_MICROS: u64 = 50_000;

/// The slashing rate of a fresh state, in millionths: 10%.
pub const DEFAULT_SLASHING_RATE_MICROS: u64 = 100_000;

/// What a fresh state puts into the reward pool for each node.
pub const POOL_PER_NODE: u64 = 1000;

#[derive(Clone, Copy, Debug, PartialEq, Eq, Structural, Hash)]
pub enum SlashingType {
    DoubleVoting,
    LongRangeAttack,
    InvalidProposal,
    Equivocation,
    NetworkDisruption,
    StakeWithdrawalViolation,
}

/// How grave an offence is; the share of the balance that is slashed grows with it.
#[derive(Clone, Copy, Debug, PartialEq, Eq, Structural, Hash)]
pub enum SlashingSeverity {
    /// 5% of the balance.
    Minor,
    /// 15% of the balance.
    Moderate,
    /// 30% of the balance.
    Severe,
    /// 50% of the balance; the validator is marked Byzantine.
    Critical,
}

#[derive(Debug, PartialEq, Hash)]
pub enum SlashingData {
    DoubleVote { vote1: Vote, vote2: Vote },
    EquivocationProof { block1: Block, block2: Block },
    InvalidBlock { block: Block, violation: String },
    NetworkAttack { attack_details: String },
}

#[verifier::ext_equal]
pub enum SlashingDataView {
    DoubleVote { vote1: Vote, vote2: Vote },
    EquivocationProof { block1: Block, block2: Block },
    InvalidBlock { block: Block, violation: Seq<char> },
    NetworkAttack { attack_details: Seq<char> },
}

impl DeepView for SlashingData {
    type V = SlashingDataView;

    open spec fn deep_view(&self) -> SlashingDataView {
        match self {
            SlashingData::DoubleVote { vote1, vote2 } => SlashingDataView::DoubleVote {
                vote1: *vote1,
                vote2: *vote2,
            },
            SlashingData::EquivocationProof { block1, block2 } => SlashingDataView::EquivocationProof {
                block1: *block1,
                block2: *block2,
            },
            SlashingData::InvalidBlock { block, violation } => SlashingDataView::InvalidBlock {
                block: *block,
                violation: violation@,
            },
            SlashingData::NetworkAttack { attack_details } => SlashingDataView::NetworkAttack {
                attack_details: attack_details@,
            },
        }
    }
}

impl Clone for SlashingData {
    fn clone(&self) -> (c: Self)
        ensures
            c.deep_view() == self.deep_view(),
    {
        match self {
            SlashingData::DoubleVote { vote1, vote2 } => SlashingData::DoubleVote { vote1: *vote1, vote2: *vote2 },
            SlashingData::EquivocationProof { block1, block2 } => SlashingData::EquivocationProof {
                block1: *block1,
                block2: *block2,
            },
            SlashingData::InvalidBlock { block, violation } => SlashingData::InvalidBlock {
                block: *block,
                violation: violation.clone(),
            },
            SlashingData::NetworkAttack { attack_details } => SlashingData::NetworkAttack {
                attack_details: attack_details.clone(),
            },
        }
    }
}

#[derive(Debug, PartialEq, Hash)]
pub struct SlashingEvidence {
    pub evidence_type: SlashingType,
    pub violator: NodeId,
    pub slot: Slot,
    pub evidence_data: SlashingData,
    pub severity: SlashingSeverity,
    pub reporter: Option<NodeId>,
    pub timestamp: Timestamp,
}

#[verifier::ext_equal]
pub struct SlashingEvidenceView {
    pub evidence_type: SlashingType,
    pub violator: NodeId,
    pub slot: Slot,
    pub evidence_data: SlashingDataView,
    pub severity: SlashingSeverity,
    pub reporter: Option<NodeId>,
    pub timestamp: Timestamp,
}

impl DeepView for SlashingEvidence {
    type V = SlashingEvidenceView;

    open spec fn deep_view(&self) -> SlashingEvidenceView {
        SlashingEvidenceView {
            evidence_type: self.evidence_type,
            violator: self.violator,
            slot: self.slot,
            evidence_data: self.evidence_data.deep_view(),
            severity: self.severity,
            reporter: self.reporter,
            timestamp: self.timestamp,
        }
    }
}

impl Clone for SlashingEvidence {
    fn clone(&self) -> (c: Self)
        ensures
            c.deep_view() == self.deep_view(),
    {
        SlashingEvidence {
            evidence_type: self.evidence_type,
            violator: self.violator,
            slot: self.slot,
            evidence_data: self.evidence_data.clone(),
            severity: self.severity,
            reporter: self.reporter,
            timestamp: self.timestamp,
        }
    }
}

#[derive(Clone, Debug, PartialEq)]
pub struct EconomicState {
    pub rewards_pool: RewardAmount,
    pub total_slashed: SlashingAmount,
    pub validator_balances: SortedMap<NodeId, StakeAmount>,
    pub pending_rewards: SortedMap<NodeId, RewardAmount>,
    pub slashing_evidence: Vec<SlashingEvidence>,
    /// The share of the pool that one epoch pays out.
    pub reward_rate: Fraction,
    pub slashing_rate: Fraction,
}

#[verifier::ext_equal]
pub struct EconomicView {
    pub rewards_pool: RewardAmount,
    pub total_slashed: SlashingAmount,
    pub validator_balances: Map<NodeId, StakeAmount>,
    pub pending_rewards: Map<NodeId, RewardAmount>,
    pub slashing_evidence: Seq<SlashingEvidenceView>,
    pub reward_rate: Fraction,
    pub slashing_rate: Fraction,
}

impl DeepView for EconomicState {
    type V = EconomicView;

    open spec fn deep_view(&self) -> EconomicView {
        EconomicView {
            rewards_pool: self.rewards_pool,
            total_slashed: self.total_slashed,
            validator_balances: self.validator_balances@,
            pending_rewards: self.pending_rewards@,
            slashing_evidence: self.slashing_evidence.deep_view(),
            reward_rate: self.reward_rate,
            slashing_rate: self.slashing_rate,
        }
    }
}

impl EconomicState {
    pub open spec fn wf(self) -> bool {
        self.validator_balances.wf() && self.pending_rewards.wf()
    }
}

/// What one epoch pays to whom.
#[derive(Clone, Debug, PartialEq)]
pub struct RewardDistribution {
    pub epoch: u64,
    pub total_rewards: RewardAmount,
    pub validator_rewards: SortedMap<NodeId, RewardAmount>,
    pub performance_bonuses: SortedMap<NodeId, RewardAmount>,
    pub participation_rewards: SortedMap<NodeId, RewardAmount>,
}

#[verifier::ext_equal]
pub struct RewardDistributionView {
    pub epoch: u64,
    pub total_rewards: RewardAmount,
    pub validator_rewards: Map<NodeId, RewardAmount>,
    pub performance_bonuses: Map<NodeId, RewardAmount>,
    pub participation_rewards: Map<NodeId, RewardAmount>,
}

impl DeepView for RewardDistribution {
    type V = RewardDistributionView;

    open spec fn deep_view(&self) -> RewardDistributionView {
        RewardDistributionView {
            epoch: self.epoch,
            total_rewards: self.total_rewards,
            validator_rewards: self.validator_rewards@,
            performance_bonuses: self.performance_bonuses@,
            participation_rewards: self.participation_rewards@,
        }
    }
}

impl RewardDistribution {
    pub open spec fn wf(self) -> bool {
        self.validator_rewards.wf() && self.performance_bonuses.wf() && self.participation_rewards.wf()
    }
}

/// Why an economic operation was refused.
#[derive(Clone, Copy, Debug, PartialEq, Eq, Structural)]
pub enum EconomicError {
    /// The distribution asks for more than the pool holds.
    InsufficientRewards,
    /// The validator has no balance to slash.
    NoStake,
    /// A withdrawal asks for more than the balance holds.
    InsufficientBalance,
    /// A balance or a total would leave the range of its type.
    OutOfRange,
}

impl Duplicate for SlashingEvidence {
    open spec fn intact(&self) -> bool {
        true
    }

    fn duplicate(&self) -> (copy: Self) {
        self.clone()
    }
}

} // verus!
