//! Identifiers and the records of the consensus layer.

use vstd::prelude::*;
use crate::duplicate::Duplicate;
use crate::sorted_map::MapKey;
use crate::sorted_set::SortedSet;

verus! {

pub type NodeId = u32;

pub type Slot = u32;

pub type BlockId = u32;

pub type StakeAmount = u64;

pub type Timestamp = u64;

pub type Round = u32;

pub type RewardAmount = u64;

pub type SlashingAmount = u64;

#[derive(Clone, Copy, Debug, PartialEq, Eq, Structural, Hash)]
pub struct Block {
    pub id: BlockId,
    pub parent: BlockId,
}

/// The two voting paths: `Fast` needs 80% of the stake, `Slow` 60%.
#[derive(Clone, Copy, Debug, PartialEq, Eq, Structural, Hash)]
pub enum VotePath {
    Fast,
    Slow,
}

impl VotePath {
    /// 0 for `Fast`, 1 for `Slow`.
    pub open spec fn index(self) -> int {
        match self {
            VotePath::Fast => 0,
            VotePath::Slow => 1,
        }
    }
}

/// One vote of `node` for `block` in `slot`, with the stake it carried when cast.
#[derive(Clone, Copy, Debug, PartialEq, Eq, Structural, Hash)]
pub struct Vote {
    pub node: NodeId,
    pub slot: Slot,
    pub block: BlockId,
    pub path: VotePath,
    pub stake: StakeAmount,
}

impl DeepView for Vote {
    type V = Vote;

    open spec fn deep_view(&self) -> Vote {
        *self
    }
}

impl MapKey for Vote {
    /// Votes are ordered by node, then slot, block, path and stake.
    open spec fn rank(self) -> int {
        (((self.node as int * 0x1_0000_0000 + self.slot as int) * 0x1_0000_0000
            + self.block as int) * 2 + self.path.index()) * 0x1_0000_0000_0000_0000
            + self.stake as int
    }

    proof fn rank_injective(self, other: Self) {
        let a = (self.node as int * 0x1_0000_0000 + self.slot as int) * 0x1_0000_0000
            + self.block as int;
        let b = (other.node as int * 0x1_0000_0000 + other.slot as int) * 0x1_0000_0000
            + other.block as int;
        let pa = a * 2 + self.path.index();
        let pb = b * 2 + other.path.index();
        assert(pa == pb);
        assert(a == b);
    }

    fn precedes(&self, other: &Self) -> (b: bool) {
        let ghost a = (self.node as int * 0x1_0000_0000 + self.slot as int) * 0x1_0000_0000
            + self.block as int;
        let ghost c = (other.node as int * 0x1_0000_0000 + other.slot as int) * 0x1_0000_0000
            + other.block as int;
        let ghost pa = a * 2 + self.path.index();
        let ghost pc = c * 2 + other.path.index();
        if self.node != other.node {
            assert(self.node < other.node ==> a < c);
            assert(self.node > other.node ==> a > c);
            assert(a < c ==> pa < pc);
            assert(a > c ==> pa > pc);
            self.node < other.node
        } else if self.slot != other.slot {
            assert(self.slot < other.slot ==> a < c);
            assert(self.slot > other.slot ==> a > c);
            assert(a < c ==> pa < pc);
            assert(a > c ==> pa > pc);
            self.slot < other.slot
        } else if self.block != other.block {
            assert(a < c ==> pa < pc);
            assert(a > c ==> pa > pc);
            self.block < other.block
        } else if self.path != other.path {
            assert(a == c);
            match self.path {
                VotePath::Fast => true,
                VotePath::Slow => false,
            }
        } else {
            self.stake < other.stake
        }
    }
}

/// A quorum of votes for one block in one slot.
#[derive(Clone, Debug, PartialEq)]
pub struct Certificate {
    pub votes: SortedSet<Vote>,
    pub slot: Slot,
    pub block: BlockId,
    pub total_stake: StakeAmount,
    pub path: VotePath,
}

#[verifier::ext_equal]
pub struct CertificateView {
    pub votes: Set<Vote>,
    pub slot: Slot,
    pub block: BlockId,
    pub total_stake: StakeAmount,
    pub path: VotePath,
}

impl DeepView for Certificate {
    type V = CertificateView;

    open spec fn deep_view(&self) -> CertificateView {
        CertificateView {
            votes: self.votes@,
            slot: self.slot,
            block: self.block,
            total_stake: self.total_stake,
            path: self.path,
        }
    }
}

/// Evidence that a slot timed out and is passed over.
#[derive(Clone, Debug, PartialEq)]
pub struct SkipCertificate {
    pub slot: Slot,
    pub timeout_votes: SortedSet<Vote>,
    pub total_stake: StakeAmount,
}

#[verifier::ext_equal]
pub struct SkipCertificateView {
    pub slot: Slot,
    pub timeout_votes: Set<Vote>,
    pub total_stake: StakeAmount,
}

impl DeepView for SkipCertificate {
    type V = SkipCertificateView;

    open spec fn deep_view(&self) -> SkipCertificateView {
        SkipCertificateView {
            slot: self.slot,
            timeout_votes: self.timeout_votes@,
            total_stake: self.total_stake,
        }
    }
}

impl Duplicate for Certificate {
    open spec fn intact(&self) -> bool {
        true
    }

    fn duplicate(&self) -> (copy: Self) {
        Certificate {
            votes: self.votes.copied(),
            slot: self.slot,
            block: self.block,
            total_stake: self.total_stake,
            path: self.path,
        }
    }
}

impl Duplicate for SkipCertificate {
    open spec fn intact(&self) -> bool {
        true
    }

    fn duplicate(&self) -> (copy: Self) {
        SkipCertificate {
            slot: self.slot,
            timeout_votes: self.timeout_votes.copied(),
            total_stake: self.total_stake,
        }
    }
}

impl Duplicate for Vote {
    open spec fn intact(&self) -> bool {
        true
    }

    fn duplicate(&self) -> (copy: Self) {
        *self
    }
}

/// An entry of the ledger.
#[derive(Clone, Copy, Debug, PartialEq, Eq, Structural)]
pub struct FinalizedBlock {
    pub slot: Slot,
    pub block_id: BlockId,
    pub finalization_time: Timestamp,
    pub total_stake: StakeAmount,
}

/// What one node has seen of timeouts in one slot.
#[derive(Clone, Copy, Debug, PartialEq, Eq, Structural)]
pub struct TimeoutInfo {
    pub count: u32,
    pub last_timeout: Timestamp,
    pub threshold: u32,
}

impl DeepView for TimeoutInfo {
    type V = TimeoutInfo;

    open spec fn deep_view(&self) -> TimeoutInfo {
        *self
    }
}

impl Duplicate for TimeoutInfo {
    open spec fn intact(&self) -> bool {
        true
    }

    fn duplicate(&self) -> (copy: Self) {
        *self
    }
}

/// A validator as it is handed to `AlpenglowState::new_with_nodes`.
#[derive(Clone, Copy, Debug, PartialEq, Eq, Structural, Hash)]
pub struct Node {
    pub id: NodeId,
    pub stake: StakeAmount,
    pub is_byzantine: bool,
}

#[derive(Clone, Copy, Debug, PartialEq, Eq, Structural, Hash)]
pub struct Transaction {
    pub id: u64,
    pub sender: NodeId,
    pub recipient: NodeId,
    pub amount: u64,
    pub timestamp: Timestamp,
}

#[derive(Clone, Debug, PartialEq)]
pub struct PartialBlock {
    pub height: u32,
    pub parent_hash: u64,
    pub transactions: Vec<Transaction>,
    pub proposer: NodeId,
    pub timestamp: Timestamp,
}

#[derive(Clone, Debug, PartialEq)]
pub enum Message {
    Heartbeat,
    Proposal(PartialBlock),
    Vote(Vote),
    Certificate(Certificate),
}

} // verus!
