//! A model of the Alpenglow consensus protocol as a state machine.
//!
//! A state and an action give the next state. Votes on a fast and a slow
//! path, certificates, timeouts and skip certificates make up consensus;
//! around it stand a Byzantine adversary, a simulated network, Rotor's
//! erasure-coded dissemination, leader rotation and an economic layer. Every
//! operation is specified on a mathematical model of the state, and the
//! properties of the protocol are proved on that model.

pub mod byzantine;
pub mod coalition;
pub mod consensus;
pub mod demonstration;
pub mod duplicate;
pub mod economics;
pub mod explore;
pub mod fraction;
pub mod laws;
pub mod leader;
pub mod messaging;
pub mod network;
pub mod properties;
pub mod rotor;
pub mod scale;
pub mod sorted_map;
pub mod sorted_set;
pub mod state;
pub mod statistics;
pub mod text;
pub mod transition;
pub mod treasury;
pub mod types;

pub use crate::byzantine::{
    AttackMetrics, AttackPhase, ByzantineCoalition, ByzantineStrategy, CertManipulationType,
    CoalitionAttackType, CoalitionState, CoordinationEvent, EventType, NodeStatus,
};
pub use crate::demonstration::ScalabilityResult;
pub use crate::economics::{
    EconomicError, EconomicState, RewardDistribution, SlashingData, SlashingEvidence, SlashingSeverity,
    SlashingType,
};
pub use crate::fraction::Fraction;
pub use crate::leader::{LeaderRotation, WindowInfo};
pub use crate::network::{
    Bandwidth, CongestionState, CoordinationInstruction, DeliveredMessage, FailureType, LatencyModel,
    MessageContent, MessagePriority, MessageQueue, NetworkAction, NetworkFailure, NetworkPartition,
    NetworkSimulationState, PendingMessage,
};
pub use crate::properties::ProtocolProperty;
pub use crate::rotor::{BlockChunk, ErasureCodedBlock, RelayNode};
pub use crate::scale::{CompactState, EssentialMetrics, PropertyResult};
pub use crate::sorted_map::SortedMap;
pub use crate::sorted_set::SortedSet;
pub use crate::state::AlpenglowState;
pub use crate::statistics::{SamplingStrategy, SamplingType, StatisticalConfig, StatisticalResult};
pub use crate::transition::{AlpenglowAction, AlpenglowModel};
pub use crate::treasury::EconomicViolation;
pub use crate::types::{
    Block, BlockId, Certificate, FinalizedBlock, Message, Node, NodeId, PartialBlock, RewardAmount, Round,
    SkipCertificate, SlashingAmount, Slot, StakeAmount, TimeoutInfo, Timestamp, Transaction, Vote, VotePath,
};
