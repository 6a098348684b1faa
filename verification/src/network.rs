//! The simulated network: partitions, latency models, injected failures and
//! the message queue.
//!
//! Every choice that a real network leaves to chance is made here from an
//! integer hash of the endpoints and the logical clock.

use vstd::prelude::*;
use crate::duplicate::{copy_list, Duplicate};
use crate::byzantine::{CoalitionAttackType, CoalitionAttackView};
use crate::fraction::{clip, scaled, Fraction};
use crate::sorted_map::SortedMap;
use crate::sorted_set::SortedSet;
use crate::types::{
    Certificate, CertificateView, NodeId, SkipCertificate, SkipCertificateView, Slot, Timestamp, Vote,
};

verus! {

/// Bytes per second.
pub type Bandwidth = u64;

/// The latency of the default model, in milliseconds.
pub const DEFAULT_LATENCY_MS: u64 = 50;

/// The default packet loss, in millionths: one percent.
pub const DEFAULT_PACKET_LOSS_MICROS: u64 = 10_000;

/// The default congestion threshold, in millionths: 0.8.
pub const DEFAULT_CONGESTION_THRESHOLD_MICROS: u64 = 800_000;

/// The default recovery rate, in millionths: 0.1.
pub const DEFAULT_RECOVERY_RATE_MICROS: u64 = 100_000;

/// Two disjoint groups of nodes that cannot reach each other.
#[derive(Clone, Debug, PartialEq)]
pub struct NetworkPartition {
    pub partition_a: SortedSet<NodeId>,
    pub partition_b: SortedSet<NodeId>,
    pub started_at: Timestamp,
}

#[verifier::ext_equal]
pub struct PartitionView {
    pub partition_a: Set<NodeId>,
    pub partition_b: Set<NodeId>,
    pub started_at: Timestamp,
}

impl DeepView for NetworkPartition {
    type V = PartitionView;

    open spec fn deep_view(&self) -> PartitionView {
        PartitionView {
            partition_a: self.partition_a@,
            partition_b: self.partition_b@,
            started_at: self.started_at,
        }
    }
}

impl NetworkPartition {
    pub open spec fn wf(self) -> bool {
        self.partition_a.wf() && self.partition_b.wf()
    }
}

#[derive(Clone, Copy, Debug, PartialEq, Eq, Structural)]
pub enum MessagePriority {
    /// Votes and certificates.
    Critical,
    /// Skip certificates and timeouts.
    High,
    /// Gossip and heartbeats.
    Normal,
    /// Coalition coordination.
    Low,
}

#[derive(Clone, Copy, Debug, PartialEq, Eq, Structural, Hash)]
pub enum LatencyModel {
    Constant { latency_ms: u64 },
    Uniform { min_ms: u64, max_ms: u64 },
    Normal { mean_ms: u64, std_dev_ms: u64 },
    Realistic { base_latency_ms: u64, distance_factor: u64, congestion_multiplier: u64 },
}

#[derive(Clone, Debug, PartialEq)]
pub struct CongestionState {
    /// Utilisation per directed link; 1.0 is a full link.
    pub current_utilization: SortedMap<(NodeId, NodeId), Fraction>,
    /// The utilisation above which a link delays its messages.
    pub congestion_threshold: Fraction,
    /// How fast congestion clears.
    pub recovery_rate: Fraction,
}

#[verifier::ext_equal]
pub struct CongestionView {
    pub current_utilization: Map<(NodeId, NodeId), Fraction>,
    pub congestion_threshold: Fraction,
    pub recovery_rate: Fraction,
}

impl DeepView for CongestionState {
    type V = CongestionView;

    open spec fn deep_view(&self) -> CongestionView {
        CongestionView {
            current_utilization: self.current_utilization@,
            congestion_threshold: self.congestion_threshold,
            recovery_rate: self.recovery_rate,
        }
    }
}

impl Default for CongestionState {
    fn default() -> (c: Self)
        ensures
            c.current_utilization.wf(),
            c.deep_view() == (CongestionView {
                current_utilization: Map::empty(),
                congestion_threshold: Fraction { micros: DEFAULT_CONGESTION_THRESHOLD_MICROS },
                recovery_rate: Fraction { micros: DEFAULT_RECOVERY_RATE_MICROS },
            }),
    {
        CongestionState {
            current_utilization: SortedMap::new(),
            congestion_threshold: Fraction::from_micros(DEFAULT_CONGESTION_THRESHOLD_MICROS),
            recovery_rate: Fraction::from_micros(DEFAULT_RECOVERY_RATE_MICROS),
        }
    }
}

#[derive(Clone, Debug, PartialEq)]
pub enum FailureType {
    LinkFailure { from: NodeId, to: NodeId },
    NodeIsolation { node: NodeId },
    PartialPartition { partition_a: Vec<NodeId>, partition_b: Vec<NodeId> },
    PacketLoss { loss_rate: Fraction },
    LatencySpike { multiplier: Fraction },
    BandwidthReduction { factor: Fraction },
}

#[verifier::ext_equal]
pub enum FailureTypeView {
    LinkFailure { from: NodeId, to: NodeId },
    NodeIsolation { node: NodeId },
    PartialPartition { partition_a: Seq<NodeId>, partition_b: Seq<NodeId> },
    PacketLoss { loss_rate: Fraction },
    LatencySpike { multiplier: Fraction },
    BandwidthReduction { factor: Fraction },
}

impl DeepView for FailureType {
    type V = FailureTypeView;

    open spec fn deep_view(&self) -> FailureTypeView {
        match *self {
            FailureType::LinkFailure { from, to } => FailureTypeView::LinkFailure { from, to },
            FailureType::NodeIsolation { node } => FailureTypeView::NodeIsolation { node },
            FailureType::PartialPartition { partition_a, partition_b } => FailureTypeView::PartialPartition {
                partition_a: partition_a@,
                partition_b: partition_b@,
            },
            FailureType::PacketLoss { loss_rate } => FailureTypeView::PacketLoss { loss_rate },
            FailureType::LatencySpike { multiplier } => FailureTypeView::LatencySpike { multiplier },
            FailureType::BandwidthReduction { factor } => FailureTypeView::BandwidthReduction { factor },
        }
    }
}

/// A failure that is in force from `start_time` for `duration` ticks.
#[derive(Clone, Debug, PartialEq)]
pub struct NetworkFailure {
    pub failure_type: FailureType,
    pub start_time: Timestamp,
    pub duration: Timestamp,
    pub affected_nodes: Vec<NodeId>,
    pub severity: Fraction,
}

#[verifier::ext_equal]
pub struct NetworkFailureView {
    pub failure_type: FailureTypeView,
    pub start_time: Timestamp,
    pub duration: Timestamp,
    pub affected_nodes: Seq<NodeId>,
    pub severity: Fraction,
}

impl DeepView for NetworkFailure {
    type V = NetworkFailureView;

    open spec fn deep_view(&self) -> NetworkFailureView {
        NetworkFailureView {
            failure_type: self.failure_type.deep_view(),
            start_time: self.start_time,
            duration: self.duration,
            affected_nodes: self.affected_nodes@,
            severity: self.severity,
        }
    }
}

#[derive(Clone, Debug, PartialEq)]
pub struct NetworkSimulationState {
    pub latency_model: LatencyModel,
    pub packet_loss_rate: Fraction,
    pub bandwidth_limits: SortedMap<(NodeId, NodeId), Bandwidth>,
    pub congestion_state: CongestionState,
    pub failure_injections: Vec<NetworkFailure>,
}

#[verifier::ext_equal]
pub struct NetworkView {
    pub latency_model: LatencyModel,
    pub packet_loss_rate: Fraction,
    pub bandwidth_limits: Map<(NodeId, NodeId), Bandwidth>,
    pub congestion_state: CongestionView,
    pub failure_injections: Seq<NetworkFailureView>,
}

impl DeepView for NetworkSimulationState {
    type V = NetworkView;

    open spec fn deep_view(&self) -> NetworkView {
        NetworkView {
            latency_model: self.latency_model,
            packet_loss_rate: self.packet_loss_rate,
            bandwidth_limits: self.bandwidth_limits@,
            congestion_state: self.congestion_state.deep_view(),
            failure_injections: self.failure_injections.deep_view(),
        }
    }
}

impl NetworkSimulationState {
    pub open spec fn wf(self) -> bool {
        self.bandwidth_limits.wf() && self.congestion_state.current_utilization.wf()
    }
}

/// The network before anything has been configured or injected.
pub open spec fn default_network() -> NetworkView {
    NetworkView {
        latency_model: LatencyModel::Constant { latency_ms: DEFAULT_LATENCY_MS },
        packet_loss_rate: Fraction { micros: DEFAULT_PACKET_LOSS_MICROS },
        bandwidth_limits: Map::empty(),
        congestion_state: CongestionView {
            current_utilization: Map::empty(),
            congestion_threshold: Fraction { micros: DEFAULT_CONGESTION_THRESHOLD_MICROS },
            recovery_rate: Fraction { micros: DEFAULT_RECOVERY_RATE_MICROS },
        },
        failure_injections: Seq::empty(),
    }
}

impl Default for NetworkSimulationState {
    fn default() -> (n: Self)
        ensures
            n.wf(),
            n.deep_view() == default_network(),
    {
        let n = NetworkSimulationState {
            latency_model: LatencyModel::Constant { latency_ms: DEFAULT_LATENCY_MS },
            packet_loss_rate: Fraction::from_micros(DEFAULT_PACKET_LOSS_MICROS),
            bandwidth_limits: SortedMap::new(),
            congestion_state: CongestionState::default(),
            failure_injections: Vec::new(),
        };
        assert(n.deep_view().failure_injections =~= Seq::empty());
        n
    }
}

#[derive(Clone, Debug, PartialEq)]
pub enum CoordinationInstruction {
    PrepareAttack { target_slot: Slot },
    ExecuteAttack { strategy: CoalitionAttackType },
    AbortAttack { reason: String },
}

#[verifier::ext_equal]
pub enum CoordinationInstructionView {
    PrepareAttack { target_slot: Slot },
    ExecuteAttack { strategy: CoalitionAttackView },
    AbortAttack { reason: Seq<char> },
}

impl DeepView for CoordinationInstruction {
    type V = CoordinationInstructionView;

    open spec fn deep_view(&self) -> CoordinationInstructionView {
        match self {
            CoordinationInstruction::PrepareAttack { target_slot } => CoordinationInstructionView::PrepareAttack {
                target_slot: *target_slot,
            },
            CoordinationInstruction::ExecuteAttack { strategy } => CoordinationInstructionView::ExecuteAttack {
                strategy: strategy.deep_view(),
            },
            CoordinationInstruction::AbortAttack { reason } => CoordinationInstructionView::AbortAttack {
                reason: reason@,
            },
        }
    }
}

#[derive(Clone, Debug, PartialEq)]
pub enum MessageContent {
    Vote(Vote),
    Certificate(Certificate),
    SkipCertificate(SkipCertificate),
    Gossip { data: Vec<u8> },
    Heartbeat { sequence: u64 },
    CoalitionCoordination { coalition_id: usize, instruction: CoordinationInstruction },
}

#[verifier::ext_equal]
pub enum MessageContentView {
    Vote(Vote),
    Certificate(CertificateView),
    SkipCertificate(SkipCertificateView),
    Gossip { data: Seq<u8> },
    Heartbeat { sequence: u64 },
    CoalitionCoordination { coalition_id: usize, instruction: CoordinationInstructionView },
}

impl DeepView for MessageContent {
    type V = MessageContentView;

    open spec fn deep_view(&self) -> MessageContentView {
        match self {
            MessageContent::Vote(v) => MessageContentView::Vote(*v),
            MessageContent::Certificate(c) => MessageContentView::Certificate(c.deep_view()),
            MessageContent::SkipCertificate(c) => MessageContentView::SkipCertificate(c.deep_view()),
            MessageContent::Gossip { data } => MessageContentView::Gossip { data: data@ },
            MessageContent::Heartbeat { sequence } => MessageContentView::Heartbeat { sequence: *sequence },
            MessageContent::CoalitionCoordination { coalition_id, instruction } =>
                MessageContentView::CoalitionCoordination {
                    coalition_id: *coalition_id,
                    instruction: instruction.deep_view(),
                },
        }
    }
}

/// A message on its way.
#[derive(Clone, Debug, PartialEq)]
pub struct PendingMessage {
    pub id: u64,
    pub from: NodeId,
    pub to: NodeId,
    pub content: MessageContent,
    pub send_time: Timestamp,
    pub scheduled_delivery_time: Timestamp,
    pub priority: MessagePriority,
    pub retry_count: u32,
}

#[verifier::ext_equal]
pub struct PendingMessageView {
    pub id: u64,
    pub from: NodeId,
    pub to: NodeId,
    pub content: MessageContentView,
    pub send_time: Timestamp,
    pub scheduled_delivery_time: Timestamp,
    pub priority: MessagePriority,
    pub retry_count: u32,
}

impl DeepView for PendingMessage {
    type V = PendingMessageView;

    open spec fn deep_view(&self) -> PendingMessageView {
        PendingMessageView {
            id: self.id,
            from: self.from,
            to: self.to,
            content: self.content.deep_view(),
            send_time: self.send_time,
            scheduled_delivery_time: self.scheduled_delivery_time,
            priority: self.priority,
            retry_count: self.retry_count,
        }
    }
}

/// A message that has arrived.
#[derive(Clone, Debug, PartialEq)]
pub struct DeliveredMessage {
    pub id: u64,
    pub from: NodeId,
    pub to: NodeId,
    pub content: MessageContent,
    pub send_time: Timestamp,
    pub delivery_time: Timestamp,
    pub actual_latency: Timestamp,
}

#[verifier::ext_equal]
pub struct DeliveredMessageView {
    pub id: u64,
    pub from: NodeId,
    pub to: NodeId,
    pub content: MessageContentView,
    pub send_time: Timestamp,
    pub delivery_time: Timestamp,
    pub actual_latency: Timestamp,
}

impl DeepView for DeliveredMessage {
    type V = DeliveredMessageView;

    open spec fn deep_view(&self) -> DeliveredMessageView {
        DeliveredMessageView {
            id: self.id,
            from: self.from,
            to: self.to,
            content: self.content.deep_view(),
            send_time: self.send_time,
            delivery_time: self.delivery_time,
            actual_latency: self.actual_latency,
        }
    }
}

#[derive(Clone, Debug, PartialEq)]
pub struct MessageQueue {
    pub pending_messages: Vec<PendingMessage>,
    pub delivered_messages: Vec<DeliveredMessage>,
    pub message_counter: u64,
}

#[verifier::ext_equal]
pub struct MessageQueueView {
    pub pending_messages: Seq<PendingMessageView>,
    pub delivered_messages: Seq<DeliveredMessageView>,
    pub message_counter: u64,
}

impl DeepView for MessageQueue {
    type V = MessageQueueView;

    open spec fn deep_view(&self) -> MessageQueueView {
        MessageQueueView {
            pending_messages: self.pending_messages.deep_view(),
            delivered_messages: self.delivered_messages.deep_view(),
            message_counter: self.message_counter,
        }
    }
}

/// The queue with nothing sent yet.
pub open spec fn empty_queue() -> MessageQueueView {
    MessageQueueView { pending_messages: Seq::empty(), delivered_messages: Seq::empty(), message_counter: 0 }
}

impl Default for MessageQueue {
    fn default() -> (q: Self)
        ensures
            q.deep_view() == empty_queue(),
    {
        let q = MessageQueue {
            pending_messages: Vec::new(),
            delivered_messages: Vec::new(),
            message_counter: 0,
        };
        assert(q.deep_view().pending_messages =~= Seq::empty());
        assert(q.deep_view().delivered_messages =~= Seq::empty());
        q
    }
}

#[derive(Clone, Debug, PartialEq)]
pub enum NetworkAction {
    SendMessage { from: NodeId, to: NodeId, message: crate::types::Message, priority: MessagePriority },
    DeliverMessage { message_id: u64 },
    DropMessage { message_id: u64, reason: String },
    InjectNetworkFailure { failure: NetworkFailure },
    RecoverFromFailure { failure_index: usize },
}

/// The utilisation of the link from `from` to `to`; zero where none is recorded.
pub open spec fn link_utilization(congestion: CongestionView, from: NodeId, to: NodeId) -> Fraction {
    if congestion.current_utilization.contains_key((from, to)) {
        congestion.current_utilization[(from, to)]
    } else {
        Fraction { micros: 0 }
    }
}

/// The distance between two node ids.
pub open spec fn id_distance(from: NodeId, to: NodeId) -> int {
    if from >= to {
        from - to
    } else {
        to - from
    }
}

/// The hash that places a message within the spread of the normal model.
pub open spec fn normal_hash(from: NodeId, to: NodeId, now: Timestamp) -> int {
    (from * 17 + to * 31 + now * 7) % 1000
}

/// The latency of a message from `from` to `to` sent at `now`, before
/// spikes and congestion.
///
/// - Constant: the configured latency.
/// - Uniform: `min + (from + to + now) mod (max - min)`; `min` where the
///   range is empty.
/// - Normal: the floor of `mean + (h / 1000 - 1/2) * 4 * std_dev` with
///   `h = (17 from + 31 to + 7 now) mod 1000`, and at least 1.
/// - Realistic: the floor of `base + |from - to| * distance_factor +
///   utilisation * congestion_multiplier`.
///
/// A result beyond the range of `u64` is cut down to `u64::MAX`.
pub open spec fn base_latency(
    model: LatencyModel,
    utilization: Fraction,
    from: NodeId,
    to: NodeId,
    now: Timestamp,
) -> int {
    match model {
        LatencyModel::Constant { latency_ms } => latency_ms as int,
        LatencyModel::Uniform { min_ms, max_ms } => {
            if max_ms <= min_ms {
                min_ms as int
            } else {
                min_ms + (from + to + now) % (max_ms - min_ms)
            }
        },
        LatencyModel::Normal { mean_ms, std_dev_ms } => {
            let thousandths = mean_ms * 1000 + (4 * normal_hash(from, to, now) - 2000) * std_dev_ms;
            if thousandths < 1000 {
                1
            } else {
                clip(thousandths / 1000)
            }
        },
        LatencyModel::Realistic { base_latency_ms, distance_factor, congestion_multiplier } => {
            clip(
                base_latency_ms + id_distance(from, to) * distance_factor + scaled(
                    congestion_multiplier as int,
                    utilization.micros as int,
                ),
            )
        },
    }
}

/// The latency that `model` gives a message from `from` to `to` at `now`.
pub fn model_latency(model: &LatencyModel, utilization: Fraction, from: NodeId, to: NodeId, now: Timestamp) -> (l: u64)
    ensures
        l == base_latency(*model, utilization, from, to, now),
{
    match model {
        LatencyModel::Constant { latency_ms } => *latency_ms,
        LatencyModel::Uniform { min_ms, max_ms } => {
            if *max_ms <= *min_ms {
                *min_ms
            } else {
                let range: u128 = (*max_ms - *min_ms) as u128;
                let sum: u128 = from as u128 + to as u128 + now as u128;
                let offset: u128 = sum % range;
                *min_ms + offset as u64
            }
        },
        LatencyModel::Normal { mean_ms, std_dev_ms } => {
            let sum: u128 = from as u128 * 17 + to as u128 * 31 + now as u128 * 7;
            let h: u128 = sum % 1000;
            let mean: u128 = *mean_ms as u128 * 1000;
            let dev: u128 = *std_dev_ms as u128;
            let ghost thousandths = *mean_ms * 1000 + (4 * normal_hash(from, to, now) - 2000) * *std_dev_ms;
            assert(h == normal_hash(from, to, now));
            if h >= 500 {
                let k: u128 = 4 * h - 2000;
                assert(k * dev <= 1996 * 0xFFFF_FFFF_FFFF_FFFF) by (nonlinear_arith)
                    requires
                        k <= 1996,
                        dev <= 0xFFFF_FFFF_FFFF_FFFF,
                ;
                let up: u128 = k * dev;
                assert(mean + up == thousandths) by (nonlinear_arith)
                    requires
                        mean == *mean_ms * 1000,
                        up == k * dev,
                        k == 4 * h - 2000,
                        dev == *std_dev_ms,
                        h == normal_hash(from, to, now),
                        thousandths == *mean_ms * 1000 + (4 * normal_hash(from, to, now) - 2000) * *std_dev_ms,
                ;
                let q: u128 = (mean + up) / 1000;
                if mean + up < 1000 {
                    1
                } else if q > u64::MAX as u128 {
                    u64::MAX
                } else {
                    q as u64
                }
            } else {
                let k: u128 = 2000 - 4 * h;
                assert(k * dev <= 2000 * 0xFFFF_FFFF_FFFF_FFFF) by (nonlinear_arith)
                    requires
                        k <= 2000,
                        dev <= 0xFFFF_FFFF_FFFF_FFFF,
                ;
                let down: u128 = k * dev;
                assert(mean - down == thousandths) by (nonlinear_arith)
                    requires
                        mean == *mean_ms * 1000,
                        down == k * dev,
                        k == 2000 - 4 * h,
                        dev == *std_dev_ms,
                        h == normal_hash(from, to, now),
                        thousandths == *mean_ms * 1000 + (4 * normal_hash(from, to, now) - 2000) * *std_dev_ms,
                ;
                if mean < down + 1000 {
                    1
                } else {
                    let q: u128 = (mean - down) / 1000;
                    assert(q <= *mean_ms) by (nonlinear_arith)
                        requires
                            q == (mean - down) / 1000,
                            mean == *mean_ms * 1000,
                            0 <= down <= mean,
                    ;
                    q as u64
                }
            }
        },
        LatencyModel::Realistic { base_latency_ms, distance_factor, congestion_multiplier } => {
            let d: u128 = if from >= to {
                (from - to) as u128
            } else {
                (to - from) as u128
            };
            let df: u128 = *distance_factor as u128;
            let cm: u128 = *congestion_multiplier as u128;
            let u: u128 = utilization.micros as u128;
            assert(d * df <= 0xFFFF_FFFF * 0xFFFF_FFFF_FFFF_FFFF) by (nonlinear_arith)
                requires
                    d <= 0xFFFF_FFFF,
                    df <= 0xFFFF_FFFF_FFFF_FFFF,
            ;
            assert(cm * u <= 0xFFFF_FFFF_FFFF_FFFF * 0xFFFF_FFFF_FFFF_FFFF) by (nonlinear_arith)
                requires
                    cm <= 0xFFFF_FFFF_FFFF_FFFF,
                    u <= 0xFFFF_FFFF_FFFF_FFFF,
            ;
            let total: u128 = *base_latency_ms as u128 + d * df + (cm * u) / 1_000_000;
            if total > u64::MAX as u128 {
                u64::MAX
            } else {
                total as u64
            }
        },
    }
}

/// Whether `failure` is in force at `now`.
pub open spec fn failure_active(failure: NetworkFailureView, now: Timestamp) -> bool {
    failure.start_time <= now && now < failure.start_time + failure.duration
}

/// The hash that decides whether a lossy link drops a message.
pub open spec fn loss_hash(from: NodeId, to: NodeId, now: Timestamp) -> int {
    (from + to + now) % 100
}

/// Whether `failure`, if it is in force, drops a message from `from` to `to`.
pub open spec fn failure_drops(failure: NetworkFailureView, from: NodeId, to: NodeId, now: Timestamp) -> bool {
    failure_active(failure, now) && match failure.failure_type {
        FailureTypeView::LinkFailure { from: f, to: t } => (f == from && t == to) || (f == to && t == from),
        FailureTypeView::NodeIsolation { node } => node == from || node == to,
        FailureTypeView::PacketLoss { loss_rate } => loss_hash(from, to, now) * 10_000 < loss_rate.micros,
        _ => false,
    }
}

/// Whether one of the first `n` failures drops a message from `from` to `to`.
pub open spec fn dropped_by(
    failures: Seq<NetworkFailureView>,
    n: int,
    from: NodeId,
    to: NodeId,
    now: Timestamp,
) -> bool {
    exists|i: int| 0 <= i < n && i < failures.len() && failure_drops(#[trigger] failures[i], from, to, now)
}

/// `latency` after the first `n` failures: each latency spike that is in
/// force multiplies it, in the order of injection, rounding down each time
/// and stopping at `u64::MAX`.
pub open spec fn spiked_latency(failures: Seq<NetworkFailureView>, n: int, latency: int, now: Timestamp) -> int
    decreases n,
{
    if n <= 0 || n > failures.len() {
        latency
    } else {
        let before = spiked_latency(failures, n - 1, latency, now);
        match failures[n - 1].failure_type {
            FailureTypeView::LatencySpike { multiplier } => {
                if failure_active(failures[n - 1], now) {
                    clip(scaled(before, multiplier.micros as int))
                } else {
                    before
                }
            },
            _ => before,
        }
    }
}

/// The delay that congestion adds to a message of `latency`: the floor of
/// `latency` times the link's utilisation where that is above the
/// threshold, nothing otherwise.
pub open spec fn congestion_delay(congestion: CongestionView, from: NodeId, to: NodeId, latency: int) -> int {
    let u = link_utilization(congestion, from, to);
    if u.micros > congestion.congestion_threshold.micros {
        clip(scaled(latency, u.micros as int))
    } else {
        0
    }
}

impl NetworkSimulationState {
    /// The recorded utilisation of a link, zero where there is none.
    pub fn utilization(&self, from: NodeId, to: NodeId) -> (u: Fraction)
        requires
            self.wf(),
        ensures
            u == link_utilization(self.deep_view().congestion_state, from, to),
    {
        match self.congestion_state.current_utilization.get(&(from, to)) {
            Some(u) => *u,
            None => Fraction::zero(),
        }
    }

    /// Whether a failure in force at `now` drops a message from `from` to `to`.
    pub fn drops(&self, from: NodeId, to: NodeId, now: Timestamp) -> (b: bool)
        ensures
            b == dropped_by(
                self.deep_view().failure_injections,
                self.deep_view().failure_injections.len() as int,
                from,
                to,
                now,
            ),
    {
        let ghost failures = self.deep_view().failure_injections;
        let mut i: usize = 0;
        while i < self.failure_injections.len()
            invariant
                i <= self.failure_injections@.len(),
                failures == self.deep_view().failure_injections,
                failures.len() == self.failure_injections@.len(),
                !dropped_by(failures, i as int, from, to, now),
            decreases self.failure_injections@.len() - i,
        {
            let failure = &self.failure_injections[i];
            assert(failures[i as int] == failure.deep_view());
            let active = failure.start_time <= now && (now as u128) < failure.start_time as u128
                + failure.duration as u128;
            let hit = active && match &failure.failure_type {
                FailureType::LinkFailure { from: f, to: t } => (*f == from && *t == to) || (*f == to && *t == from),
                FailureType::NodeIsolation { node } => *node == from || *node == to,
                FailureType::PacketLoss { loss_rate } => {
                    let sum: u128 = from as u128 + to as u128 + now as u128;
                    let h: u128 = sum % 100;
                    h * 10_000 < loss_rate.micros as u128
                },
                _ => false,
            };
            assert(hit == failure_drops(failures[i as int], from, to, now));
            if hit {
                return true;
            }
            i += 1;
        }
        false
    }

    /// `latency` after every latency spike in force at `now`.
    pub fn apply_spikes(&self, latency: u64, now: Timestamp) -> (l: u64)
        ensures
            l == spiked_latency(
                self.deep_view().failure_injections,
                self.deep_view().failure_injections.len() as int,
                latency as int,
                now,
            ),
    {
        let ghost failures = self.deep_view().failure_injections;
        let mut l: u64 = latency;
        let mut i: usize = 0;
        while i < self.failure_injections.len()
            invariant
                i <= self.failure_injections@.len(),
                failures == self.deep_view().failure_injections,
                failures.len() == self.failure_injections@.len(),
                l == spiked_latency(failures, i as int, latency as int, now),
            decreases self.failure_injections@.len() - i,
        {
            let failure = &self.failure_injections[i];
            assert(failures[i as int] == failure.deep_view());
            let active = failure.start_time <= now && (now as u128) < failure.start_time as u128
                + failure.duration as u128;
            match &failure.failure_type {
                FailureType::LatencySpike { multiplier } => {
                    if active {
                        l = multiplier.scale(l);
                    }
                },
                _ => {},
            }
            i += 1;
        }
        l
    }

    /// The delay that congestion adds on the link from `from` to `to`.
    pub fn congestion_delay_for(&self, from: NodeId, to: NodeId, latency: u64) -> (d: u64)
        requires
            self.wf(),
        ensures
            d == congestion_delay(self.deep_view().congestion_state, from, to, latency as int),
    {
        let u = self.utilization(from, to);
        if u.exceeds(&self.congestion_state.congestion_threshold) {
            u.scale(latency)
        } else {
            0
        }
    }
}

impl Duplicate for NetworkFailure {
    open spec fn intact(&self) -> bool {
        true
    }

    fn duplicate(&self) -> (copy: Self) {
        let failure_type = match &self.failure_type {
            FailureType::LinkFailure { from, to } => FailureType::LinkFailure { from: *from, to: *to },
            FailureType::NodeIsolation { node } => FailureType::NodeIsolation { node: *node },
            FailureType::PartialPartition { partition_a, partition_b } => FailureType::PartialPartition {
                partition_a: copy_list(partition_a),
                partition_b: copy_list(partition_b),
            },
            FailureType::PacketLoss { loss_rate } => FailureType::PacketLoss { loss_rate: *loss_rate },
            FailureType::LatencySpike { multiplier } => FailureType::LatencySpike { multiplier: *multiplier },
            FailureType::BandwidthReduction { factor } => FailureType::BandwidthReduction { factor: *factor },
        };
        NetworkFailure {
            failure_type,
            start_time: self.start_time,
            duration: self.duration,
            affected_nodes: copy_list(&self.affected_nodes),
            severity: self.severity,
        }
    }
}

impl Duplicate for MessageContent {
    open spec fn intact(&self) -> bool {
        true
    }

    fn duplicate(&self) -> (copy: Self) {
        match self {
            MessageContent::Vote(v) => MessageContent::Vote(*v),
            MessageContent::Certificate(c) => MessageContent::Certificate(c.duplicate()),
            MessageContent::SkipCertificate(c) => MessageContent::SkipCertificate(c.duplicate()),
            MessageContent::Gossip { data } => MessageContent::Gossip { data: copy_list(data) },
            MessageContent::Heartbeat { sequence } => MessageContent::Heartbeat { sequence: *sequence },
            MessageContent::CoalitionCoordination { coalition_id, instruction } => {
                let instruction = match instruction {
                    CoordinationInstruction::PrepareAttack { target_slot } => CoordinationInstruction::PrepareAttack {
                        target_slot: *target_slot,
                    },
                    CoordinationInstruction::ExecuteAttack { strategy } => CoordinationInstruction::ExecuteAttack {
                        strategy: strategy.clone(),
                    },
                    CoordinationInstruction::AbortAttack { reason } => CoordinationInstruction::AbortAttack {
                        reason: reason.clone(),
                    },
                };
                MessageContent::CoalitionCoordination { coalition_id: *coalition_id, instruction }
            },
        }
    }
}

impl Duplicate for PendingMessage {
    open spec fn intact(&self) -> bool {
        true
    }

    fn duplicate(&self) -> (copy: Self) {
        PendingMessage {
            id: self.id,
            from: self.from,
            to: self.to,
            content: self.content.duplicate(),
            send_time: self.send_time,
            scheduled_delivery_time: self.scheduled_delivery_time,
            priority: self.priority,
            retry_count: self.retry_count,
        }
    }
}

impl Duplicate for DeliveredMessage {
    open spec fn intact(&self) -> bool {
        true
    }

    fn duplicate(&self) -> (copy: Self) {
        DeliveredMessage {
            id: self.id,
            from: self.from,
            to: self.to,
            content: self.content.duplicate(),
            send_time: self.send_time,
            delivery_time: self.delivery_time,
            actual_latency: self.actual_latency,
        }
    }
}

} // verus!
