//! The state of the protocol, its mathematical model, and stake arithmetic.
//!
//! `AlpenglowState` is the executable state. `StateView` is its model: the
//! same data as maps, sets and sequences. Every operation of the library says
//! what it does in terms of the model.

use vstd::prelude::*;
use crate::duplicate::{copy_list, Duplicate};
use crate::byzantine::{ByzantineCoalition, CoalitionState, CoalitionView, NodeStatus, NodeStatusView};
use crate::economics::{
    EconomicError, EconomicState, EconomicView, DEFAULT_REWARD_RATE_MICROS, DEFAULT_SLASHING_RATE_MICROS,
    POOL_PER_NODE,
};
use crate::fraction::Fraction;
use crate::leader::{
    LeaderRotation, RotationView, WindowInfo, WindowView, DEFAULT_FINALITY_DEPTH, DEFAULT_WINDOW_SIZE,
};
use crate::network::{
    default_network, empty_queue, MessageQueue, MessageQueueView, NetworkPartition, NetworkSimulationState,
    NetworkView, PartitionView,
};
use crate::rotor::{ErasureCodedBlock, ErasureCodedBlockView, RelayNode, RelayNodeView};
use crate::sorted_map::{lemma_u32_keys_bound, ordered_keys, SortedMap};
use crate::sorted_set::SortedSet;
use crate::types::{
    BlockId, Certificate, CertificateView, FinalizedBlock, NodeId, SkipCertificate, SkipCertificateView,
    Slot, StakeAmount, TimeoutInfo, Timestamp, Vote,
};

verus! {

/// The last slot of the bounded model.
pub const SLOT_HORIZON: u32 = 5;

/// The ticks of the logical clock that make one slot.
pub const TICKS_PER_SLOT: u64 = 10;

/// The share of the stake that certifies on the fast path, in percent.
pub const FAST_QUORUM_PERCENT: u64 = 80;

/// The share of the stake that certifies on the slow path, in percent.
pub const SLOW_QUORUM_PERCENT: u64 = 60;

/// The share of the stake up to which Byzantine nodes are tolerated, in percent.
pub const BYZANTINE_PERCENT: u64 = 20;

/// The number of timeouts after which a node counts towards a skip.
pub const DEFAULT_TIMEOUT_THRESHOLD: u32 = 3;

#[derive(Clone, Debug, PartialEq)]
pub struct AlpenglowState {
    pub nodes: Vec<NodeId>,
    pub stake_distribution: SortedMap<NodeId, StakeAmount>,
    pub current_slot: Slot,
    pub global_time: Timestamp,
    pub ledger: Vec<FinalizedBlock>,
    pub votes: SortedMap<NodeId, SortedMap<Slot, Vec<Vote>>>,
    pub certificates: SortedMap<Slot, Certificate>,
    pub skip_certs: SortedMap<Slot, SkipCertificate>,
    pub timeouts: SortedMap<NodeId, SortedMap<Slot, TimeoutInfo>>,
    pub status: SortedMap<NodeId, NodeStatus>,
    pub network_partition: Option<NetworkPartition>,
    pub byzantine_coalitions: Vec<ByzantineCoalition>,
    pub coalition_state: SortedMap<usize, CoalitionState>,
    pub network_state: NetworkSimulationState,
    pub message_queue: MessageQueue,
    pub economic_state: EconomicState,
    pub erasure_coded_blocks: SortedMap<BlockId, ErasureCodedBlock>,
    pub relay_assignments: SortedMap<NodeId, RelayNode>,
    /// For each block and chunk, the nodes that hold the chunk.
    pub chunk_availability: SortedMap<(BlockId, u32), SortedSet<NodeId>>,
    pub current_window: WindowInfo,
    pub leader_rotation: LeaderRotation,
    /// When each slot was finalized.
    pub finalization_times: SortedMap<Slot, Timestamp>,
    pub view: u64,
    /// The economic operations that were refused, oldest first.
    pub error_log: Vec<EconomicError>,
}

/// The model of a state.
#[verifier::ext_equal]
pub struct StateView {
    pub nodes: Seq<NodeId>,
    pub stake_distribution: Map<NodeId, StakeAmount>,
    pub current_slot: Slot,
    pub global_time: Timestamp,
    pub ledger: Seq<FinalizedBlock>,
    pub votes: Map<NodeId, Map<Slot, Seq<Vote>>>,
    pub certificates: Map<Slot, CertificateView>,
    pub skip_certs: Map<Slot, SkipCertificateView>,
    pub timeouts: Map<NodeId, Map<Slot, TimeoutInfo>>,
    pub status: Map<NodeId, NodeStatusView>,
    pub network_partition: Option<PartitionView>,
    pub byzantine_coalitions: Seq<CoalitionView>,
    pub coalition_state: Map<usize, CoalitionState>,
    pub network_state: NetworkView,
    pub message_queue: MessageQueueView,
    pub economic_state: EconomicView,
    pub erasure_coded_blocks: Map<BlockId, ErasureCodedBlockView>,
    pub relay_assignments: Map<NodeId, RelayNodeView>,
    pub chunk_availability: Map<(BlockId, u32), Set<NodeId>>,
    pub current_window: WindowView,
    pub leader_rotation: RotationView,
    pub finalization_times: Map<Slot, Timestamp>,
    pub view: u64,
    pub error_log: Seq<EconomicError>,
}

impl DeepView for AlpenglowState {
    type V = StateView;

    open spec fn deep_view(&self) -> StateView {
        StateView {
            nodes: self.nodes@,
            stake_distribution: self.stake_distribution@,
            current_slot: self.current_slot,
            global_time: self.global_time,
            ledger: self.ledger@,
            votes: self.votes.deep_view(),
            certificates: self.certificates.deep_view(),
            skip_certs: self.skip_certs.deep_view(),
            timeouts: self.timeouts.deep_view(),
            status: self.status.deep_view(),
            network_partition: match self.network_partition {
                Some(p) => Some(p.deep_view()),
                None => None,
            },
            byzantine_coalitions: self.byzantine_coalitions.deep_view(),
            coalition_state: self.coalition_state@,
            network_state: self.network_state.deep_view(),
            message_queue: self.message_queue.deep_view(),
            economic_state: self.economic_state.deep_view(),
            erasure_coded_blocks: self.erasure_coded_blocks.deep_view(),
            relay_assignments: self.relay_assignments.deep_view(),
            chunk_availability: self.chunk_availability.deep_view(),
            current_window: self.current_window.deep_view(),
            leader_rotation: self.leader_rotation.deep_view(),
            finalization_times: self.finalization_times@,
            view: self.view,
            error_log: self.error_log@,
        }
    }
}

impl AlpenglowState {
    /// The representation invariant: every map and set of the state keeps
    /// its entries in ascending order. Every state that the library hands
    /// out satisfies it.
    pub open spec fn wf(self) -> bool {
        &&& self.stake_distribution.wf()
        &&& self.votes.wf()
        &&& forall|n: NodeId| self.votes@.contains_key(n) ==> (#[trigger] self.votes@[n]).wf()
        &&& self.certificates.wf()
        &&& self.skip_certs.wf()
        &&& self.timeouts.wf()
        &&& forall|n: NodeId| self.timeouts@.contains_key(n) ==> (#[trigger] self.timeouts@[n]).wf()
        &&& self.status.wf()
        &&& match self.network_partition {
            Some(p) => p.wf(),
            None => true,
        }
        &&& self.coalition_state.wf()
        &&& self.network_state.wf()
        &&& self.economic_state.wf()
        &&& self.erasure_coded_blocks.wf()
        &&& self.relay_assignments.wf()
        &&& self.chunk_availability.wf()
        &&& forall|k: (BlockId, u32)|
            self.chunk_availability@.contains_key(k) ==> (#[trigger] self.chunk_availability@[k]).wf()
        &&& self.finalization_times.wf()
    }
}

/// The sum of the stakes of the first `n` of `keys`.
pub open spec fn stake_sum(stakes: Map<NodeId, StakeAmount>, keys: Seq<NodeId>, n: int) -> int
    decreases n,
{
    if n <= 0 {
        0
    } else {
        stake_sum(stakes, keys, n - 1) + stakes[keys[n - 1]]
    }
}

/// The sum of all stakes.
pub open spec fn total_of(stakes: Map<NodeId, StakeAmount>) -> int {
    stake_sum(stakes, ordered_keys(stakes), ordered_keys(stakes).len() as int)
}

/// The sum of the stakes of those among the first `n` of `keys` whose
/// status is Byzantine (`byzantine` set) or honest (`byzantine` not set).
/// A node without a status counts for neither.
pub open spec fn status_stake_sum(
    stakes: Map<NodeId, StakeAmount>,
    status: Map<NodeId, NodeStatusView>,
    byzantine: bool,
    keys: Seq<NodeId>,
    n: int,
) -> int
    decreases n,
{
    if n <= 0 {
        0
    } else {
        let k = keys[n - 1];
        let counts = status.contains_key(k) && if byzantine {
            status[k] is Byzantine
        } else {
            status[k] is Honest
        };
        status_stake_sum(stakes, status, byzantine, keys, n - 1) + if counts {
            stakes[k] as int
        } else {
            0
        }
    }
}

/// The floor of `percent` hundredths of `total`.
pub open spec fn percent_of(total: int, percent: int) -> int {
    (percent * total) / 100
}

/// The votes and timeouts of a node before anything has happened: the slots of the model.
pub open spec fn in_horizon(slot: Slot) -> bool {
    1 <= slot <= SLOT_HORIZON
}

pub open spec fn fresh_votes() -> Map<Slot, Seq<Vote>> {
    Map::new(|s: Slot| in_horizon(s), |s: Slot| Seq::<Vote>::empty())
}

pub open spec fn fresh_timeout() -> TimeoutInfo {
    TimeoutInfo { count: 0, last_timeout: 0, threshold: DEFAULT_TIMEOUT_THRESHOLD }
}

pub open spec fn fresh_timeouts() -> Map<Slot, TimeoutInfo> {
    Map::new(|s: Slot| in_horizon(s), |s: Slot| fresh_timeout())
}

/// The state in which every execution starts: every node honest, slot 1 at
/// time 0, nothing voted, sent or finalized, the nodes themselves as the
/// first leader schedule.
pub open spec fn initial_state(nodes: Seq<NodeId>, stakes: Map<NodeId, StakeAmount>) -> StateView {
    StateView {
        nodes,
        stake_distribution: stakes,
        current_slot: 1,
        global_time: 0,
        ledger: Seq::empty(),
        votes: Map::new(|n: NodeId| nodes.contains(n), |n: NodeId| fresh_votes()),
        certificates: Map::empty(),
        skip_certs: Map::empty(),
        timeouts: Map::new(|n: NodeId| nodes.contains(n), |n: NodeId| fresh_timeouts()),
        status: Map::new(|n: NodeId| nodes.contains(n), |n: NodeId| NodeStatusView::Honest),
        network_partition: None,
        byzantine_coalitions: Seq::empty(),
        coalition_state: Map::empty(),
        network_state: default_network(),
        message_queue: empty_queue(),
        economic_state: EconomicView {
            rewards_pool: (nodes.len() * POOL_PER_NODE) as u64,
            total_slashed: 0,
            validator_balances: stakes,
            pending_rewards: Map::empty(),
            slashing_evidence: Seq::empty(),
            reward_rate: Fraction { micros: DEFAULT_REWARD_RATE_MICROS },
            slashing_rate: Fraction { micros: DEFAULT_SLASHING_RATE_MICROS },
        },
        erasure_coded_blocks: Map::empty(),
        relay_assignments: Map::empty(),
        chunk_availability: Map::empty(),
        current_window: WindowView {
            window_start: 1,
            window_size: DEFAULT_WINDOW_SIZE,
            finality_depth: DEFAULT_FINALITY_DEPTH,
            leader_schedule: nodes,
        },
        leader_rotation: RotationView {
            current_leader: nodes[0],
            current_slot: 1,
            rotation_interval: 1,
            leader_history: seq![(1u32, nodes[0])],
        },
        finalization_times: Map::empty(),
        view: 0,
        error_log: Seq::empty(),
    }
}

impl StateView {
    /// The sum of all stakes.
    pub open spec fn total_stake(self) -> int {
        total_of(self.stake_distribution)
    }

    /// The stake that certifies on the fast path.
    pub open spec fn fast_quorum(self) -> int {
        percent_of(self.total_stake(), FAST_QUORUM_PERCENT as int)
    }

    /// The stake that certifies on the slow path.
    pub open spec fn slow_quorum(self) -> int {
        percent_of(self.total_stake(), SLOW_QUORUM_PERCENT as int)
    }

    /// The Byzantine stake up to which safety is promised.
    pub open spec fn byzantine_threshold(self) -> int {
        percent_of(self.total_stake(), BYZANTINE_PERCENT as int)
    }

    /// The stake of the honest nodes.
    pub open spec fn honest_stake(self) -> int {
        status_stake_sum(
            self.stake_distribution,
            self.status,
            false,
            ordered_keys(self.stake_distribution),
            ordered_keys(self.stake_distribution).len() as int,
        )
    }

    /// The stake of the Byzantine nodes.
    pub open spec fn byzantine_stake(self) -> int {
        status_stake_sum(
            self.stake_distribution,
            self.status,
            true,
            ordered_keys(self.stake_distribution),
            ordered_keys(self.stake_distribution).len() as int,
        )
    }

    /// Whether a partition is in force.
    pub open spec fn partitioned(self) -> bool {
        self.network_partition is Some
    }

    /// Whether two nodes can reach each other: always without a partition,
    /// else where both are on the same side of it.
    pub open spec fn can_communicate(self, a: NodeId, b: NodeId) -> bool {
        match self.network_partition {
            None => true,
            Some(p) => (p.partition_a.contains(a) && p.partition_a.contains(b)) || (p.partition_b.contains(a)
                && p.partition_b.contains(b)),
        }
    }

    /// The stake of `node`, zero where it has none recorded.
    pub open spec fn stake_of(self, node: NodeId) -> StakeAmount {
        if self.stake_distribution.contains_key(node) {
            self.stake_distribution[node]
        } else {
            0
        }
    }
}

/// A partial sum of stakes is below `n` times the largest stake.
pub proof fn lemma_stake_sum_bound(stakes: Map<NodeId, StakeAmount>, keys: Seq<NodeId>, n: int)
    requires
        0 <= n,
    ensures
        0 <= stake_sum(stakes, keys, n) <= n * u64::MAX,
    decreases n,
{
    if n > 0 {
        lemma_stake_sum_bound(stakes, keys, n - 1);
        assert((n - 1) * u64::MAX + u64::MAX == n * u64::MAX) by (nonlinear_arith);
    }
}

/// A filtered sum of stakes is at most the full sum.
pub proof fn lemma_status_stake_bound(
    stakes: Map<NodeId, StakeAmount>,
    status: Map<NodeId, NodeStatusView>,
    byzantine: bool,
    keys: Seq<NodeId>,
    n: int,
)
    requires
        0 <= n,
    ensures
        0 <= status_stake_sum(stakes, status, byzantine, keys, n) <= stake_sum(stakes, keys, n),
    decreases n,
{
    if n > 0 {
        lemma_status_stake_bound(stakes, status, byzantine, keys, n - 1);
    }
}

/// The sum of the values of `m`, at full width.
pub fn map_total(m: &SortedMap<NodeId, StakeAmount>) -> (t: u128)
    requires
        m.wf(),
    ensures
        t == total_of(m@),
        t <= 0x1_0000_0000 * u64::MAX,
{
    let ghost stakes = m@;
    let ghost keys = m.key_seq();
    proof {
        m.lemma_ordered_keys();
        m.lemma_entries();
    }
    let n = m.len();
    proof {
        if n > 0 {
            lemma_u32_keys_bound(keys, n - 1);
        }
        lemma_stake_sum_bound(stakes, keys, n as int);
        assert(n * u64::MAX <= 0x1_0000_0000 * u64::MAX) by (nonlinear_arith)
            requires
                n <= 0x1_0000_0000,
        ;
    }
    let mut acc: u128 = 0;
    let mut i: usize = 0;
    while i < n
        invariant
            i <= n,
            n == keys.len(),
            m.wf(),
            keys == m.key_seq(),
            stakes == m@,
            acc == stake_sum(stakes, keys, i as int),
            n <= 0x1_0000_0000,
        decreases n - i,
    {
        let v = *m.value_at(i);
        proof {
            lemma_stake_sum_bound(stakes, keys, i as int);
            assert(i * u64::MAX + u64::MAX <= 0x1_0000_0000 * u64::MAX) by (nonlinear_arith)
                requires
                    i < 0x1_0000_0000,
            ;
        }
        acc = acc + v as u128;
        i += 1;
    }
    acc
}

/// A prefix of a sequence, grown by one, holds what it held and the new entry.
pub proof fn lemma_prefix_contains<T>(s: Seq<T>, i: int)
    requires
        0 <= i < s.len(),
    ensures
        forall|x: T| #[trigger]
            s.subrange(0, i + 1).contains(x) <==> (s.subrange(0, i).contains(x) || x == s[i]),
{
    let before = s.subrange(0, i);
    let after = s.subrange(0, i + 1);
    assert forall|x: T| #[trigger] after.contains(x) <==> (before.contains(x) || x == s[i]) by {
        if before.contains(x) {
            let j = choose|j: int| 0 <= j < before.len() && before[j] == x;
            assert(after[j] == x);
        }
        if x == s[i] {
            assert(after[i] == x);
        }
        if after.contains(x) {
            let j = choose|j: int| 0 <= j < after.len() && after[j] == x;
            if j < i {
                assert(before[j] == x);
            }
        }
    }
}

/// A copy of a list of ids.
pub fn copy_ids(list: &Vec<u32>) -> (out: Vec<u32>)
    ensures
        out@ == list@,
{
    let mut out: Vec<u32> = Vec::new();
    let mut i: usize = 0;
    while i < list.len()
        invariant
            i <= list@.len(),
            out@ == list@.subrange(0, i as int),
        decreases list@.len() - i,
    {
        out.push(list[i]);
        i += 1;
        assert(out@ =~= list@.subrange(0, i as int));
    }
    assert(out@ =~= list@);
    out
}

/// An empty vote list for each slot of the model.
fn fresh_vote_slots() -> (m: SortedMap<Slot, Vec<Vote>>)
    ensures
        m.wf(),
        m.deep_view() == fresh_votes(),
{
    let mut m: SortedMap<Slot, Vec<Vote>> = SortedMap::new();
    let mut slot: u32 = 1;
    while slot <= SLOT_HORIZON
        invariant
            1 <= slot <= SLOT_HORIZON + 1,
            m.wf(),
            forall|s: Slot| m@.contains_key(s) <==> 1 <= s < slot,
            forall|s: Slot| m@.contains_key(s) ==> (#[trigger] m@[s])@ == Seq::<Vote>::empty(),
        decreases SLOT_HORIZON + 1 - slot,
    {
        m.insert(slot, Vec::new());
        slot += 1;
    }
    assert(m.deep_view() =~~= fresh_votes());
    m
}

/// A timeout record with no timeouts for each slot of the model.
fn fresh_timeout_slots() -> (m: SortedMap<Slot, TimeoutInfo>)
    ensures
        m.wf(),
        m.deep_view() == fresh_timeouts(),
{
    let mut m: SortedMap<Slot, TimeoutInfo> = SortedMap::new();
    let mut slot: u32 = 1;
    while slot <= SLOT_HORIZON
        invariant
            1 <= slot <= SLOT_HORIZON + 1,
            m.wf(),
            forall|s: Slot| m@.contains_key(s) <==> 1 <= s < slot,
            forall|s: Slot| m@.contains_key(s) ==> #[trigger] m@[s] == fresh_timeout(),
        decreases SLOT_HORIZON + 1 - slot,
    {
        m.insert(slot, TimeoutInfo { count: 0, last_timeout: 0, threshold: DEFAULT_TIMEOUT_THRESHOLD });
        slot += 1;
    }
    assert(m.deep_view() =~~= fresh_timeouts());
    m
}

impl AlpenglowState {
    /// The state in which every execution starts.
    ///
    /// The first node is the first leader, so there must be one; and the
    /// reward pool, `POOL_PER_NODE` for each node, must fit its type.
    pub fn new(nodes: Vec<NodeId>, stake_distribution: SortedMap<NodeId, StakeAmount>) -> (s: Self)
        requires
            nodes@.len() > 0,
            nodes@.len() * POOL_PER_NODE <= u64::MAX,
            stake_distribution.wf(),
        ensures
            s.wf(),
            s.deep_view() == initial_state(nodes@, stake_distribution@),
    {
        let mut votes: SortedMap<NodeId, SortedMap<Slot, Vec<Vote>>> = SortedMap::new();
        let mut timeouts: SortedMap<NodeId, SortedMap<Slot, TimeoutInfo>> = SortedMap::new();
        let mut status: SortedMap<NodeId, NodeStatus> = SortedMap::new();
        let mut i: usize = 0;
        while i < nodes.len()
            invariant
                i <= nodes@.len(),
                votes.wf(),
                timeouts.wf(),
                status.wf(),
                forall|n: NodeId| votes@.contains_key(n) <==> nodes@.subrange(0, i as int).contains(n),
                forall|n: NodeId| timeouts@.contains_key(n) <==> nodes@.subrange(0, i as int).contains(n),
                forall|n: NodeId| status@.contains_key(n) <==> nodes@.subrange(0, i as int).contains(n),
                forall|n: NodeId|
                    votes@.contains_key(n) ==> (#[trigger] votes@[n]).wf() && votes@[n].deep_view()
                        == fresh_votes(),
                forall|n: NodeId|
                    timeouts@.contains_key(n) ==> (#[trigger] timeouts@[n]).wf() && timeouts@[n].deep_view()
                        == fresh_timeouts(),
                forall|n: NodeId| status@.contains_key(n) ==> #[trigger] status@[n] == NodeStatus::Honest,
            decreases nodes@.len() - i,
        {
            let node = nodes[i];
            votes.insert(node, fresh_vote_slots());
            timeouts.insert(node, fresh_timeout_slots());
            status.insert(node, NodeStatus::Honest);
            proof {
                let before = nodes@.subrange(0, i as int);
                let after = nodes@.subrange(0, i + 1);
                assert(after =~= before.push(node));
                assert forall|n: NodeId| after.contains(n) <==> (before.contains(n) || n == node) by {
                    if before.contains(n) {
                        let j = choose|j: int| 0 <= j < before.len() && before[j] == n;
                        assert(after[j] == n);
                    }
                    if n == node {
                        assert(after[i as int] == n);
                    }
                    if after.contains(n) {
                        let j = choose|j: int| 0 <= j < after.len() && after[j] == n;
                        if j < i {
                            assert(before[j] == n);
                        }
                    }
                }
            }
            i += 1;
        }
        assert(nodes@.subrange(0, i as int) =~= nodes@);
        let first = nodes[0];
        let pool: u64 = (nodes.len() as u64) * POOL_PER_NODE;
        let schedule = copy_ids(&nodes);
        let balances = stake_distribution.copied();
        let mut history: Vec<(Slot, NodeId)> = Vec::new();
        history.push((1, first));
        let s = AlpenglowState {
            nodes,
            stake_distribution,
            current_slot: 1,
            global_time: 0,
            ledger: Vec::new(),
            votes,
            certificates: SortedMap::new(),
            skip_certs: SortedMap::new(),
            timeouts,
            status,
            network_partition: None,
            byzantine_coalitions: Vec::new(),
            coalition_state: SortedMap::new(),
            network_state: NetworkSimulationState::default(),
            message_queue: MessageQueue::default(),
            economic_state: EconomicState {
                rewards_pool: pool,
                total_slashed: 0,
                validator_balances: balances,
                pending_rewards: SortedMap::new(),
                slashing_evidence: Vec::new(),
                reward_rate: Fraction::from_micros(DEFAULT_REWARD_RATE_MICROS),
                slashing_rate: Fraction::from_micros(DEFAULT_SLASHING_RATE_MICROS),
            },
            erasure_coded_blocks: SortedMap::new(),
            relay_assignments: SortedMap::new(),
            chunk_availability: SortedMap::new(),
            current_window: WindowInfo {
                window_start: 1,
                window_size: DEFAULT_WINDOW_SIZE,
                finality_depth: DEFAULT_FINALITY_DEPTH,
                leader_schedule: schedule,
            },
            leader_rotation: LeaderRotation {
                current_leader: first,
                current_slot: 1,
                rotation_interval: 1,
                leader_history: history,
            },
            finalization_times: SortedMap::new(),
            view: 0,
            error_log: Vec::new(),
        };
        proof {
            let model = initial_state(s.nodes@, s.stake_distribution@);
            let v = s.deep_view();
            assert(v.votes =~~= model.votes);
            assert(v.timeouts =~~= model.timeouts);
            assert(v.status =~~= model.status);
            assert(v.certificates =~~= model.certificates);
            assert(v.skip_certs =~~= model.skip_certs);
            assert(v.byzantine_coalitions =~~= model.byzantine_coalitions);
            assert(v.economic_state =~~= model.economic_state);
            assert(v.erasure_coded_blocks =~~= model.erasure_coded_blocks);
            assert(v.relay_assignments =~~= model.relay_assignments);
            assert(v.chunk_availability =~~= model.chunk_availability);
            assert(v.leader_rotation =~~= model.leader_rotation);
            assert(v.ledger =~~= model.ledger);
            assert(v =~~= model);
        }
        s
    }

    /// The sum of all stakes, at full width.
    pub fn total_stake_wide(&self) -> (t: u128)
        requires
            self.stake_distribution.wf(),
        ensures
            t == self.deep_view().total_stake(),
            t <= 0x1_0000_0000 * u64::MAX,
    {
        map_total(&self.stake_distribution)
    }

    /// The stake of the nodes whose status is Byzantine (`byzantine` set) or
    /// honest (`byzantine` not set), at full width.
    pub fn status_stake_wide(&self, byzantine: bool) -> (t: u128)
        requires
            self.stake_distribution.wf(),
            self.status.wf(),
        ensures
            t == if byzantine {
                self.deep_view().byzantine_stake()
            } else {
                self.deep_view().honest_stake()
            },
            t <= self.deep_view().total_stake(),
    {
        let ghost stakes = self.stake_distribution@;
        let ghost status = self.status.deep_view();
        let ghost keys = self.stake_distribution.key_seq();
        proof {
            self.stake_distribution.lemma_ordered_keys();
            self.stake_distribution.lemma_entries();
        }
        let n = self.stake_distribution.len();
        proof {
            if n > 0 {
                lemma_u32_keys_bound(keys, n - 1);
            }
            lemma_status_stake_bound(stakes, status, byzantine, keys, n as int);
        }
        let mut acc: u128 = 0;
        let mut i: usize = 0;
        while i < n
            invariant
                i <= n,
                n == keys.len(),
                self.stake_distribution.wf(),
                self.status.wf(),
                keys == self.stake_distribution.key_seq(),
                stakes == self.stake_distribution@,
                status == self.status.deep_view(),
                acc == status_stake_sum(stakes, status, byzantine, keys, i as int),
                n <= 0x1_0000_0000,
            decreases n - i,
        {
            let k = self.stake_distribution.key_at(i);
            let v = *self.stake_distribution.value_at(i);
            let counts = match self.status.get(&k) {
                Some(st) => if byzantine {
                    st.is_byzantine()
                } else {
                    st.is_honest()
                },
                None => false,
            };
            proof {
                lemma_status_stake_bound(stakes, status, byzantine, keys, i as int);
                lemma_stake_sum_bound(stakes, keys, i as int);
                assert(i * u64::MAX + u64::MAX <= 0x1_0000_0000 * u64::MAX) by (nonlinear_arith)
                    requires
                        i < 0x1_0000_0000,
                ;
            }
            if counts {
                acc = acc + v as u128;
            }
            i += 1;
        }
        acc
    }

    /// The floor of `percent` hundredths of the total stake, at full width.
    pub fn quorum_wide(&self, percent: u64) -> (q: u128)
        requires
            self.stake_distribution.wf(),
            percent <= 100,
        ensures
            q == percent_of(self.deep_view().total_stake(), percent as int),
            q <= self.deep_view().total_stake(),
    {
        let total = self.total_stake_wide();
        assert(percent * total <= 100 * (0x1_0000_0000 * u64::MAX)) by (nonlinear_arith)
            requires
                percent <= 100,
                total <= 0x1_0000_0000 * u64::MAX,
        ;
        let q: u128 = (percent as u128 * total) / 100;
        assert(q <= total) by (nonlinear_arith)
            requires
                q == (percent * total) / 100,
                percent <= 100,
                0 <= total,
        ;
        q
    }

    /// The sum of all stakes.
    pub fn total_stake(&self) -> (t: StakeAmount)
        requires
            self.stake_distribution.wf(),
            self.deep_view().total_stake() <= u64::MAX,
        ensures
            t == self.deep_view().total_stake(),
    {
        self.total_stake_wide() as u64
    }

    /// The stake that certifies on the fast path: 80% of the total, rounded down.
    pub fn fast_quorum_stake(&self) -> (q: StakeAmount)
        requires
            self.stake_distribution.wf(),
            self.deep_view().total_stake() <= u64::MAX,
        ensures
            q == self.deep_view().fast_quorum(),
    {
        self.quorum_wide(FAST_QUORUM_PERCENT) as u64
    }

    /// The stake that certifies on the slow path: 60% of the total, rounded down.
    pub fn slow_quorum_stake(&self) -> (q: StakeAmount)
        requires
            self.stake_distribution.wf(),
            self.deep_view().total_stake() <= u64::MAX,
        ensures
            q == self.deep_view().slow_quorum(),
    {
        self.quorum_wide(SLOW_QUORUM_PERCENT) as u64
    }

    /// The Byzantine stake up to which safety is promised: 20% of the total, rounded down.
    pub fn byzantine_threshold_stake(&self) -> (q: StakeAmount)
        requires
            self.stake_distribution.wf(),
            self.deep_view().total_stake() <= u64::MAX,
        ensures
            q == self.deep_view().byzantine_threshold(),
    {
        self.quorum_wide(BYZANTINE_PERCENT) as u64
    }

    /// The stake of the honest nodes.
    pub fn honest_stake(&self) -> (t: StakeAmount)
        requires
            self.stake_distribution.wf(),
            self.status.wf(),
            self.deep_view().total_stake() <= u64::MAX,
        ensures
            t == self.deep_view().honest_stake(),
    {
        self.status_stake_wide(false) as u64
    }

    /// The stake of the Byzantine nodes.
    pub fn byzantine_stake(&self) -> (t: StakeAmount)
        requires
            self.stake_distribution.wf(),
            self.status.wf(),
            self.deep_view().total_stake() <= u64::MAX,
        ensures
            t == self.deep_view().byzantine_stake(),
    {
        self.status_stake_wide(true) as u64
    }

    /// The stake of `node`, zero where it has none recorded.
    pub fn stake_of(&self, node: NodeId) -> (t: StakeAmount)
        requires
            self.stake_distribution.wf(),
        ensures
            t == self.deep_view().stake_of(node),
    {
        match self.stake_distribution.get(&node) {
            Some(v) => *v,
            None => 0,
        }
    }

    /// Whether a partition is in force.
    pub fn is_network_partitioned(&self) -> (b: bool)
        ensures
            b == self.deep_view().partitioned(),
    {
        self.network_partition.is_some()
    }

    /// Whether two nodes can reach each other.
    pub fn can_node_communicate(&self, node1: NodeId, node2: NodeId) -> (b: bool)
        requires
            match self.network_partition {
                Some(p) => p.wf(),
                None => true,
            },
        ensures
            b == self.deep_view().can_communicate(node1, node2),
    {
        match &self.network_partition {
            None => true,
            Some(partition) => {
                (partition.partition_a.contains(&node1) && partition.partition_a.contains(&node2)) || (
                partition.partition_b.contains(&node1) && partition.partition_b.contains(&node2))
            },
        }
    }
}

/// A map of vote lists that keeps its order is intact.
pub proof fn lemma_vote_lists_intact(lists: SortedMap<Slot, Vec<Vote>>)
    requires
        lists.wf(),
    ensures
        lists.intact(),
{
    assert forall|i: int| 0 <= i < lists.val_seq().len() implies (#[trigger] lists.val_seq()[i]).intact() by {
        let list = lists.val_seq()[i];
        assert forall|j: int| 0 <= j < list@.len() implies (#[trigger] list@[j]).intact() by {}
    }
}

impl Duplicate for AlpenglowState {
    open spec fn intact(&self) -> bool {
        self.wf()
    }

    fn duplicate(&self) -> (copy: Self) {
        proof {
            self.votes.lemma_intact();
            assert forall|n: NodeId| self.votes@.contains_key(n) implies (#[trigger] self.votes@[n]).intact() by {
                lemma_vote_lists_intact(self.votes@[n]);
            }
            self.timeouts.lemma_intact();
            assert forall|n: NodeId| self.timeouts@.contains_key(n) implies (#[trigger] self.timeouts@[n]).intact() by {
                let inner = self.timeouts@[n];
                assert forall|i: int| 0 <= i < inner.val_seq().len() implies (#[trigger] inner.val_seq()[i]).intact() by {}
            }
            self.chunk_availability.lemma_intact();
            assert(self.certificates.intact());
            assert(self.skip_certs.intact());
            assert(self.status.intact());
            assert(self.erasure_coded_blocks.intact());
            assert(self.relay_assignments.intact());
            assert(self.byzantine_coalitions.intact()) by {
                assert forall|i: int| 0 <= i < self.byzantine_coalitions@.len() implies (
                #[trigger] self.byzantine_coalitions@[i]).intact() by {}
            }
            assert(self.network_state.failure_injections.intact()) by {
                assert forall|i: int| 0 <= i < self.network_state.failure_injections@.len() implies (
                #[trigger] self.network_state.failure_injections@[i]).intact() by {}
            }
            assert(self.message_queue.pending_messages.intact()) by {
                assert forall|i: int| 0 <= i < self.message_queue.pending_messages@.len() implies (
                #[trigger] self.message_queue.pending_messages@[i]).intact() by {}
            }
            assert(self.message_queue.delivered_messages.intact()) by {
                assert forall|i: int| 0 <= i < self.message_queue.delivered_messages@.len() implies (
                #[trigger] self.message_queue.delivered_messages@[i]).intact() by {}
            }
            assert(self.economic_state.slashing_evidence.intact()) by {
                assert forall|i: int| 0 <= i < self.economic_state.slashing_evidence@.len() implies (
                #[trigger] self.economic_state.slashing_evidence@[i]).intact() by {}
            }
        }
        let network_partition = match &self.network_partition {
            Some(p) => Some(
                NetworkPartition {
                    partition_a: p.partition_a.copied(),
                    partition_b: p.partition_b.copied(),
                    started_at: p.started_at,
                },
            ),
            None => None,
        };
        let copy = AlpenglowState {
            nodes: copy_list(&self.nodes),
            stake_distribution: self.stake_distribution.copied(),
            current_slot: self.current_slot,
            global_time: self.global_time,
            ledger: copy_list(&self.ledger),
            votes: self.votes.duplicate(),
            certificates: self.certificates.duplicate(),
            skip_certs: self.skip_certs.duplicate(),
            timeouts: self.timeouts.duplicate(),
            status: self.status.duplicate(),
            network_partition,
            byzantine_coalitions: self.byzantine_coalitions.duplicate(),
            coalition_state: self.coalition_state.copied(),
            network_state: NetworkSimulationState {
                latency_model: self.network_state.latency_model,
                packet_loss_rate: self.network_state.packet_loss_rate,
                bandwidth_limits: self.network_state.bandwidth_limits.copied(),
                congestion_state: crate::network::CongestionState {
                    current_utilization: self.network_state.congestion_state.current_utilization.copied(),
                    congestion_threshold: self.network_state.congestion_state.congestion_threshold,
                    recovery_rate: self.network_state.congestion_state.recovery_rate,
                },
                failure_injections: self.network_state.failure_injections.duplicate(),
            },
            message_queue: MessageQueue {
                pending_messages: self.message_queue.pending_messages.duplicate(),
                delivered_messages: self.message_queue.delivered_messages.duplicate(),
                message_counter: self.message_queue.message_counter,
            },
            economic_state: EconomicState {
                rewards_pool: self.economic_state.rewards_pool,
                total_slashed: self.economic_state.total_slashed,
                validator_balances: self.economic_state.validator_balances.copied(),
                pending_rewards: self.economic_state.pending_rewards.copied(),
                slashing_evidence: self.economic_state.slashing_evidence.duplicate(),
                reward_rate: self.economic_state.reward_rate,
                slashing_rate: self.economic_state.slashing_rate,
            },
            erasure_coded_blocks: self.erasure_coded_blocks.duplicate(),
            relay_assignments: self.relay_assignments.duplicate(),
            chunk_availability: self.chunk_availability.duplicate(),
            current_window: WindowInfo {
                window_start: self.current_window.window_start,
                window_size: self.current_window.window_size,
                finality_depth: self.current_window.finality_depth,
                leader_schedule: copy_list(&self.current_window.leader_schedule),
            },
            leader_rotation: LeaderRotation {
                current_leader: self.leader_rotation.current_leader,
                current_slot: self.leader_rotation.current_slot,
                rotation_interval: self.leader_rotation.rotation_interval,
                leader_history: copy_list(&self.leader_rotation.leader_history),
            },
            finalization_times: self.finalization_times.copied(),
            view: self.view,
            error_log: copy_list(&self.error_log),
        };
        proof {
            copy.votes.lemma_intact();
            copy.timeouts.lemma_intact();
            copy.chunk_availability.lemma_intact();
            assert(copy.wf());
            assert(copy.deep_view() =~= self.deep_view());
        }
        copy
    }
}

} // verus!
