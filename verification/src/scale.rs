//! Large networks: building a state from a list of validators, and the
//! compact form of a state, by which an exploration tells apart the states it has seen.

use std::collections::hash_map::DefaultHasher;
use std::hash::Hasher;
use vstd::bytes::{spec_u64_to_le_bytes, u64_to_le_bytes};
use vstd::prelude::*;
use vstd::std_specs::hash::DefaultHasherAdditionalSpecFns;
use vstd::string::StringExecFns;
use crate::byzantine::{
    ByzantineCoalition, ByzantineStrategy, CoalitionAttackType, CoalitionAttackView, CoalitionView, NodeStatus,
    NodeStatusView, StrategyView,
};
use crate::network::LatencyModel;
use crate::sorted_map::{lemma_deep_insert, SortedMap};
use crate::state::{initial_state, AlpenglowState, StateView};
use crate::text::{is_numbered, numbered};
use crate::treasury::amount_at;
use crate::types::{Node, NodeId, Slot, StakeAmount, Timestamp};

verus! {

/// The ids of `nodes`, in their order.
pub open spec fn node_ids(nodes: Seq<Node>) -> Seq<NodeId> {
    nodes.map_values(|n: Node| n.id)
}

/// The stakes of the first `n` of `nodes`, each under its id, later ones over earlier ones.
pub open spec fn node_stakes(nodes: Seq<Node>, n: int) -> Map<NodeId, StakeAmount>
    decreases n,
{
    if n <= 0 {
        Map::empty()
    } else {
        node_stakes(nodes, n - 1).insert(nodes[n - 1].id, nodes[n - 1].stake)
    }
}

/// The ids of the Byzantine ones among the first `n` of `nodes`, in their order.
pub open spec fn byzantine_ids(nodes: Seq<Node>, n: int) -> Seq<NodeId>
    decreases n,
{
    if n <= 0 {
        Seq::empty()
    } else if nodes[n - 1].is_byzantine {
        byzantine_ids(nodes, n - 1).push(nodes[n - 1].id)
    } else {
        byzantine_ids(nodes, n - 1)
    }
}

/// Whether one of the first `n` of `nodes` has the id `id` and is Byzantine.
pub open spec fn marked_byzantine(nodes: Seq<Node>, n: int, id: NodeId) -> bool {
    exists|i: int| 0 <= i < n && i < nodes.len() && (#[trigger] nodes[i]).id == id && nodes[i].is_byzantine
}

/// The sum of what `stakes` holds for the first `n` of `ids`.
pub open spec fn listed_stake(stakes: Map<NodeId, StakeAmount>, ids: Seq<NodeId>, n: int) -> int
    decreases n,
{
    if n <= 0 {
        0
    } else {
        listed_stake(stakes, ids, n - 1) + amount_at(stakes, ids[n - 1])
    }
}

/// The state of a network of `nodes`: the initial state of their ids and
/// stakes, with the Byzantine ones marked as such and joined in one
/// coalition, whose stake is what `stake_map` holds for them.
pub open spec fn network_of(nodes: Seq<Node>, stake_map: Map<NodeId, StakeAmount>) -> StateView {
    let ids = node_ids(nodes);
    let members = byzantine_ids(nodes, nodes.len() as int);
    StateView {
        byzantine_coalitions: if members.len() == 0 {
            Seq::empty()
        } else {
            seq![
                CoalitionView {
                    members,
                    strategy: CoalitionAttackView::SplitVote { target_blocks: Seq::empty() },
                    coordination_history: Seq::empty(),
                    total_stake: listed_stake(stake_map, members, members.len() as int) as u64,
                    formation_time: 0,
                },
            ]
        },
        status: Map::new(
            |n: NodeId| ids.contains(n),
            |n: NodeId|
                if marked_byzantine(nodes, nodes.len() as int, n) {
                    NodeStatusView::Byzantine(StrategyView::Equivocation)
                } else {
                    NodeStatusView::Honest
                },
        ),
        ..initial_state(ids, node_stakes(nodes, nodes.len() as int))
    }
}

/// A partial sum of listed stakes is below `n` times the largest stake.
pub proof fn lemma_listed_stake_bound(stakes: Map<NodeId, StakeAmount>, ids: Seq<NodeId>, n: int)
    requires
        0 <= n,
    ensures
        0 <= listed_stake(stakes, ids, n) <= n * u64::MAX,
    decreases n,
{
    if n > 0 {
        lemma_listed_stake_bound(stakes, ids, n - 1);
        assert((n - 1) * u64::MAX + u64::MAX == n * u64::MAX) by (nonlinear_arith);
    }
}

/// The sum of what `stakes` holds for `ids`.
fn sum_listed(stakes: &SortedMap<NodeId, StakeAmount>, ids: &Vec<NodeId>) -> (t: u128)
    requires
        stakes.wf(),
    ensures
        t == listed_stake(stakes@, ids@, ids@.len() as int),
{
    let mut acc: u128 = 0;
    let mut i: usize = 0;
    while i < ids.len()
        invariant
            i <= ids@.len(),
            stakes.wf(),
            acc == listed_stake(stakes@, ids@, i as int),
        decreases ids@.len() - i,
    {
        proof {
            lemma_listed_stake_bound(stakes@, ids@, i as int);
            assert(i * u64::MAX + u64::MAX <= 0xFFFF_FFFF_FFFF_FFFF * 0x1_0000_0000_0000_0000) by (nonlinear_arith)
                requires
                    i < 0xFFFF_FFFF_FFFF_FFFF,
            ;
        }
        let v: u64 = match stakes.get(&ids[i]) {
            Some(v) => *v,
            None => 0,
        };
        acc = acc + v as u128;
        i += 1;
    }
    acc
}

impl AlpenglowState {
    /// The state of a network of `nodes`.
    ///
    /// There must be a node, the reward pool must fit its type, and so
    /// must the stake of the coalition of the Byzantine nodes.
    pub fn new_with_nodes(nodes: Vec<Node>, stake_map: SortedMap<NodeId, StakeAmount>) -> (s: Self)
        requires
            nodes@.len() > 0,
            nodes@.len() * crate::economics::POOL_PER_NODE <= u64::MAX,
            stake_map.wf(),
            listed_stake(
                stake_map@,
                byzantine_ids(nodes@, nodes@.len() as int),
                byzantine_ids(nodes@, nodes@.len() as int).len() as int,
            ) <= u64::MAX,
        ensures
            s.wf(),
            s.deep_view() == network_of(nodes@, stake_map@),
    {
        let mut ids: Vec<NodeId> = Vec::new();
        let mut stakes: SortedMap<NodeId, StakeAmount> = SortedMap::new();
        let mut members: Vec<NodeId> = Vec::new();
        let mut i: usize = 0;
        while i < nodes.len()
            invariant
                i <= nodes@.len(),
                stakes.wf(),
                ids@ == node_ids(nodes@).subrange(0, i as int),
                stakes@ == node_stakes(nodes@, i as int),
                members@ == byzantine_ids(nodes@, i as int),
            decreases nodes@.len() - i,
        {
            let node = nodes[i];
            ids.push(node.id);
            stakes.insert(node.id, node.stake);
            if node.is_byzantine {
                members.push(node.id);
            }
            i += 1;
            assert(ids@ =~= node_ids(nodes@).subrange(0, i as int));
        }
        assert(ids@ =~= node_ids(nodes@));
        let ghost all = nodes@.len() as int;
        let mut state = AlpenglowState::new(ids, stakes);
        let ghost base = state.deep_view();
        if members.len() > 0 {
            let total = sum_listed(&stake_map, &members);
            let coalition = ByzantineCoalition {
                members,
                strategy: CoalitionAttackType::SplitVote { target_blocks: Vec::new() },
                coordination_history: Vec::new(),
                total_stake: total as u64,
                formation_time: 0,
            };
            let ghost c = coalition;
            state.byzantine_coalitions.push(coalition);
            proof {
                assert(c.deep_view().coordination_history =~= Seq::empty());
                assert(c.deep_view() =~= network_of(nodes@, stake_map@).byzantine_coalitions[0]);
                assert(state.byzantine_coalitions.deep_view() =~= network_of(
                    nodes@,
                    stake_map@,
                ).byzantine_coalitions);
            }
        } else {
            assert(state.byzantine_coalitions.deep_view() =~= network_of(nodes@, stake_map@).byzantine_coalitions);
        }
        let ghost joined = state.deep_view();
        assert(joined =~= StateView {
            byzantine_coalitions: network_of(nodes@, stake_map@).byzantine_coalitions,
            ..base
        });
        let mut j: usize = 0;
        while j < nodes.len()
            invariant
                j <= nodes@.len(),
                state.wf(),
                state.deep_view() == (StateView { status: state.deep_view().status, ..joined }),
                forall|n: NodeId| #[trigger]
                    state.deep_view().status.contains_key(n) <==> node_ids(nodes@).contains(n),
                forall|n: NodeId|
                    state.deep_view().status.contains_key(n) ==> #[trigger] state.deep_view().status[n] == if marked_byzantine(
                        nodes@,
                        j as int,
                        n,
                    ) {
                        NodeStatusView::Byzantine(StrategyView::Equivocation)
                    } else {
                        NodeStatusView::Honest
                    },
            decreases nodes@.len() - j,
        {
            let node = nodes[j];
            let ghost before = state;
            proof {
                assert(node_ids(nodes@)[j as int] == node.id);
                assert(node_ids(nodes@).contains(node.id));
            }
            if node.is_byzantine {
                let status = NodeStatus::Byzantine(ByzantineStrategy::Equivocation);
                state.status.insert(node.id, status);
                proof {
                    lemma_deep_insert(before.status, state.status, node.id, status);
                    assert(state.deep_view() =~= StateView { status: state.deep_view().status, ..joined });
                }
            }
            proof {
                assert forall|n: NodeId| state.deep_view().status.contains_key(n) implies #[trigger] state.deep_view().status[n]
                    == if marked_byzantine(nodes@, j + 1, n) {
                    NodeStatusView::Byzantine(StrategyView::Equivocation)
                } else {
                    NodeStatusView::Honest
                } by {
                    if marked_byzantine(nodes@, j as int, n) {
                        let w = choose|w: int|
                            0 <= w < j && w < nodes@.len() && (#[trigger] nodes@[w]).id == n
                                && nodes@[w].is_byzantine;
                        assert(nodes@[w].id == n && nodes@[w].is_byzantine);
                    }
                    if node.is_byzantine && n == node.id {
                        assert(nodes@[j as int].id == n && nodes@[j as int].is_byzantine);
                    }
                    if marked_byzantine(nodes@, j + 1, n) {
                        let w = choose|w: int|
                            0 <= w < j + 1 && w < nodes@.len() && (#[trigger] nodes@[w]).id == n
                                && nodes@[w].is_byzantine;
                        if w < j {
                            assert(nodes@[w].id == n && nodes@[w].is_byzantine);
                        }
                    }
                }
            }
            j += 1;
        }
        proof {
            assert(state.deep_view().status =~= network_of(nodes@, stake_map@).status);
            assert(state.deep_view() =~= network_of(nodes@, stake_map@));
        }
        state
    }
}

/// The figures that the compact form of a state keeps beside its hashes.
#[derive(Clone, Copy, Debug, PartialEq, Eq, Structural, Hash)]
pub struct EssentialMetrics {
    pub committed_blocks: u32,
    pub active_byzantine_nodes: u32,
    pub network_partitions: u32,
    pub average_latency: u64,
}

/// The compact form of a state.
#[derive(Clone, Copy, Debug, PartialEq, Eq, Structural, Hash)]
pub struct CompactState {
    pub consensus_hash: u64,
    pub network_hash: u64,
    pub byzantine_hash: u64,
    pub essential_metrics: EssentialMetrics,
}

/// `x` cut down to the largest value a `u32` holds.
pub open spec fn clip32(x: int) -> int {
    if x > u32::MAX as int {
        u32::MAX as int
    } else {
        x
    }
}

/// The number of members of the first `n` of `coalitions`, each counted in every coalition it is in.
pub open spec fn member_count(coalitions: Seq<CoalitionView>, n: int) -> int
    decreases n,
{
    if n <= 0 {
        0
    } else {
        member_count(coalitions, n - 1) + coalitions[n - 1].members.len()
    }
}

/// The time that the first `n` delivered messages took, added up.
pub open spec fn latency_sum(delivered: Seq<crate::network::DeliveredMessageView>, n: int) -> int
    decreases n,
{
    if n <= 0 {
        0
    } else {
        latency_sum(delivered, n - 1) + delivered[n - 1].actual_latency
    }
}

/// The words that stand for a latency model: its kind, then its parameters.
pub open spec fn latency_words(model: LatencyModel) -> Seq<u64> {
    match model {
        LatencyModel::Constant { latency_ms } => seq![0u64, latency_ms],
        LatencyModel::Uniform { min_ms, max_ms } => seq![1u64, min_ms, max_ms],
        LatencyModel::Normal { mean_ms, std_dev_ms } => seq![2u64, mean_ms, std_dev_ms],
        LatencyModel::Realistic { base_latency_ms, distance_factor, congestion_multiplier } => seq![
            3u64,
            base_latency_ms,
            distance_factor,
            congestion_multiplier,
        ],
    }
}

/// The words that stand for a list of ids: its length, then the ids.
pub open spec fn id_words(ids: Seq<NodeId>) -> Seq<u64> {
    seq![ids.len() as u64] + ids.map_values(|n: NodeId| n as u64)
}

/// The words that stand for the first `n` of `coalitions`: of each, its members and its stake.
pub open spec fn coalition_words(coalitions: Seq<CoalitionView>, n: int) -> Seq<u64>
    decreases n,
{
    if n <= 0 {
        Seq::empty()
    } else {
        coalition_words(coalitions, n - 1) + id_words(coalitions[n - 1].members) + seq![
            coalitions[n - 1].total_stake,
        ]
    }
}

/// The hash of `words`: each word is written to a fresh hasher as its
/// eight bytes, lowest first.
pub open spec fn hash_of(words: Seq<u64>) -> u64 {
    DefaultHasher::spec_finish(words.map_values(|w: u64| spec_u64_to_le_bytes(w)))
}

impl StateView {
    /// The figures of the state: blocks in the ledger, members of
    /// coalitions and injected failures, each up to `u32::MAX`, and the mean
    /// time that the delivered messages took, zero where none was delivered.
    pub open spec fn essential_metrics(self) -> EssentialMetrics {
        let delivered = self.message_queue.delivered_messages;
        EssentialMetrics {
            committed_blocks: clip32(self.ledger.len() as int) as u32,
            active_byzantine_nodes: clip32(
                member_count(self.byzantine_coalitions, self.byzantine_coalitions.len() as int),
            ) as u32,
            network_partitions: clip32(self.network_state.failure_injections.len() as int) as u32,
            average_latency: if delivered.len() == 0 {
                0
            } else {
                (latency_sum(delivered, delivered.len() as int) / (delivered.len() as int)) as u64
            },
        }
    }

    /// The compact form of the state: a hash of slot and ledger length, one
    /// of latency model and queue length, one of the coalitions, and the figures.
    pub open spec fn compact(self) -> CompactState {
        CompactState {
            consensus_hash: hash_of(seq![self.current_slot as u64, self.ledger.len() as u64]),
            network_hash: hash_of(
                latency_words(self.network_state.latency_model) + seq![
                    self.message_queue.pending_messages.len() as u64,
                ],
            ),
            byzantine_hash: hash_of(
                coalition_words(self.byzantine_coalitions, self.byzantine_coalitions.len() as int),
            ),
            essential_metrics: self.essential_metrics(),
        }
    }

    /// Whether the network is fit for a large run: more than two honest
    /// nodes for each member of a coalition, a node, a stake, and as many
    /// stakes as nodes.
    pub open spec fn scalable(self) -> bool {
        let members = member_count(self.byzantine_coalitions, self.byzantine_coalitions.len() as int);
        &&& self.nodes.len() - members > 2 * members
        &&& self.nodes.len() > 0
        &&& self.stake_distribution.len() == self.nodes.len()
    }
}

pub proof fn lemma_member_count_bound(coalitions: Seq<CoalitionView>, n: int)
    requires
        0 <= n,
        forall|i: int| 0 <= i < coalitions.len() ==> (#[trigger] coalitions[i]).members.len() <= usize::MAX,
        n <= coalitions.len(),
    ensures
        0 <= member_count(coalitions, n) <= n * usize::MAX,
    decreases n,
{
    if n > 0 {
        lemma_member_count_bound(coalitions, n - 1);
        assert((n - 1) * usize::MAX + usize::MAX == n * usize::MAX) by (nonlinear_arith);
    }
}

pub proof fn lemma_latency_sum_bound(delivered: Seq<crate::network::DeliveredMessageView>, n: int)
    requires
        0 <= n,
    ensures
        0 <= latency_sum(delivered, n) <= n * u64::MAX,
    decreases n,
{
    if n > 0 {
        lemma_latency_sum_bound(delivered, n - 1);
        assert((n - 1) * u64::MAX + u64::MAX == n * u64::MAX) by (nonlinear_arith);
    }
}

/// The hash of `words`.
fn hash_words(words: &Vec<u64>) -> (h: u64)
    ensures
        h == hash_of(words@),
{
    let mut hasher = DefaultHasher::new();
    let mut i: usize = 0;
    while i < words.len()
        invariant
            i <= words@.len(),
            hasher@ == words@.subrange(0, i as int).map_values(|w: u64| spec_u64_to_le_bytes(w)),
        decreases words@.len() - i,
    {
        let bytes = u64_to_le_bytes(words[i]);
        hasher.write(bytes.as_slice());
        i += 1;
        assert(hasher@ =~= words@.subrange(0, i as int).map_values(|w: u64| spec_u64_to_le_bytes(w)));
    }
    assert(words@.subrange(0, i as int) =~= words@);
    hasher.finish()
}

/// `x`, or `u32::MAX` where it is larger.
fn clip_to_u32(x: u128) -> (r: u32)
    ensures
        r == clip32(x as int),
{
    if x > u32::MAX as u128 {
        u32::MAX
    } else {
        x as u32
    }
}

impl AlpenglowState {
    /// The number of members of all coalitions.
    pub fn count_members(&self) -> (c: u128)
        ensures
            c == member_count(
                self.deep_view().byzantine_coalitions,
                self.deep_view().byzantine_coalitions.len() as int,
            ),
    {
        let ghost coalitions = self.deep_view().byzantine_coalitions;
        let mut c: u128 = 0;
        let mut i: usize = 0;
        while i < self.byzantine_coalitions.len()
            invariant
                i <= self.byzantine_coalitions@.len(),
                coalitions == self.deep_view().byzantine_coalitions,
                coalitions.len() == self.byzantine_coalitions@.len(),
                c == member_count(coalitions, i as int),
                c <= i * usize::MAX,
            decreases self.byzantine_coalitions@.len() - i,
        {
            assert(coalitions[i as int] == self.byzantine_coalitions@[i as int].deep_view());
            proof {
                assert(i * usize::MAX + usize::MAX <= 0xFFFF_FFFF_FFFF_FFFF * 0x1_0000_0000_0000_0000) by (nonlinear_arith)
                    requires
                        i < 0xFFFF_FFFF_FFFF_FFFF,
                        usize::MAX <= 0xFFFF_FFFF_FFFF_FFFF,
                ;
                assert(i * usize::MAX + usize::MAX == (i + 1) * usize::MAX) by (nonlinear_arith);
            }
            c = c + self.byzantine_coalitions[i].members.len() as u128;
            i += 1;
        }
        c
    }

    /// The figures of the state.
    pub fn essential_metrics(&self) -> (m: EssentialMetrics)
        ensures
            m == self.deep_view().essential_metrics(),
    {
        let ghost delivered = self.deep_view().message_queue.delivered_messages;
        let n = self.message_queue.delivered_messages.len();
        let mut sum: u128 = 0;
        let mut i: usize = 0;
        while i < n
            invariant
                i <= n,
                n == self.message_queue.delivered_messages@.len(),
                delivered == self.deep_view().message_queue.delivered_messages,
                delivered.len() == n,
                sum == latency_sum(delivered, i as int),
            decreases n - i,
        {
            assert(delivered[i as int] == self.message_queue.delivered_messages@[i as int].deep_view());
            proof {
                lemma_latency_sum_bound(delivered, i as int);
                assert(i * u64::MAX + u64::MAX <= 0xFFFF_FFFF_FFFF_FFFF * 0x1_0000_0000_0000_0000) by (nonlinear_arith)
                    requires
                        i < 0xFFFF_FFFF_FFFF_FFFF,
                ;
            }
            sum = sum + self.message_queue.delivered_messages[i].actual_latency as u128;
            i += 1;
        }
        let average: u64 = if n == 0 {
            0
        } else {
            proof {
                lemma_latency_sum_bound(delivered, n as int);
                assert(sum / (n as u128) <= u64::MAX) by (nonlinear_arith)
                    requires
                        0 <= sum <= n * u64::MAX,
                        n > 0,
                ;
            }
            (sum / (n as u128)) as u64
        };
        EssentialMetrics {
            committed_blocks: clip_to_u32(self.ledger.len() as u128),
            active_byzantine_nodes: clip_to_u32(self.count_members()),
            network_partitions: clip_to_u32(self.network_state.failure_injections.len() as u128),
            average_latency: average,
        }
    }

    /// The compact form of the state.
    pub fn to_compact_state(&self) -> (c: CompactState)
        ensures
            c == self.deep_view().compact(),
    {
        let mut consensus: Vec<u64> = Vec::new();
        consensus.push(self.current_slot as u64);
        consensus.push(self.ledger.len() as u64);
        assert(consensus@ =~= seq![self.current_slot as u64, self.ledger.len() as u64]);
        let mut network: Vec<u64> = Vec::new();
        match self.network_state.latency_model {
            LatencyModel::Constant { latency_ms } => {
                network.push(0);
                network.push(latency_ms);
            },
            LatencyModel::Uniform { min_ms, max_ms } => {
                network.push(1);
                network.push(min_ms);
                network.push(max_ms);
            },
            LatencyModel::Normal { mean_ms, std_dev_ms } => {
                network.push(2);
                network.push(mean_ms);
                network.push(std_dev_ms);
            },
            LatencyModel::Realistic { base_latency_ms, distance_factor, congestion_multiplier } => {
                network.push(3);
                network.push(base_latency_ms);
                network.push(distance_factor);
                network.push(congestion_multiplier);
            },
        }
        assert(network@ =~= latency_words(self.network_state.latency_model));
        network.push(self.message_queue.pending_messages.len() as u64);
        assert(network@ =~= latency_words(self.network_state.latency_model) + seq![
            self.message_queue.pending_messages.len() as u64,
        ]);
        let ghost coalitions = self.deep_view().byzantine_coalitions;
        let mut byzantine: Vec<u64> = Vec::new();
        let mut i: usize = 0;
        while i < self.byzantine_coalitions.len()
            invariant
                i <= self.byzantine_coalitions@.len(),
                coalitions == self.deep_view().byzantine_coalitions,
                coalitions.len() == self.byzantine_coalitions@.len(),
                byzantine@ == coalition_words(coalitions, i as int),
            decreases self.byzantine_coalitions@.len() - i,
        {
            let coalition = &self.byzantine_coalitions[i];
            assert(coalitions[i as int] == coalition.deep_view());
            let ghost base = byzantine@;
            byzantine.push(coalition.members.len() as u64);
            let mut j: usize = 0;
            while j < coalition.members.len()
                invariant
                    j <= coalition.members@.len(),
                    byzantine@ == base + seq![coalition.members@.len() as u64] + coalition.members@.subrange(
                        0,
                        j as int,
                    ).map_values(|n: NodeId| n as u64),
                decreases coalition.members@.len() - j,
            {
                byzantine.push(coalition.members[j] as u64);
                j += 1;
                assert(byzantine@ =~= base + seq![coalition.members@.len() as u64]
                    + coalition.members@.subrange(0, j as int).map_values(|n: NodeId| n as u64));
            }
            assert(coalition.members@.subrange(0, j as int) =~= coalition.members@);
            byzantine.push(coalition.total_stake);
            i += 1;
            assert(byzantine@ =~= coalition_words(coalitions, i as int));
        }
        CompactState {
            consensus_hash: hash_words(&consensus),
            network_hash: hash_words(&network),
            byzantine_hash: hash_words(&byzantine),
            essential_metrics: self.essential_metrics(),
        }
    }

    /// Whether the network is fit for a large run.
    pub fn verify_scalability_properties(&self) -> (b: bool)
        requires
            self.stake_distribution.wf(),
        ensures
            b == self.deep_view().scalable(),
    {
        let total_nodes = self.nodes.len() as u128;
        let members = self.count_members();
        let resilient = members <= total_nodes && total_nodes - members > 2 * members;
        let initialized = self.nodes.len() > 0 && !self.stake_distribution.is_empty()
            && self.stake_distribution.len() == self.nodes.len();
        resilient && initialized
    }
}

/// What a check of a network found.
#[derive(Clone, Debug)]
pub struct PropertyResult {
    pub property_name: String,
    pub satisfied: bool,
    pub description: String,
}

/// The size of the first coalition, zero where there is none.
pub open spec fn first_coalition_size(s: StateView) -> int {
    if s.byzantine_coalitions.len() == 0 {
        0
    } else {
        s.byzantine_coalitions[0].members.len() as int
    }
}

/// What the detailed checks find of a state, check by check: that there
/// is a node; that there are more than two honest nodes for each member of
/// the first coalition; that there is stake; that a stake is recorded.
pub open spec fn detailed_findings(s: StateView) -> Seq<bool> {
    seq![
        s.nodes.len() > 0,
        s.nodes.len() - first_coalition_size(s) > 2 * first_coalition_size(s),
        s.total_stake() > 0,
        s.stake_distribution.len() > 0,
    ]
}

/// The number of nodes beside the members of the first coalition, zero where those are more.
pub open spec fn nodes_outside_first_coalition(s: StateView) -> u128 {
    if first_coalition_size(s) <= s.nodes.len() {
        (s.nodes.len() - first_coalition_size(s)) as u128
    } else {
        0
    }
}

/// Whether `lines` are the lines on the detailed checks of `s`: the
/// number of nodes; the honest nodes against the members of the first
/// coalition; the total stake; and a word on the stakes.
pub open spec fn detailed_lines(s: StateView, lines: Seq<Seq<char>>) -> bool {
    &&& lines.len() == 4
    &&& is_numbered(lines[0], "Network has "@, s.nodes.len() as u128, " nodes"@)
    &&& exists|middle: Seq<char>|
        #[trigger] is_numbered(middle, "Honest nodes ("@, nodes_outside_first_coalition(s), ") > 2 * Byzantine nodes ("@)
            && is_numbered(lines[1], middle, first_coalition_size(s) as u128, ")"@)
    &&& is_numbered(lines[2], "Total stake: "@, s.total_stake() as u128, ""@)
    &&& lines[3] == "Network state properly initialized"@
}

impl AlpenglowState {
    /// The size of the first coalition, zero where there is none.
    pub fn first_coalition_size(&self) -> (c: usize)
        ensures
            c == first_coalition_size(self.deep_view()),
    {
        if self.byzantine_coalitions.len() == 0 {
            0
        } else {
            assert(self.deep_view().byzantine_coalitions[0] == self.byzantine_coalitions@[0].deep_view());
            self.byzantine_coalitions[0].members.len()
        }
    }

    /// The detailed checks of a network, each with its name, its finding and a line on it.
    pub fn verify_detailed_scalability_properties(&self) -> (results: Vec<PropertyResult>)
        requires
            self.stake_distribution.wf(),
        ensures
            results@.len() == 4,
            forall|i: int| 0 <= i < 4 ==> (#[trigger] results@[i]).satisfied == detailed_findings(self.deep_view())[i],
            results@[0].property_name@ == "Node Count Consistency"@,
            results@[1].property_name@ == "Byzantine Resilience"@,
            results@[2].property_name@ == "Valid Stake Distribution"@,
            results@[3].property_name@ == "Network Initialization"@,
            detailed_lines(self.deep_view(), results@.map_values(|r: PropertyResult| r.description@)),
    {
        let mut results: Vec<PropertyResult> = Vec::new();
        let node_count = self.nodes.len();
        results.push(
            PropertyResult {
                property_name: String::from_str("Node Count Consistency"),
                satisfied: node_count > 0,
                description: numbered("Network has ", node_count as u128, " nodes"),
            },
        );
        let byzantine_count = self.first_coalition_size() as u128;
        let total = node_count as u128;
        let resilient = byzantine_count <= total && total - byzantine_count > 2 * byzantine_count;
        let honest: u128 = if byzantine_count <= total {
            total - byzantine_count
        } else {
            0
        };
        let middle = numbered("Honest nodes (", honest, ") > 2 * Byzantine nodes (");
        let line = numbered(middle.as_str(), byzantine_count, ")");
        results.push(
            PropertyResult {
                property_name: String::from_str("Byzantine Resilience"),
                satisfied: resilient,
                description: line,
            },
        );
        let total_stake = self.total_stake_wide();
        results.push(
            PropertyResult {
                property_name: String::from_str("Valid Stake Distribution"),
                satisfied: total_stake > 0,
                description: numbered("Total stake: ", total_stake, ""),
            },
        );
        results.push(
            PropertyResult {
                property_name: String::from_str("Network Initialization"),
                satisfied: !self.stake_distribution.is_empty(),
                description: String::from_str("Network state properly initialized"),
            },
        );
        proof {
            let lines = results@.map_values(|r: PropertyResult| r.description@);
            assert(lines[0] == results@[0].description@);
            assert(lines[1] == results@[1].description@);
            assert(lines[2] == results@[2].description@);
            assert(lines[3] == results@[3].description@);
            assert(honest == nodes_outside_first_coalition(self.deep_view()));
            assert(is_numbered(
                middle@,
                "Honest nodes ("@,
                nodes_outside_first_coalition(self.deep_view()),
                ") > 2 * Byzantine nodes ("@,
            ));
            assert(is_numbered(lines[1], middle@, first_coalition_size(self.deep_view()) as u128, ")"@));
            assert(is_numbered(lines[0], "Network has "@, self.deep_view().nodes.len() as u128, " nodes"@));
            assert(is_numbered(lines[2], "Total stake: "@, self.deep_view().total_stake() as u128, ""@));
            assert(lines[3] == "Network state properly initialized"@);
        }
        results
    }
}

/// What an exploration hashes of a state to tell the states it has seen
/// apart cheaply: the clock, the kind of each node, the numbers of certificates,
/// skip certificates and finalized blocks, whether a partition is in force,
/// and the number of votes in each slot up to the current one.
#[derive(Clone, Debug, PartialEq, Eq, Hash)]
pub struct ExplorationKey {
    pub current_slot: Slot,
    pub global_time: Timestamp,
    /// For each node of the registry its id, the tag of its status, and
    /// the time since which it has been down if it has crashed.
    pub node_tags: Vec<(NodeId, u8, u64)>,
    pub certificates: usize,
    pub skip_certs: usize,
    pub ledger: usize,
    pub partitioned: bool,
    pub votes_per_slot: Vec<usize>,
}

#[verifier::ext_equal]
pub struct ExplorationKeyView {
    pub current_slot: Slot,
    pub global_time: Timestamp,
    pub node_tags: Seq<(NodeId, u8, u64)>,
    pub certificates: usize,
    pub skip_certs: usize,
    pub ledger: usize,
    pub partitioned: bool,
    pub votes_per_slot: Seq<usize>,
}

impl DeepView for ExplorationKey {
    type V = ExplorationKeyView;

    open spec fn deep_view(&self) -> ExplorationKeyView {
        ExplorationKeyView {
            current_slot: self.current_slot,
            global_time: self.global_time,
            node_tags: self.node_tags@,
            certificates: self.certificates,
            skip_certs: self.skip_certs,
            ledger: self.ledger,
            partitioned: self.partitioned,
            votes_per_slot: self.votes_per_slot@,
        }
    }
}

/// The tag of a node without a status.
pub const TAG_UNKNOWN: u8 = 255;

/// The tag of an honest node.
pub const TAG_HONEST: u8 = 0;

/// The tag of a crashed node.
pub const TAG_CRASHED: u8 = 2;

/// The tag of a Byzantine node with the first kind of strategy; the other kinds follow.
pub const TAG_BYZANTINE: u8 = 10;

/// The number of the kind of a strategy, in the order of their declaration.
pub open spec fn strategy_kind(strategy: StrategyView) -> u8 {
    match strategy {
        StrategyView::Equivocation => 0,
        StrategyView::WithholdVotes => 1,
        StrategyView::RandomVotes => 2,
        StrategyView::SelectiveEquivocation { .. } => 3,
        StrategyView::AdaptiveBehavior { .. } => 4,
        StrategyView::CoalitionAttack { .. } => 5,
        StrategyView::TimingAttack { .. } => 6,
        StrategyView::StakeBasedAttack { .. } => 7,
    }
}

/// The id of `node`, the tag of its status, and the time since which it is down.
pub open spec fn node_tag(s: StateView, node: NodeId) -> (NodeId, u8, u64) {
    if !s.status.contains_key(node) {
        (node, TAG_UNKNOWN, 0)
    } else {
        match s.status[node] {
            NodeStatusView::Honest => (node, TAG_HONEST, 0),
            NodeStatusView::Byzantine(strategy) => (node, (TAG_BYZANTINE + strategy_kind(strategy)) as u8, 0),
            NodeStatusView::Crashed { since } => (node, TAG_CRASHED, since),
        }
    }
}

impl StateView {
    /// What an exploration hashes of the state.
    pub open spec fn exploration_key(self) -> ExplorationKeyView {
        ExplorationKeyView {
            current_slot: self.current_slot,
            global_time: self.global_time,
            node_tags: Seq::new(self.nodes.len(), |i: int| node_tag(self, self.nodes[i])),
            certificates: self.certificates.len() as usize,
            skip_certs: self.skip_certs.len() as usize,
            ledger: self.ledger.len() as usize,
            partitioned: self.partitioned(),
            votes_per_slot: Seq::new(
                self.current_slot as nat,
                |i: int| self.slot_votes((i + 1) as Slot).len() as usize,
            ),
        }
    }
}

/// The number of the kind of `strategy`.
fn kind_of(strategy: &ByzantineStrategy) -> (k: u8)
    ensures
        k == strategy_kind(strategy.deep_view()),
        k <= 7,
{
    match strategy {
        ByzantineStrategy::Equivocation => 0,
        ByzantineStrategy::WithholdVotes => 1,
        ByzantineStrategy::RandomVotes => 2,
        ByzantineStrategy::SelectiveEquivocation { .. } => 3,
        ByzantineStrategy::AdaptiveBehavior { .. } => 4,
        ByzantineStrategy::CoalitionAttack { .. } => 5,
        ByzantineStrategy::TimingAttack { .. } => 6,
        ByzantineStrategy::StakeBasedAttack { .. } => 7,
    }
}

impl AlpenglowState {
    /// What an exploration hashes of the state.
    pub fn exploration_key(&self) -> (key: ExplorationKey)
        requires
            self.wf(),
        ensures
            key.deep_view() == self.deep_view().exploration_key(),
    {
        let ghost s = self.deep_view();
        let mut node_tags: Vec<(NodeId, u8, u64)> = Vec::new();
        let mut i: usize = 0;
        while i < self.nodes.len()
            invariant
                i <= self.nodes@.len(),
                self.wf(),
                s == self.deep_view(),
                node_tags@.len() == i,
                forall|j: int| 0 <= j < i ==> #[trigger] node_tags@[j] == node_tag(s, s.nodes[j]),
            decreases self.nodes@.len() - i,
        {
            let node = self.nodes[i];
            let tag: (NodeId, u8, u64) = match self.status.get(&node) {
                None => (node, TAG_UNKNOWN, 0),
                Some(NodeStatus::Honest) => (node, TAG_HONEST, 0),
                Some(NodeStatus::Byzantine(strategy)) => (node, TAG_BYZANTINE + kind_of(strategy), 0),
                Some(NodeStatus::Crashed { since }) => (node, TAG_CRASHED, *since),
            };
            node_tags.push(tag);
            i += 1;
        }
        let mut votes_per_slot: Vec<usize> = Vec::new();
        let mut slot: u32 = 0;
        while slot < self.current_slot
            invariant
                slot <= self.current_slot,
                self.wf(),
                s == self.deep_view(),
                votes_per_slot@.len() == slot,
                forall|j: int|
                    0 <= j < slot ==> #[trigger] votes_per_slot@[j] == s.slot_votes((j + 1) as Slot).len() as usize,
            decreases self.current_slot - slot,
        {
            let votes = self.collect_slot_votes(slot + 1);
            votes_per_slot.push(votes.len());
            slot += 1;
        }
        let key = ExplorationKey {
            current_slot: self.current_slot,
            global_time: self.global_time,
            node_tags,
            certificates: self.certificates.len(),
            skip_certs: self.skip_certs.len(),
            ledger: self.ledger.len(),
            partitioned: self.network_partition.is_some(),
            votes_per_slot,
        };
        proof {
            self.certificates.lemma_entries();
            self.skip_certs.lemma_entries();
            self.certificates.lemma_deep_view();
            self.skip_certs.lemma_deep_view();
            assert(s.certificates.dom() == self.certificates@.dom());
            assert(s.skip_certs.dom() == self.skip_certs@.dom());
            assert(key.deep_view().node_tags =~= s.exploration_key().node_tags);
            assert(key.deep_view().votes_per_slot =~= s.exploration_key().votes_per_slot);
        }
        key
    }
}

} // verus!
