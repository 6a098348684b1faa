//! A demonstration on large networks: a network of a given size is built,
//! and each step of building it is timed.
//!
//! The clock is read through `std::time`. Nothing is claimed of its
//! readings: what the demonstration finds of the network is proved
//! whatever the clock says, and what it makes of a reading is stated by
//! `is_acceptable`.

use std::time::{Duration, Instant};
use vstd::prelude::*;
use crate::scale::{byzantine_ids, first_coalition_size, listed_stake, network_of, node_stakes};
use crate::sorted_map::{is_listing, lemma_listing_unique, ordered_keys, SortedMap};
use crate::state::{stake_sum, total_of, AlpenglowState};
use crate::treasury::amount_at;
use crate::types::{Node, NodeId, StakeAmount};

verus! {

/// A reading of the clock, `std::time::Instant`. It is carried from one call to the next, and never looked into.
#[verifier::external_type_specification]
#[verifier::external_body]
pub struct ExInstant(std::time::Instant);

/// The milliseconds within which a network must be created.
pub const ACCEPTABLE_CREATION_MILLIS: u128 = 100;

/// What a demonstration found of a network, and how long its steps took.
#[derive(Debug)]
pub struct ScalabilityResult {
    pub node_count: usize,
    pub total_creation_time: Duration,
    pub state_creation_time: Duration,
    pub properties_verification_time: Duration,
    pub compact_state_time: Duration,
    pub total_stake: u64,
    pub byzantine_node_count: usize,
    pub honest_node_count: usize,
    pub byzantine_resilient: bool,
    pub memory_efficient: bool,
    pub performance_acceptable: bool,
}

impl Clone for ScalabilityResult {
    fn clone(&self) -> (c: Self)
        ensures
            c == *self,
    {
        ScalabilityResult {
            node_count: self.node_count,
            total_creation_time: self.total_creation_time,
            state_creation_time: self.state_creation_time,
            properties_verification_time: self.properties_verification_time,
            compact_state_time: self.compact_state_time,
            total_stake: self.total_stake,
            byzantine_node_count: self.byzantine_node_count,
            honest_node_count: self.honest_node_count,
            byzantine_resilient: self.byzantine_resilient,
            memory_efficient: self.memory_efficient,
            performance_acceptable: self.performance_acceptable,
        }
    }
}

/// Reads the clock, by `Instant::now`. Nothing is claimed of the reading.
#[verifier::external_body]
fn reading() -> (now: Instant) {
    Instant::now()
}

/// The time that has passed since `start`, by `Instant::elapsed`. Nothing is claimed of it.
#[verifier::external_body]
fn time_since(start: &Instant) -> (passed: Duration) {
    start.elapsed()
}

/// The whole milliseconds of `time`, by `Duration::as_millis`. Nothing is claimed of their number.
#[verifier::external_body]
fn millis_of(time: &Duration) -> (millis: u128) {
    time.as_millis()
}

/// Whether a network that took `creation_millis` milliseconds to create was created fast enough.
pub fn is_acceptable(creation_millis: u128) -> (b: bool)
    ensures
        b == (creation_millis < ACCEPTABLE_CREATION_MILLIS),
{
    creation_millis < ACCEPTABLE_CREATION_MILLIS
}

/// The validators of a demonstration of size `count`: the ids count up
/// from 0, the stakes from 100 in steps of 5, and every tenth validator
/// is Byzantine, beginning with the first.
pub open spec fn demonstration_nodes(count: int) -> Seq<Node> {
    Seq::new(
        count as nat,
        |i: int|
            Node {
                id: i as u32,
                stake: (100 + 5 * i) as u64,
                is_byzantine: i % 10 == 0,
            },
    )
}

/// The stake of all validators of a demonstration of size `count`.
pub open spec fn demonstration_stake(count: int) -> int {
    (200 * count + 5 * (count * (count - 1))) / 2
}

/// The number of Byzantine validators of a demonstration of size `count`.
pub open spec fn demonstration_byzantine(count: int) -> int {
    (count + 9) / 10
}

/// A demonstration whose stake fits its type has ids that fit theirs.
pub proof fn lemma_demonstration_size(count: int)
    requires
        0 <= count,
        demonstration_stake(count) <= u64::MAX,
    ensures
        count <= u32::MAX,
{
    if count > u32::MAX {
        assert(count * (count - 1) >= 0x1_0000_0000 * 0xFFFF_FFFF) by (nonlinear_arith)
            requires
                count >= 0x1_0000_0000,
        ;
    }
}

/// The stakes of the first `k` validators of a demonstration: one for each id below `k`.
pub proof fn lemma_demonstration_stakes(count: int, k: int)
    requires
        0 <= k <= count <= u32::MAX,
    ensures
        forall|id: NodeId| #[trigger] node_stakes(demonstration_nodes(count), k).contains_key(id) <==> id < k,
        forall|id: NodeId|
            id < k ==> #[trigger] node_stakes(demonstration_nodes(count), k)[id] == 100 + 5 * id,
    decreases k,
{
    if k > 0 {
        lemma_demonstration_stakes(count, k - 1);
        let nodes = demonstration_nodes(count);
        assert(nodes[k - 1].id == k - 1);
        assert(nodes[k - 1].stake == 100 + 5 * (k - 1));
        assert(node_stakes(nodes, k) == node_stakes(nodes, k - 1).insert(nodes[k - 1].id, nodes[k - 1].stake));
    }
}

/// The ids below `count`, counting up.
pub open spec fn counted_ids(count: int) -> Seq<NodeId> {
    Seq::new(count as nat, |i: int| i as u32)
}

/// The sum of the stakes of the first `k` validators of a demonstration.
pub proof fn lemma_demonstration_sum(count: int, k: int)
    requires
        0 <= k <= count <= u32::MAX,
    ensures
        2 * stake_sum(node_stakes(demonstration_nodes(count), count), counted_ids(count), k) == 200 * k + 5 * (k * (
            k - 1)),
    decreases k,
{
    if k > 0 {
        lemma_demonstration_sum(count, k - 1);
        lemma_demonstration_stakes(count, count);
        let stakes = node_stakes(demonstration_nodes(count), count);
        let ids = counted_ids(count);
        assert(stakes[ids[k - 1]] == 100 + 5 * (k - 1));
        assert(stake_sum(stakes, ids, k) == stake_sum(stakes, ids, k - 1) + stakes[ids[k - 1]]);
        lemma_step_of_sum(k);
    }
}

/// From the sum of the first `k - 1` stakes of a demonstration to that of the first `k`, doubled.
pub proof fn lemma_step_of_sum(k: int)
    ensures
        200 * k + 5 * (k * (k - 1)) == 200 * (k - 1) + 5 * ((k - 1) * ((k - 1) - 1)) + 2 * (100 + 5 * (k - 1)),
{
    assert(k * (k - 1) == (k - 1) * ((k - 1) - 1) + 2 * (k - 1)) by (nonlinear_arith);
}

/// The stake of a demonstration is the sum of its stakes.
pub proof fn lemma_demonstration_total(count: int)
    requires
        0 <= count <= u32::MAX,
    ensures
        total_of(node_stakes(demonstration_nodes(count), count)) == demonstration_stake(count),
{
    let stakes = node_stakes(demonstration_nodes(count), count);
    let ids = counted_ids(count);
    lemma_demonstration_stakes(count, count);
    assert forall|id: NodeId| stakes.contains_key(id) <==> ids.contains(id) by {
        if stakes.contains_key(id) {
            assert(ids[id as int] == id);
        }
    }
    assert(is_listing(stakes, ids));
    lemma_listing_unique(stakes, ordered_keys(stakes), ids);
    lemma_demonstration_sum(count, count);
}

/// A sum of listed stakes looks at the listed ids only.
pub proof fn lemma_listed_prefix(stakes: Map<NodeId, StakeAmount>, ids: Seq<NodeId>, more: Seq<NodeId>, n: int)
    requires
        0 <= n <= ids.len() <= more.len(),
        more.subrange(0, ids.len() as int) == ids,
    ensures
        listed_stake(stakes, more, n) == listed_stake(stakes, ids, n),
    decreases n,
{
    if n > 0 {
        lemma_listed_prefix(stakes, ids, more, n - 1);
        assert(more.subrange(0, ids.len() as int)[n - 1] == more[n - 1]);
    }
}

/// The Byzantine validators among the first `k` of a demonstration: how
/// many they are, and that their stake is no more than that of the `k`.
pub proof fn lemma_demonstration_coalition(count: int, k: int)
    requires
        0 <= k <= count <= u32::MAX,
    ensures
        byzantine_ids(demonstration_nodes(count), k).len() == demonstration_byzantine(k),
        2 * listed_stake(
            node_stakes(demonstration_nodes(count), count),
            byzantine_ids(demonstration_nodes(count), k),
            byzantine_ids(demonstration_nodes(count), k).len() as int,
        ) <= 200 * k + 5 * (k * (k - 1)),
        0 <= listed_stake(
            node_stakes(demonstration_nodes(count), count),
            byzantine_ids(demonstration_nodes(count), k),
            byzantine_ids(demonstration_nodes(count), k).len() as int,
        ),
    decreases k,
{
    if k > 0 {
        lemma_demonstration_coalition(count, k - 1);
        lemma_demonstration_stakes(count, count);
        let nodes = demonstration_nodes(count);
        let stakes = node_stakes(nodes, count);
        let before = byzantine_ids(nodes, k - 1);
        let now = byzantine_ids(nodes, k);
        lemma_step_of_sum(k);
        if nodes[k - 1].is_byzantine {
            assert(now.subrange(0, before.len() as int) =~= before);
            lemma_listed_prefix(stakes, before, now, before.len() as int);
            assert(amount_at(stakes, now[now.len() - 1]) == 100 + 5 * (k - 1));
        }
    }
}

/// Whether a demonstration of size `node_count` can be made: there is a
/// validator, and the stake of them all fits its type.
pub fn can_demonstrate(node_count: usize) -> (b: bool)
    ensures
        b == (node_count > 0 && demonstration_stake(node_count as int) <= u64::MAX),
{
    if node_count == 0 {
        false
    } else if node_count > u32::MAX as usize {
        proof {
            if demonstration_stake(node_count as int) <= u64::MAX {
                lemma_demonstration_size(node_count as int);
            }
        }
        false
    } else {
        let n: u128 = node_count as u128;
        assert(0 <= n * (n - 1) <= 0xFFFF_FFFF * 0xFFFF_FFFF) by (nonlinear_arith)
            requires
                1 <= n <= 0xFFFF_FFFF,
        ;
        (200 * n + 5 * (n * (n - 1))) / 2 <= u64::MAX as u128
    }
}

/// The validators of a demonstration of size `node_count`, and their stakes.
fn demonstration_network(node_count: usize) -> (network: (Vec<Node>, SortedMap<NodeId, StakeAmount>))
    requires
        node_count <= u32::MAX,
    ensures
        network.0@ == demonstration_nodes(node_count as int),
        network.1.wf(),
        network.1@ == node_stakes(demonstration_nodes(node_count as int), node_count as int),
{
    let ghost all = demonstration_nodes(node_count as int);
    let mut nodes: Vec<Node> = Vec::new();
    let mut stake_map: SortedMap<NodeId, StakeAmount> = SortedMap::new();
    let mut i: usize = 0;
    assert(stake_map@ =~= node_stakes(all, 0));
    while i < node_count
        invariant
            i <= node_count <= u32::MAX,
            all == demonstration_nodes(node_count as int),
            nodes@ == all.subrange(0, i as int),
            stake_map.wf(),
            stake_map@ == node_stakes(all, i as int),
        decreases node_count - i,
    {
        let node_id = i as u32;
        let is_byzantine = i % 10 == 0;
        let stake: u64 = 100 + (i as u64) * 5;
        nodes.push(Node { id: node_id, stake, is_byzantine });
        stake_map.insert(node_id, stake);
        i += 1;
        assert(nodes@ =~= all.subrange(0, i as int));
    }
    assert(nodes@ =~= all);
    (nodes, stake_map)
}

impl AlpenglowState {
    /// Builds a network of `node_count` validators, every tenth of them
    /// Byzantine, and measures how long each step takes.
    ///
    /// There must be a validator, and the stake of them all must fit its
    /// type. The figures on the network are those of a demonstration of
    /// its size; the times, and whether the creation was fast enough, are
    /// as the clock has it.
    pub fn demonstrate_large_network_scalability(node_count: usize) -> (result: ScalabilityResult)
        requires
            node_count > 0,
            demonstration_stake(node_count as int) <= u64::MAX,
        ensures
            result.node_count == node_count,
            result.total_stake == demonstration_stake(node_count as int),
            result.byzantine_node_count == demonstration_byzantine(node_count as int),
            result.honest_node_count == node_count - demonstration_byzantine(node_count as int),
            result.byzantine_resilient == (node_count - demonstration_byzantine(node_count as int) > 2
                * demonstration_byzantine(node_count as int)),
            result.memory_efficient,
    {
        proof {
            lemma_demonstration_size(node_count as int);
            lemma_demonstration_total(node_count as int);
            lemma_demonstration_coalition(node_count as int, node_count as int);
        }
        let start_time = reading();
        let (nodes, stake_map) = demonstration_network(node_count);
        let creation_time = time_since(&start_time);

        let state_start = reading();
        let ghost model = network_of(nodes@, stake_map@);
        let state = AlpenglowState::new_with_nodes(nodes, stake_map);
        let state_creation_time = time_since(&state_start);
        proof {
            assert(model.nodes.len() == node_count);
            assert(first_coalition_size(model) == demonstration_byzantine(node_count as int));
        }

        let properties_start = reading();
        let total_nodes = state.nodes.len();
        let total_stake = state.total_stake();
        let byzantine_count = state.first_coalition_size();
        let honest_count = total_nodes - byzantine_count;
        let byzantine_resilient = honest_count > byzantine_count * 2;

        let compact_start = reading();
        let _compact = state.to_compact_state();
        let compact_time = time_since(&compact_start);
        let properties_time = time_since(&properties_start);

        ScalabilityResult {
            node_count,
            performance_acceptable: is_acceptable(millis_of(&creation_time)),
            total_creation_time: creation_time,
            state_creation_time,
            properties_verification_time: properties_time,
            compact_state_time: compact_time,
            total_stake,
            byzantine_node_count: byzantine_count,
            honest_node_count: honest_count,
            byzantine_resilient,
            memory_efficient: true,
        }
    }
}

} // verus!
